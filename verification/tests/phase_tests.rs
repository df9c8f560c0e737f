use diplomacygm::phase::Phase;

#[test]
fn initial_phase_is_spring_moves() {
    assert!(Phase::initial() == Phase::SpringMoves);
}

#[test]
fn phases_follow_the_year() {
    assert!(Phase::SpringMoves.next() == Phase::SpringRetreats);
    assert!(Phase::SpringRetreats.next() == Phase::FallMoves);
    assert!(Phase::FallMoves.next() == Phase::FallRetreats);
    assert!(Phase::FallRetreats.next() == Phase::WinterBuilds);
    assert!(Phase::WinterBuilds.next() == Phase::SpringMoves);
}

#[test]
fn previous_undoes_next() {
    let all = [Phase::SpringMoves, Phase::SpringRetreats, Phase::FallMoves, Phase::FallRetreats, Phase::WinterBuilds];
    for p in all {
        assert!(p.next().previous() == p);
        assert!(p.previous().next() == p);
    }
}

#[test]
fn five_steps_make_a_year() {
    let p = Phase::FallMoves;
    assert!(p.next().next().next().next().next() == p);
}

#[test]
fn phases_by_name() {
    let p = Phase::initial();
    assert!(p.get("Spring Moves") == Phase::SpringMoves);
    assert!(p.get("Spring Retreats") == Phase::SpringRetreats);
    assert!(p.get("Fall Moves") == Phase::FallMoves);
    assert!(p.get("Fall Retreats") == Phase::FallRetreats);
    assert!(p.get("Winter Builds") == Phase::WinterBuilds);
}

#[test]
fn phase_kinds() {
    assert!(Phase::SpringMoves.is_moves() && !Phase::SpringMoves.is_retreats() && !Phase::SpringMoves.is_builds());
    assert!(Phase::FallMoves.is_moves());
    assert!(Phase::SpringRetreats.is_retreats() && Phase::FallRetreats.is_retreats());
    assert!(Phase::WinterBuilds.is_builds() && !Phase::WinterBuilds.is_moves());
}
