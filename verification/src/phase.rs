use vstd::prelude::*;

use crate::support::str_eq;

verus! {

/// The phases of a game year, in the order in which they are played:
/// Spring Moves, Spring Retreats, Fall Moves, Fall Retreats, Winter Builds.
#[derive(Debug, Clone, Copy, PartialEq, Eq, Structural)]
pub enum Phase {
    WinterBuilds,
    FallRetreats,
    FallMoves,
    SpringRetreats,
    SpringMoves,
}

/// Position of a phase within the year (Spring Moves first).
pub open spec fn phase_index(p: Phase) -> int {
    match p {
        Phase::SpringMoves => 0,
        Phase::SpringRetreats => 1,
        Phase::FallMoves => 2,
        Phase::FallRetreats => 3,
        Phase::WinterBuilds => 4,
    }
}

/// The phase at a given position of the year; positions wrap around.
pub open spec fn phase_at(i: int) -> Phase {
    let k = i % 5;
    if k == 0 {
        Phase::SpringMoves
    } else if k == 1 {
        Phase::SpringRetreats
    } else if k == 2 {
        Phase::FallMoves
    } else if k == 3 {
        Phase::FallRetreats
    } else {
        Phase::WinterBuilds
    }
}

/// The display name of a phase, as accepted by `Phase::get`.
pub open spec fn phase_name(p: Phase) -> Seq<char> {
    match p {
        Phase::SpringMoves => "Spring Moves"@,
        Phase::SpringRetreats => "Spring Retreats"@,
        Phase::FallMoves => "Fall Moves"@,
        Phase::FallRetreats => "Fall Retreats"@,
        Phase::WinterBuilds => "Winter Builds"@,
    }
}

/// True when `name` names one of the five phases.
pub open spec fn is_phase_name(name: Seq<char>) -> bool {
    exists|p: Phase| phase_name(p) == name
}

pub open spec fn spec_next(p: Phase) -> Phase {
    phase_at(phase_index(p) + 1)
}

pub open spec fn spec_previous(p: Phase) -> Phase {
    phase_at(phase_index(p) + 4)
}

impl Phase {
    /// The phase whose name is `name` ("Spring Moves", "Spring Retreats",
    /// "Fall Moves", "Fall Retreats" or "Winter Builds"). Any other name is
    /// refused.
    pub fn get(&self, name: &str) -> (res: Phase)
        requires
            is_phase_name(name@),
        ensures
            phase_name(res) == name@,
    {
        proof {
            reveal_strlit("Spring Moves");
            reveal_strlit("Spring Retreats");
            reveal_strlit("Fall Moves");
            reveal_strlit("Fall Retreats");
            reveal_strlit("Winter Builds");
        }
        if str_eq(name, "Spring Moves") {
            Phase::SpringMoves
        } else if str_eq(name, "Spring Retreats") {
            Phase::SpringRetreats
        } else if str_eq(name, "Fall Moves") {
            Phase::FallMoves
        } else if str_eq(name, "Fall Retreats") {
            Phase::FallRetreats
        } else {
            proof {
                let p = choose|p: Phase| phase_name(p) == name@;
                assert(phase_name(p) == name@);
            }
            Phase::WinterBuilds
        }
    }

    /// The phase a new game starts in: Spring Moves.
    pub fn initial() -> (res: Phase)
        ensures
            res == Phase::SpringMoves,
            phase_index(res) == 0,
    {
        Phase::SpringMoves
    }

    /// The phase that follows this one.
    pub fn next(&self) -> (res: Phase)
        ensures
            res == spec_next(*self),
    {
        match self {
            Phase::WinterBuilds => Phase::SpringMoves,
            Phase::FallRetreats => Phase::WinterBuilds,
            Phase::FallMoves => Phase::FallRetreats,
            Phase::SpringRetreats => Phase::FallMoves,
            Phase::SpringMoves => Phase::SpringRetreats,
        }
    }

    /// The phase that precedes this one.
    pub fn previous(&self) -> (res: Phase)
        ensures
            res == spec_previous(*self),
    {
        match self {
            Phase::WinterBuilds => Phase::FallRetreats,
            Phase::FallRetreats => Phase::FallMoves,
            Phase::FallMoves => Phase::SpringRetreats,
            Phase::SpringRetreats => Phase::SpringMoves,
            Phase::SpringMoves => Phase::WinterBuilds,
        }
    }

    /// Spring Moves and Fall Moves are movement phases.
    pub fn is_moves(&self) -> (res: bool)
        ensures
            res <==> (*self == Phase::SpringMoves || *self == Phase::FallMoves),
    {
        match self {
            Phase::SpringMoves | Phase::FallMoves => true,
            _ => false,
        }
    }

    /// Spring Retreats and Fall Retreats are retreat phases.
    pub fn is_retreats(&self) -> (res: bool)
        ensures
            res <==> (*self == Phase::SpringRetreats || *self == Phase::FallRetreats),
    {
        match self {
            Phase::SpringRetreats | Phase::FallRetreats => true,
            _ => false,
        }
    }

    /// Winter Builds is the only build phase.
    pub fn is_builds(&self) -> (res: bool)
        ensures
            res <==> *self == Phase::WinterBuilds,
    {
        match self {
            Phase::WinterBuilds => true,
            _ => false,
        }
    }
}

/// Going forward then back, or back then forward, returns to the same phase.
pub proof fn lemma_next_previous_inverse(p: Phase)
    ensures
        spec_previous(spec_next(p)) == p,
        spec_next(spec_previous(p)) == p,
{
}

/// Five steps forward bring every phase back to itself, and no fewer do.
pub proof fn lemma_year_cycle(p: Phase)
    ensures
        spec_next(spec_next(spec_next(spec_next(spec_next(p))))) == p,
        spec_next(p) != p,
        spec_next(spec_next(p)) != p,
        spec_next(spec_next(spec_next(p))) != p,
        spec_next(spec_next(spec_next(spec_next(p)))) != p,
{
}

/// Every phase is exactly one of: a movement, a retreat or a build phase;
/// every movement phase is followed by a retreat phase.
pub proof fn lemma_phase_kinds(p: Phase)
    ensures
        (p == Phase::SpringMoves || p == Phase::FallMoves)
            || (p == Phase::SpringRetreats || p == Phase::FallRetreats)
            || p == Phase::WinterBuilds,
        (p == Phase::SpringMoves || p == Phase::FallMoves) ==> (spec_next(p) == Phase::SpringRetreats
            || spec_next(p) == Phase::FallRetreats),
{
}

} // verus!
