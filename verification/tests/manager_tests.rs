use diplomacygm::board::{board_info_is_valid, Board, BoardInfo};
use diplomacygm::manager::Manager;
use diplomacygm::phase::Phase;
use diplomacygm::player::PlayerInfo;
use diplomacygm::province::{Coast, CoastReference, ProvinceInfo, ProvinceReference, ProvinceType};
use diplomacygm::unit::{Unit, UnitType};
use std::sync::Arc;

fn name_ref(n: &str) -> ProvinceReference {
    ProvinceReference::Name(String::from(n))
}

fn small_map(datafile: &str) -> BoardInfo {
    let france = PlayerInfo::new(String::from("France"), String::from("0000ff"), 18, 3);
    let paris = ProvinceInfo {
        name: String::from("Paris"),
        province_type: ProvinceType::LAND,
        adjacent: vec![name_ref("Channel"), name_ref("Brest")],
        has_supply_center: true,
        initial_owner: Some(Arc::clone(&france)),
        initial_core: Some(Arc::clone(&france)),
        initial_unit: Some(Unit {
            unit_type: UnitType::ARMY,
            owner: Arc::clone(&france),
            current_province: name_ref("Paris"),
            coast: None,
            retreat_options: None,
        }),
        coasts: Some(vec![Coast {
            name: String::from("Paris coast"),
            adjacent_seas: vec![name_ref("Channel")],
            province: name_ref("Paris"),
        }]),
    };
    let brest = ProvinceInfo {
        name: String::from("Brest"),
        province_type: ProvinceType::LAND,
        adjacent: vec![name_ref("Paris")],
        has_supply_center: false,
        initial_owner: None,
        initial_core: None,
        initial_unit: None,
        coasts: Some(Vec::new()),
    };
    let channel = ProvinceInfo {
        name: String::from("Channel"),
        province_type: ProvinceType::SEA,
        adjacent: vec![name_ref("Paris")],
        has_supply_center: false,
        initial_owner: None,
        initial_core: None,
        initial_unit: None,
        coasts: Some(Vec::new()),
    };
    BoardInfo {
        name: String::from("Small"),
        players: vec![france],
        name_to_info: vec![Arc::new(paris), Arc::new(brest), Arc::new(channel)],
        datafile: String::from(datafile),
    }
}

#[test]
fn a_new_manager_has_no_games() {
    let m = Manager::new();
    assert!(m.list_servers().is_empty());
    assert!(!m.has_game(1));
    assert!(m.get_board_info("small.json").is_none());
}

#[test]
fn creating_a_game_once() {
    let mut m = Manager::new();
    let info = small_map("small.json");
    assert!(board_info_is_valid(&info.name_to_info));
    let info = Arc::new(info);
    assert_eq!(m.create_game(&7, Arc::clone(&info)), "idk game created");
    assert!(m.has_game(7));
    assert!(!m.has_game(8));
    assert_eq!(m.create_game(&7, Arc::clone(&info)), "A game already exists in this server.");
    assert_eq!(m.list_servers(), vec![7]);
    assert_eq!(m.create_game(&8, info), "idk game created");
    let mut servers = m.list_servers();
    servers.sort();
    assert_eq!(servers, vec![7, 8]);
}

#[test]
fn map_descriptions_are_kept_by_file() {
    let mut m = Manager::new();
    let a = Arc::new(small_map("small.json"));
    m.store_board_info(Arc::clone(&a));
    let got = m.get_board_info("small.json").unwrap();
    assert!(Arc::ptr_eq(&got, &a));
    let b = Arc::new(small_map("small.json"));
    m.store_board_info(Arc::clone(&b));
    assert!(Arc::ptr_eq(&m.get_board_info("small.json").unwrap(), &b));
    assert!(m.get_board_info("other.json").is_none());
}

#[test]
fn fish_changes_add_up() {
    let mut m = Manager::new();
    m.create_game(&3, Arc::new(small_map("small.json")));
    assert_eq!(m.change_fish(3, 5), 5);
    assert_eq!(m.change_fish(3, -8), -3);
    assert_eq!(m.change_fish(3, 10), 7);
}

#[test]
fn information_about_a_province() {
    let mut m = Manager::new();
    m.create_game(&1, Arc::new(small_map("small.json")));
    assert_eq!(
        m.province_info(1, String::from("PARIS")),
        "Province: Paris\nType: LAND\nCoasts: 1\nOwner: France\nUnit: France\nCenter: true\nCore: France\nHalf-Core: None\nAdjacent Provinces:\n- Brest\n- Channel\n"
    );
    assert_eq!(
        m.province_info(1, String::from("channel")),
        "Province: Channel\nType: SEA\nCoasts: 0\nOwner: None\nUnit: None\nCenter: false\nCore: None\nHalf-Core: None\nAdjacent Provinces:\n- Paris\n"
    );
}

#[test]
fn information_about_a_coast() {
    let mut m = Manager::new();
    m.create_game(&1, Arc::new(small_map("small.json")));
    assert_eq!(
        m.province_info(1, String::from("Paris Coast")),
        "Province: Paris\nType: COAST\nAdjacent Provinces:\n- Channel\n"
    );
}

#[test]
fn information_about_nothing() {
    let mut m = Manager::new();
    m.create_game(&1, Arc::new(small_map("small.json")));
    assert_eq!(m.province_info(1, String::from("Atlantis")), "Could not find province Atlantis");
}

#[test]
fn a_board_starts_from_its_map() {
    let board = Board::new(Arc::new(small_map("small.json")), Phase::initial());
    let (p, c) = board.get_province_and_coast(String::from("paris"));
    let p = p.unwrap();
    assert!(c.is_none());
    assert_eq!(p.owner.as_ref().unwrap().name, "France");
    assert_eq!(p.core.as_ref().unwrap().name, "France");
    assert!(p.half_core.is_none());
    assert!(p.unit.as_ref().unwrap().unit_type == UnitType::ARMY);
    let (p, c) = board.get_province_and_coast(String::from("PARIS COAST"));
    assert_eq!(p.unwrap().info.name, "Paris");
    assert_eq!(c.unwrap().name, "Paris coast");
    let (p, c) = board.get_province_and_coast(String::from("nowhere"));
    assert!(p.is_none() && c.is_none());
    let resolved = board.resolve_province_ref(&name_ref("BREST"));
    assert_eq!(resolved.info.name, "Brest");
    let coast = board.get_province_and_coast(String::from("Paris")).0.unwrap().info.resolve_reference(&CoastReference::Name(String::from("Paris coast")));
    assert_eq!(coast.name, "Paris coast");
}

#[test]
fn the_fish_of_a_board() {
    let mut board = Board::new(Arc::new(small_map("small.json")), Phase::initial());
    assert_eq!(board.fish, 0);
    assert_eq!(board.add_fish(4), 4);
    assert_eq!(board.add_fish(-1), 3);
    board.set_board_id(Some(9));
    assert_eq!(board.board_id, Some(9));
}

#[test]
fn invalid_maps_are_recognised() {
    let mut info = small_map("small.json");
    assert!(board_info_is_valid(&info.name_to_info));
    let mut dup = ProvinceInfo {
        name: String::from("PARIS"),
        province_type: ProvinceType::LAND,
        adjacent: Vec::new(),
        has_supply_center: false,
        initial_owner: None,
        initial_core: None,
        initial_unit: None,
        coasts: None,
    };
    info.name_to_info.push(Arc::new(ProvinceInfo { name: dup.name.clone(), province_type: dup.province_type, adjacent: Vec::new(), has_supply_center: false, initial_owner: None, initial_core: None, initial_unit: None, coasts: None }));
    assert!(!board_info_is_valid(&info.name_to_info));
    let mut info = small_map("small.json");
    dup.name = String::from("Lyon");
    dup.adjacent = vec![name_ref("Atlantis")];
    info.name_to_info.push(Arc::new(dup));
    assert!(!board_info_is_valid(&info.name_to_info));
}

fn bare(name: &str, adjacent: Vec<ProvinceReference>) -> ProvinceInfo {
    ProvinceInfo {
        name: String::from(name),
        province_type: ProvinceType::LAND,
        adjacent,
        has_supply_center: false,
        initial_owner: None,
        initial_core: None,
        initial_unit: None,
        coasts: None,
    }
}

#[test]
fn a_later_description_of_a_name_replaces_the_province() {
    let mut info = small_map("small.json");
    info.name_to_info.push(Arc::new(bare("PARIS", vec![name_ref("Brest")])));
    let board = Board::new(Arc::new(info), Phase::initial());
    let (p, c) = board.get_province_and_coast(String::from("paris"));
    assert!(c.is_none());
    let p = p.unwrap();
    assert_eq!(p.info.name, "PARIS");
    assert!(p.owner.is_none());
    assert!(board.can_look_up("Brest"));
    // The coast of the first Paris is no longer on the board.
    assert!(!board.can_look_up("Paris coast"));
    assert!(!board.can_describe("Paris coast"));
    assert!(board.can_describe("paris"));
}

#[test]
fn games_on_maps_with_unknown_names() {
    let mut info = small_map("small.json");
    info.name_to_info.push(Arc::new(bare("Lyon", vec![name_ref("Atlantis")])));
    assert!(!board_info_is_valid(&info.name_to_info));
    let mut m = Manager::new();
    assert_eq!(m.create_game(&3, Arc::new(info)), "idk game created");
    assert!(m.has_game(3));
    assert!(!m.can_describe_province(3, "lyon"));
    assert!(m.can_describe_province(3, "Brest"));
    assert!(m.can_describe_province(3, "Atlantis"));
    assert_eq!(m.province_info(3, String::from("Atlantis")), "Could not find province Atlantis");
    assert!(m.province_info(3, String::from("brest")).starts_with("Province: Brest\nType: LAND\n"));
}

#[test]
fn changing_a_coast_in_place() {
    let info = small_map("small.json");
    let mut paris = ProvinceInfo {
        name: info.name_to_info[0].name.clone(),
        province_type: info.name_to_info[0].province_type,
        adjacent: Vec::new(),
        has_supply_center: true,
        initial_owner: None,
        initial_core: None,
        initial_unit: None,
        coasts: Some(vec![Coast {
            name: String::from("Paris coast"),
            adjacent_seas: vec![name_ref("Channel")],
            province: name_ref("Paris"),
        }]),
    };
    let coast = paris.resolve_reference_mut(&CoastReference::Name(String::from("Paris coast")));
    coast.adjacent_seas.push(name_ref("Brest"));
    let seas = &paris.coasts.as_ref().unwrap()[0].adjacent_seas;
    assert_eq!(seas.len(), 2);
    assert!(matches!(&seas[1], ProvinceReference::Name(n) if n == "Brest"));
    assert_eq!(paris.name, "Paris");
    let by_index = paris.resolve_reference_mut(&CoastReference::Index(0));
    assert_eq!(by_index.name, "Paris coast");
}
