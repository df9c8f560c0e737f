use diplomacygm::board::{board_info_is_valid, Board};
use diplomacygm::json::Json;
use diplomacygm::map_error::MapError;
use diplomacygm::parser::{ParseStop, ParsedMap, Parser};
use diplomacygm::phase::Phase;
use diplomacygm::province::{CoastReference, ProvinceInfo, ProvinceReference, ProvinceType};
use diplomacygm::svg::read_drawing;
use diplomacygm::unit::UnitType;
use std::sync::Arc;

fn s(x: &str) -> Json {
    Json::Str(String::from(x))
}

fn obj(members: Vec<(&str, Json)>) -> Json {
    Json::Object(members.into_iter().map(|(k, v)| (String::from(k), v)).collect())
}

fn svg_config(center_labels: bool) -> Json {
    obj(vec![
        ("land_layer", s("land")),
        ("island_borders", s("island")),
        ("island_fill_layer", s("islandfill")),
        ("sea_borders", s("sea")),
        ("province_names", s("names")),
        ("supply_center_icons", s("centers")),
        ("starting_units", s("units")),
        ("army", s("army")),
        ("retreat_army", s("rarmy")),
        ("fleet", s("fleet")),
        ("retreat_fleet", s("rfleet")),
        ("neutral", s("ffffff")),
        ("neutral_sc", s("eeeeee")),
        ("province_labels", Json::Bool(true)),
        ("center_labels", Json::Bool(center_labels)),
        ("unit_labels", Json::Bool(true)),
    ])
}

fn config(overrides: Option<Json>, center_labels: bool) -> Json {
    let mut members = vec![
        ("name", s("Test Map")),
        ("file", s("test.svg")),
        ("svg config", svg_config(center_labels)),
        (
            "players",
            obj(vec![
                ("Red", obj(vec![("color", s("ff0000")), ("vscc", Json::Int(10)), ("iscc", Json::Int(2))])),
                ("Blue", obj(vec![("color", s("0000ff")), ("vscc", Json::Int(11)), ("iscc", Json::Int(1))])),
            ]),
        ),
    ];
    if let Some(o) = overrides {
        members.push(("overrides", o));
    }
    obj(members)
}

const BORDERS: &str = "<svg>\
<g id=\"land\">\
<path inkscape:label=\"Alpha\" d=\"M 0,0 L 10,0 L 10,10 z\" style=\"fill:#ff0000\"/>\
<path inkscape:label=\"Beta\" d=\"M 10,0 L 20,0 L 20,10 z\" style=\"fill:#0000ff\"/>\
<path inkscape:label=\"Gamma\" d=\"M 0,10 l 5,5 z\" style=\"fill:#ffffff\"/>\
</g>\
<g id=\"island\"><path inkscape:label=\"Isle\" d=\"M 30,30 h 2 v 2 z\"/></g>\
<g id=\"sea\"><path inkscape:label=\"Ocean\" d=\"M 0,20 L 20,20 z\"/></g>\
<g id=\"decoration\"><rect/></g>";

fn adjacencies() -> Vec<(String, String)> {
    vec![
        (String::from("Alpha"), String::from("Beta")),
        (String::from("Alpha"), String::from("Ocean")),
        (String::from("Beta"), String::from("Ocean")),
        (String::from("Gamma"), String::from("Alpha")),
    ]
}

fn parse_map(svg: &str, overrides: Option<Json>) -> Result<ParsedMap, MapError> {
    let events = read_drawing(svg)?;
    let mut parser = Parser::new(String::from("test.json"), config(overrides, true))?;
    match parser.parse_events(&events)? {
        ParseStop::NeedAdjacencies => {
            parser.process_provinces(&adjacencies())?;
            assert!(matches!(parser.parse_events(&events)?, ParseStop::Finished));
        },
        ParseStop::Finished => {},
    }
    Ok(parser.into_parsed_map())
}

fn province<'a>(map: &'a ParsedMap, name: &str) -> &'a ProvinceInfo {
    map.info.name_to_info.iter().find(|p| p.name == name).map(|p| p.as_ref()).unwrap()
}

fn adjacent_names(p: &ProvinceInfo) -> Vec<String> {
    p.adjacent.iter().map(|r| match r {
        ProvinceReference::Name(n) => n.clone(),
        ProvinceReference::Index(i) => i.to_string(),
    }).collect()
}

fn full_map() -> String {
    format!(
        "{}\
<g id=\"centers\"><g inkscape:label=\"Alpha\"><path d=\"M 0,0\"/></g><g inkscape:label=\"Gamma\"></g></g>\
<g id=\"units\"><g inkscape:label=\"Alpha\"><path sodipodi:sides=\"6\"/></g><g inkscape:label=\"Beta\"><path sodipodi:sides=\"3\"/></g></g>\
<g id=\"army\"><g inkscape:label=\"Alpha\" transform=\"translate(1,2)\"><path sodipodi:cx=\"3\" sodipodi:cy=\"4\"/></g></g>\
<g id=\"rfleet\"><g inkscape:label=\"Beta\"><path sodipodi:cx=\"5\" sodipodi:cy=\"6\"/></g></g>\
</svg>",
        BORDERS
    )
}

#[test]
fn configuration_is_read() {
    let parser = Parser::new(String::from("test.json"), config(None, true));
    assert!(parser.is_ok());
}

#[test]
fn configuration_errors_name_the_missing_entry() {
    let bad = obj(vec![("file", s("x.svg"))]);
    assert!(matches!(Parser::new(String::from("x.json"), bad), Err(MapError::Config(k)) if k == "name"));
    let bad = obj(vec![("name", s("x")), ("svg config", svg_config(true)), ("file", s("x.svg"))]);
    assert!(matches!(Parser::new(String::from("x.json"), bad), Err(MapError::Config(k)) if k == "players"));
    let bad = obj(vec![
        ("name", s("x")),
        ("svg config", obj(vec![("land_layer", s("land"))])),
        ("file", s("x.svg")),
    ]);
    assert!(matches!(Parser::new(String::from("x.json"), bad), Err(MapError::Config(k)) if k == "island_borders"));
    let bad = obj(vec![
        ("name", s("x")),
        ("svg config", svg_config(true)),
        ("file", s("x.svg")),
        ("players", obj(vec![("Red", obj(vec![("color", s("ff0000")), ("vscc", Json::Int(1))]))])),
    ]);
    assert!(matches!(Parser::new(String::from("x.json"), bad), Err(MapError::Config(k)) if k == "iscc"));
}

#[test]
fn a_whole_map() {
    let map = parse_map(&full_map(), None).unwrap();
    assert_eq!(map.info.name, "Test Map");
    assert_eq!(map.info.datafile, "test.json");
    assert_eq!(map.info.players.len(), 2);
    assert_eq!(map.info.name_to_info.len(), 5);
    let names: Vec<&str> = map.info.name_to_info.iter().map(|p| p.name.as_str()).collect();
    assert_eq!(names, vec!["Alpha", "Beta", "Gamma", "Isle", "Ocean"]);

    let alpha = province(&map, "Alpha");
    assert!(alpha.province_type == ProvinceType::LAND);
    assert_eq!(alpha.initial_owner.as_ref().unwrap().name, "Red");
    assert!(alpha.has_supply_center);
    assert_eq!(alpha.initial_core.as_ref().unwrap().name, "Red");
    assert_eq!(adjacent_names(alpha), vec!["Beta", "Ocean", "Gamma"]);
    let coasts = alpha.coasts.as_ref().unwrap();
    assert_eq!(coasts.len(), 1);
    assert_eq!(coasts[0].name, "Alpha coast");
    let unit = alpha.initial_unit.as_ref().unwrap();
    assert!(unit.unit_type == UnitType::ARMY);
    assert_eq!(unit.owner.name, "Red");
    assert!(matches!(&unit.coast, Some(CoastReference::Name(c)) if c == "Alpha coast"));

    let beta = province(&map, "Beta");
    assert_eq!(beta.initial_owner.as_ref().unwrap().name, "Blue");
    assert!(!beta.has_supply_center);
    assert!(beta.initial_unit.as_ref().unwrap().unit_type == UnitType::FLEET);

    let gamma = province(&map, "Gamma");
    assert!(gamma.initial_owner.is_none());
    assert!(gamma.has_supply_center);
    assert!(gamma.initial_core.is_none());
    assert_eq!(gamma.coasts.as_ref().unwrap().len(), 0);

    let ocean = province(&map, "Ocean");
    assert!(ocean.province_type == ProvinceType::SEA);
    assert_eq!(adjacent_names(ocean), vec!["Alpha", "Beta"]);
    assert_eq!(ocean.coasts.as_ref().unwrap().len(), 0);
    assert!(province(&map, "Isle").province_type == ProvinceType::ISLAND);

    assert_eq!(map.shapes.len(), 5);
    assert_eq!(map.shapes[0].name, "Alpha");
    assert_eq!(map.shapes[0].path.len(), 4);

    assert_eq!(map.placements.len(), 2);
    assert_eq!(map.placements[0].province, "Alpha");
    assert!(!map.placements[0].retreat);
    assert!(map.placements[0].coast.is_none());
    assert_eq!(map.placements[0].marker.as_ref().unwrap().cx, "3");
    assert_eq!(map.placements[1].province, "Beta");
    assert!(!map.placements[1].retreat);
    assert_eq!(map.placements[1].coast.as_deref(), Some("Beta coast"));
}

#[test]
fn every_reference_of_a_parsed_map_names_a_province() {
    let map = parse_map(&full_map(), None).unwrap();
    assert!(board_info_is_valid(&map.info.name_to_info));
    for p in &map.info.name_to_info {
        for r in &p.adjacent {
            match r {
                ProvinceReference::Name(n) => assert!(map.info.name_to_info.iter().any(|q| &q.name == n)),
                ProvinceReference::Index(_) => panic!("references are by name"),
            }
        }
    }
    let board = Board::new(Arc::new(map.info), Phase::initial());
    let (p, c) = board.get_province_and_coast(String::from("ALPHA COAST"));
    assert_eq!(p.unwrap().info.name, "Alpha");
    assert_eq!(c.unwrap().name, "Alpha coast");
}

#[test]
fn linking_makes_provinces_adjacent_both_ways() {
    let map = parse_map(&format!("{}</svg>", BORDERS), None).unwrap();
    assert!(adjacent_names(province(&map, "Beta")).contains(&String::from("Alpha")));
    assert!(adjacent_names(province(&map, "Alpha")).contains(&String::from("Beta")));
}

#[test]
fn overrides_change_provinces() {
    let overrides = obj(vec![
        (
            "high provinces",
            obj(vec![("Deep", obj(vec![
                ("num", Json::Int(2)),
                ("type", s("SEA")),
                ("adjacencies", Json::Array(vec![s("Ocean")])),
            ]))]),
        ),
        (
            "provinces",
            obj(vec![
                (
                    "Beta",
                    obj(vec![
                        ("adjacencies", Json::Array(vec![s("Isle")])),
                        ("remove_adjacencies", Json::Array(vec![s("Alpha")])),
                        ("coasts", obj(vec![("nc", Json::Array(vec![s("Ocean")])), ("sc", Json::Array(vec![]))])),
                    ]),
                ),
            ]),
        ),
    ]);
    let map = parse_map(&format!("{}</svg>", BORDERS), Some(overrides)).unwrap();
    assert_eq!(map.info.name_to_info.len(), 7);
    let deep1 = province(&map, "Deep1");
    assert!(deep1.province_type == ProvinceType::SEA);
    assert_eq!(adjacent_names(deep1), vec!["Ocean", "Deep2"]);
    assert_eq!(adjacent_names(province(&map, "Deep2")), vec!["Ocean", "Deep1"]);
    assert_eq!(adjacent_names(province(&map, "Ocean")), vec!["Alpha", "Beta", "Deep1", "Deep2"]);
    let beta = province(&map, "Beta");
    assert_eq!(adjacent_names(beta), vec!["Ocean", "Isle"]);
    let coasts = beta.coasts.as_ref().unwrap();
    assert_eq!(coasts.len(), 2);
    assert_eq!(coasts[0].name, "Beta nc");
    assert_eq!(coasts[1].name, "Beta sc");
    assert!(board_info_is_valid(&map.info.name_to_info));
}

#[test]
fn override_errors() {
    let unknown = obj(vec![("provinces", obj(vec![("Nowhere", obj(vec![]))]))]);
    assert!(matches!(parse_map(&format!("{}</svg>", BORDERS), Some(unknown)), Err(MapError::UnknownProvince(n)) if n == "Nowhere"));
    let own = obj(vec![("provinces", obj(vec![("Beta", obj(vec![("adjacencies", Json::Array(vec![s("Beta")]))]))]))]);
    assert!(matches!(parse_map(&format!("{}</svg>", BORDERS), Some(own)), Err(MapError::SelfAdjacency(n)) if n == "Beta"));
    let kind = obj(vec![("high provinces", obj(vec![("H", obj(vec![("num", Json::Int(1)), ("type", s("AIR"))]))]))]);
    assert!(matches!(parse_map(&format!("{}</svg>", BORDERS), Some(kind)), Err(MapError::HighProvinceType(t)) if t == "AIR"));
    let taken = obj(vec![("high provinces", obj(vec![("Alph", obj(vec![("num", Json::Int(1)), ("type", s("LAND")), ("adjacencies", Json::Array(vec![]))]))]))]);
    let doubled = format!("{}</svg>", BORDERS.replace("\"Isle\"", "\"Alph1\""));
    assert!(matches!(parse_map(&doubled, Some(taken)), Err(MapError::RepeatedProvince(n)) if n == "Alph1"));
}

#[test]
fn reading_errors() {
    let twice = BORDERS.replace("inkscape:label=\"Gamma\"", "inkscape:label=\"Alpha\"");
    assert!(matches!(parse_map(&format!("{}</svg>", twice), None), Err(MapError::RepeatedProvince(n)) if n == "Alpha"));
    let not_path = BORDERS.replace("<path inkscape:label=\"Isle\"", "<rect inkscape:label=\"Isle\"");
    assert!(matches!(parse_map(&format!("{}</svg>", not_path), None), Err(MapError::NotPath)));
    let bad_path = BORDERS.replace("M 0,20 L 20,20 z", "M 0,20 L 20,20 z 1,1");
    assert!(matches!(
        parse_map(&format!("{}</svg>", bad_path), None),
        Err(MapError::Path(diplomacygm::map_error::PathError::ArgumentsAfterClose))
    ));
    let unknown_center = format!("{}<g id=\"centers\"><g inkscape:label=\"Nowhere\"></g></g></svg>", BORDERS);
    assert!(matches!(parse_map(&unknown_center, None), Err(MapError::UnknownProvince(n)) if n == "Nowhere"));
    let two_centers = format!("{}<g id=\"centers\"><g inkscape:label=\"Beta\"></g><g inkscape:label=\"Beta\"></g></g></svg>", BORDERS);
    assert!(matches!(parse_map(&two_centers, None), Err(MapError::DuplicateCenter(n)) if n == "Beta"));
    let sides = format!("{}<g id=\"units\"><g inkscape:label=\"Alpha\"><path sodipodi:sides=\"5\"/></g></g></svg>", BORDERS);
    assert!(matches!(parse_map(&sides, None), Err(MapError::UnitSides(n)) if n == "5"));
    let no_owner = format!("{}<g id=\"units\"><g inkscape:label=\"Ocean\"><path sodipodi:sides=\"3\"/></g></g></svg>", BORDERS);
    assert!(matches!(parse_map(&no_owner, None), Err(MapError::NoOwner(n)) if n == "Ocean"));
    let outside = format!("{}<g id=\"army\"><path/></g></svg>", BORDERS);
    assert!(matches!(parse_map(&outside, None), Err(MapError::PhantomOutside)));
    let again = format!("{}<g id=\"land\"><path inkscape:label=\"Late\" d=\"M 1,1\"/></g></svg>", BORDERS);
    assert!(matches!(parse_map(&again, None), Err(MapError::LayerTwice)));
    let no_id = format!("{}<g/></svg>", "<svg><g></g>");
    assert!(matches!(parse_map(&no_id, None), Err(MapError::MissingAttribute(k)) if k == "id"));
}

#[test]
fn unlabelled_centre_layer() {
    let events = read_drawing(&format!("{}<g id=\"centers\"></g></svg>", BORDERS)).unwrap();
    let mut parser = Parser::new(String::from("test.json"), config(None, false)).unwrap();
    assert!(matches!(parser.parse_events(&events), Ok(ParseStop::NeedAdjacencies)));
    parser.process_provinces(&adjacencies()).unwrap();
    assert!(matches!(parser.parse_events(&events), Err(MapError::UnlabeledLayer)));
}

#[test]
fn adjacency_errors() {
    let events = read_drawing(&format!("{}</svg>", BORDERS)).unwrap();
    let mut parser = Parser::new(String::from("test.json"), config(None, true)).unwrap();
    assert!(matches!(parser.parse_events(&events), Ok(ParseStop::NeedAdjacencies)));
    let pairs = vec![(String::from("Alpha"), String::from("Alpha"))];
    assert!(matches!(parser.process_provinces(&pairs), Err(MapError::SelfAdjacency(n)) if n == "Alpha"));
    let mut parser = Parser::new(String::from("test.json"), config(None, true)).unwrap();
    assert!(matches!(parser.parse_events(&events), Ok(ParseStop::NeedAdjacencies)));
    let pairs = vec![(String::from("Alpha"), String::from("Atlantis"))];
    assert!(matches!(parser.process_provinces(&pairs), Err(MapError::UnknownProvince(n)) if n == "Atlantis"));
}

#[test]
fn units_on_named_coasts() {
    let overrides = obj(vec![(
        "provinces",
        obj(vec![("Alpha", obj(vec![("coasts", obj(vec![("nc", Json::Array(vec![s("Ocean")])), ("sc", Json::Array(vec![s("Ocean")]))]))]))]),
    )]);
    let svg = format!(
        "{}<g id=\"units\"><g inkscape:label=\"Alpha (sc)\"><path sodipodi:sides=\"3\"/></g></g>\
<g id=\"fleet\"><g inkscape:label=\"Alpha (nc)\"><path sodipodi:cx=\"1\" sodipodi:cy=\"1\"/></g></g></svg>",
        BORDERS
    );
    let map = parse_map(&svg, Some(overrides)).unwrap();
    let alpha = province(&map, "Alpha");
    let unit = alpha.initial_unit.as_ref().unwrap();
    assert!(matches!(&unit.coast, Some(CoastReference::Name(c)) if c == "Alpha sc"));
    assert_eq!(map.placements[0].coast.as_deref(), Some("Alpha nc"));
    assert!(map.placements[0].retreat);
}

#[test]
fn province_and_coast_of_a_label() {
    let overrides = obj(vec![(
        "provinces",
        obj(vec![("Alpha", obj(vec![("coasts", obj(vec![("ec", Json::Array(vec![s("Ocean")]))]))]))]),
    )]);
    let events = read_drawing(&format!("{}</svg>", BORDERS)).unwrap();
    let mut parser = Parser::new(String::from("test.json"), config(Some(overrides), true)).unwrap();
    assert!(matches!(parser.parse_events(&events), Ok(ParseStop::NeedAdjacencies)));
    parser.process_provinces(&adjacencies()).unwrap();
    let (i, c) = parser.get_province_and_coast("Alpha (ec)").unwrap();
    assert_eq!(i, 0);
    assert!(matches!(c, Some(CoastReference::Name(n)) if n == "Alpha ec"));
    let (i, c) = parser.get_province_and_coast("Alpha (wc)").unwrap();
    assert_eq!(i, 0);
    assert!(c.is_none());
    let (i, c) = parser.get_province_and_coast("Ocean").unwrap();
    assert_eq!(i, 4);
    assert!(c.is_none());
    assert!(matches!(parser.get_province_and_coast("Nowhere (nc)"), Err(MapError::UnknownProvince(n)) if n == "Nowhere"));
}

const CONFIG_TEXT: &str = r#"{
  "name": "Test Map",
  "file": "test.svg",
  "svg config": {
    "land_layer": "land", "island_borders": "island", "island_fill_layer": "islandfill",
    "sea_borders": "sea", "province_names": "names", "supply_center_icons": "centers",
    "starting_units": "units", "army": "army", "retreat_army": "rarmy", "fleet": "fleet",
    "retreat_fleet": "rfleet", "neutral": "ffffff", "neutral_sc": "eeeeee",
    "province_labels": true, "center_labels": true, "unit_labels": true,
    "border_margin_hint": 2.5
  },
  "players": {
    "Red": {"color": "ff0000", "vscc": 10, "iscc": 2},
    "Blue": {"color": "0000ff", "vscc": 11, "iscc": 1}
  }
}"#;

#[test]
fn configuration_read_from_text() {
    let parser = Parser::from_config_text(String::from("test.json"), CONFIG_TEXT).unwrap();
    assert_eq!(parser.svg_file_name(), "test.svg");
    let map = parser.into_parsed_map();
    assert_eq!(map.info.name, "Test Map");
    assert_eq!(map.info.datafile, "test.json");
    // serde_json keeps object members in key order.
    let names: Vec<&str> = map.info.players.iter().map(|p| p.name.as_str()).collect();
    assert_eq!(names, vec!["Blue", "Red"]);
    assert_eq!(map.info.players[1].vscc, 10);
    assert_eq!(map.info.players[1].color, "ff0000");
}

#[test]
fn configuration_text_errors() {
    assert!(matches!(Parser::from_config_text(String::from("x.json"), "{\"name\": "), Err(MapError::NotJson)));
    assert!(matches!(Parser::from_config_text(String::from("x.json"), "not json"), Err(MapError::NotJson)));
    let fractional = CONFIG_TEXT.replace("\"vscc\": 10,", "\"vscc\": 10.5,");
    assert!(matches!(Parser::from_config_text(String::from("x.json"), &fractional), Err(MapError::Config(k)) if k == "vscc"));
    assert!(matches!(Parser::from_config_text(String::from("x.json"), "{\"file\": \"x.svg\"}"), Err(MapError::Config(k)) if k == "name"));
}
