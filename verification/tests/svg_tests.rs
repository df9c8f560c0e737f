use diplomacygm::map_error::MapError;
use diplomacygm::player::PlayerInfo;
use diplomacygm::svg::{
    get_attribute, get_id, get_inkspace_label, get_player, read_drawing, AttributeError, XmlElement, XmlEvent,
};
use std::sync::Arc;

fn first_element(svg: &str) -> XmlElement {
    for e in read_drawing(svg).unwrap() {
        match e {
            XmlEvent::Start(el) | XmlEvent::Empty(el) => return el,
            _ => {},
        }
    }
    panic!("no element");
}

#[test]
fn events_of_a_document() {
    let events = read_drawing("<svg><g id=\"a\"><path d=\"M 0,0\"/></g><!-- c --></svg>").unwrap();
    let kinds: Vec<u8> = events.iter().map(|e| match e {
        XmlEvent::Start(_) => 0,
        XmlEvent::End => 1,
        XmlEvent::Empty(_) => 2,
        XmlEvent::Other => 3,
    }).collect();
    assert_eq!(kinds, vec![0, 0, 2, 1, 3, 1]);
    match &events[2] {
        XmlEvent::Empty(el) => assert_eq!(el.name, "path"),
        _ => panic!(),
    }
}

#[test]
fn badly_formed_documents() {
    assert!(matches!(read_drawing("<svg></g>"), Err(MapError::Xml(_))));
}

#[test]
fn attributes_of_an_element() {
    let el = first_element("<path id=\"p1\" inkscape:label=\"Paris\" d=\"M 0,0\" title=\"a &amp; b\"/>");
    assert_eq!(get_attribute(&el, "d").unwrap(), Some(String::from("M 0,0")));
    assert_eq!(get_attribute(&el, "title").unwrap(), Some(String::from("a & b")));
    assert_eq!(get_attribute(&el, "style").unwrap(), None);
    assert_eq!(get_id(&el).unwrap(), "p1");
    assert_eq!(get_inkspace_label(&el).unwrap(), "Paris");
}

#[test]
fn missing_and_broken_attributes() {
    let el = first_element("<path d=\"x\"/>");
    assert!(matches!(get_id(&el), Err(MapError::MissingAttribute(k)) if k == "id"));
    let el = first_element("<path d=\"&bogus;\"/>");
    assert!(matches!(get_attribute(&el, "d"), Err(AttributeError::Unescape)));
}

#[test]
fn the_power_of_a_fill_colour() {
    let red = PlayerInfo::new(String::from("Red"), String::from("ff0000"), 18, 3);
    let table = vec![(String::from("ff0000"), Some(Arc::clone(&red))), (String::from("ffffff"), None)];
    let el = first_element("<path style=\"stroke:#000;fill:#ff0000\"/>");
    let p = get_player(&el, &table).unwrap();
    assert!(p.is_some());
    assert_eq!(p.unwrap().name, "Red");
    let el = first_element("<path style=\"fill:#ffffff\"/>");
    assert!(get_player(&el, &table).unwrap().is_none());
    let el = first_element("<path style=\"fill:#123456\"/>");
    assert!(get_player(&el, &table).unwrap().is_none());
    let el = first_element("<path/>");
    assert!(get_player(&el, &table).unwrap().is_none());
}
