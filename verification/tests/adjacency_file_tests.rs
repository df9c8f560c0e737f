use diplomacygm::adjacency_file::{format_adjacencies, parse_adjacencies};
use diplomacygm::map_error::MapError;

fn pair(a: &str, b: &str) -> (String, String) {
    (String::from(a), String::from(b))
}

#[test]
fn lines_split_at_the_first_comma() {
    let pairs = parse_adjacencies("Alpha,Beta\nBeta,Gamma, West\n").unwrap();
    assert_eq!(pairs, vec![pair("Alpha", "Beta"), pair("Beta", "Gamma, West")]);
}

#[test]
fn line_endings() {
    assert_eq!(parse_adjacencies("a,b\r\nc,d").unwrap(), vec![pair("a", "b"), pair("c", "d")]);
    assert_eq!(parse_adjacencies("a,b\r").unwrap(), vec![pair("a", "b\r")]);
    assert_eq!(parse_adjacencies("").unwrap(), Vec::<(String, String)>::new());
    assert_eq!(parse_adjacencies(",\n").unwrap(), vec![pair("", "")]);
}

#[test]
fn a_line_without_a_comma() {
    assert!(matches!(parse_adjacencies("a,b\n\nc,d\n"), Err(MapError::AdjacencyLine(l)) if l.is_empty()));
    assert!(matches!(parse_adjacencies("a,b\nnocomma\nzzz\n"), Err(MapError::AdjacencyLine(l)) if l == "nocomma"));
}

#[test]
fn writing_an_adjacency_list() {
    let pairs = vec![pair("Alpha", "Beta"), pair("Ocean", "Isle")];
    let text = format_adjacencies(&pairs);
    assert_eq!(text, "Alpha,Beta\nOcean,Isle\n");
    assert_eq!(parse_adjacencies(&text).unwrap(), pairs);
    assert_eq!(format_adjacencies(&Vec::new()), "");
}
