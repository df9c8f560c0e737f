use diplomacygm::map_error::PathError;
use diplomacygm::path::{parse_path, PathOffset, PathStep};

fn both(step: &PathStep) -> (char, String, String) {
    match step {
        PathStep::Point(c, PathOffset::Both(x, y)) => (*c, x.clone(), y.clone()),
        _ => panic!("not a two-coordinate step"),
    }
}

#[test]
fn a_closed_triangle() {
    let steps = parse_path("M 0,0 L 10,0 l -5,8.5 z").unwrap();
    assert_eq!(steps.len(), 4);
    assert_eq!(both(&steps[0]), ('M', String::from("0"), String::from("0")));
    assert_eq!(both(&steps[1]), ('L', String::from("10"), String::from("0")));
    assert_eq!(both(&steps[2]), ('l', String::from("-5"), String::from("8.5")));
    assert!(matches!(steps[3], PathStep::Close));
}

#[test]
fn command_letters_glued_to_their_argument() {
    let steps = parse_path("m20,70 l5,5").unwrap();
    assert_eq!(both(&steps[0]), ('m', String::from("20"), String::from("70")));
    assert_eq!(both(&steps[1]), ('l', String::from("5"), String::from("5")));
}

#[test]
fn repeated_arguments_keep_the_command() {
    let steps = parse_path("M 1,1 2,2 3,3").unwrap();
    assert_eq!(steps.len(), 3);
    assert_eq!(both(&steps[2]), ('M', String::from("3"), String::from("3")));
}

#[test]
fn horizontal_and_vertical_moves() {
    let steps = parse_path("M 0,0 h 4 V 7").unwrap();
    match &steps[1] {
        PathStep::Point('h', PathOffset::Horizontal(x)) => assert_eq!(x, "4"),
        _ => panic!("expected a horizontal step"),
    }
    match &steps[2] {
        PathStep::Point('V', PathOffset::Vertical(y)) => assert_eq!(y, "7"),
        _ => panic!("expected a vertical step"),
    }
}

#[test]
fn only_the_last_argument_counts() {
    let steps = parse_path("M 0,0 c 1,1 2,2 3,4").unwrap();
    assert_eq!(steps.len(), 2);
    assert_eq!(both(&steps[1]), ('c', String::from("3"), String::from("4")));
}

#[test]
fn two_polygons() {
    let steps = parse_path("M 0,0 L 1,0 z M 5,5 L 6,5 Z").unwrap();
    assert_eq!(steps.len(), 6);
    assert!(matches!(steps[2], PathStep::Close));
    assert!(matches!(steps[5], PathStep::Close));
}

#[test]
fn path_errors() {
    assert!(matches!(parse_path("M  0,0"), Err(PathError::EmptyToken)));
    assert!(matches!(parse_path("M 0,0 "), Err(PathError::EmptyToken)));
    assert!(matches!(parse_path("z"), Err(PathError::CloseWithoutStart)));
    assert!(matches!(parse_path("M 0,0 X 1,1"), Err(PathError::UnknownCommand('X'))));
    assert!(matches!(parse_path("M 0,0 z 1,1"), Err(PathError::ArgumentsAfterClose)));
    assert!(matches!(parse_path("M"), Err(PathError::MissingArguments)));
    assert!(matches!(parse_path("M 0,0 c 1,1"), Err(PathError::MissingArguments)));
    assert!(matches!(parse_path("M 00"), Err(PathError::MissingComma)));
    assert!(matches!(parse_path("0,0"), Err(PathError::NoCommand)));
}
