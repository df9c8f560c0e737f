use diplomacygm::map_error::MapError;
use diplomacygm::svg::read_drawing;
use diplomacygm::svg::XmlEvent;
use diplomacygm::transform::{get_transform, transform_from_captures, transform_of, TransformText};

#[test]
fn no_transform() {
    assert!(matches!(transform_of(""), Ok(TransformText::Empty)));
}

#[test]
fn a_translation() {
    match transform_of("translate(1.5,-2)") {
        Ok(TransformText::Translate { x_c, y_c }) => {
            assert_eq!(x_c, "1.5");
            assert_eq!(y_c, "-2");
        },
        _ => panic!("expected a translation"),
    }
    match transform_of("translate( 3 , 4 )  ") {
        Ok(TransformText::Translate { x_c, y_c }) => {
            assert_eq!(x_c, " 3 ");
            assert_eq!(y_c, " 4 ");
        },
        _ => panic!("expected a translation"),
    }
}

#[test]
fn a_matrix() {
    match transform_of("matrix(1,2,3,4,5,6)") {
        Ok(TransformText::Matrix { x_dx, y_dy, x_dy, y_dx, x_c, y_c }) => {
            assert_eq!(x_dx, "1");
            assert_eq!(y_dx, "2");
            assert_eq!(x_dy, "3");
            assert_eq!(y_dy, "4");
            assert_eq!(x_c, "5");
            assert_eq!(y_c, "6");
        },
        _ => panic!("expected a matrix"),
    }
}

#[test]
fn unreadable_transforms() {
    assert!(matches!(transform_of("rotate(30)"), Err(MapError::Transform(s)) if s == "rotate(30)"));
    assert!(matches!(transform_of("translate(1)"), Err(MapError::Transform(_))));
    assert!(matches!(transform_of("matrix(1,2,3)"), Err(MapError::Transform(_))));
}

#[test]
fn transform_from_groups() {
    let groups = vec![Some(String::from("all")), Some(String::from("7")), Some(String::from("8"))];
    match transform_from_captures(false, Some(groups)) {
        Some(TransformText::Translate { x_c, y_c }) => {
            assert_eq!(x_c, "7");
            assert_eq!(y_c, "8");
        },
        _ => panic!("expected a translation"),
    }
    assert!(transform_from_captures(false, None).is_none());
    assert!(transform_from_captures(true, Some(vec![Some(String::from("x")), None])).is_none());
}

#[test]
fn transform_of_an_element() {
    let events = read_drawing("<g transform=\"translate(10,20)\"/><g/><g transform=\"skewX(3)\"/>").unwrap();
    let elements: Vec<_> = events.iter().filter_map(|e| match e {
        XmlEvent::Empty(el) => Some(el),
        _ => None,
    }).collect();
    assert!(matches!(get_transform(elements[0]), Ok(TransformText::Translate { .. })));
    assert!(matches!(get_transform(elements[1]), Ok(TransformText::Empty)));
    assert!(matches!(get_transform(elements[2]), Err(MapError::Transform(_))));
}
