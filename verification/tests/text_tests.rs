use diplomacygm::text::{
    attachment_needs_zip, get_fill_color, i64_to_text, join_strings, sanitize_apostrophes, sort_strings,
    split_response, str_lt, to_ascii_lowercase, u64_to_text, MESSAGE_LIMIT,
};

#[test]
fn apostrophes_become_plain() {
    assert_eq!(sanitize_apostrophes(String::from("it’s ‘x’ `y´ a′b‛c")), "it's 'x' 'y' a'b'c");
    assert_eq!(sanitize_apostrophes(String::from("plain")), "plain");
}

#[test]
fn fill_colour_of_a_style() {
    assert_eq!(get_fill_color("stroke:#000000;fill:#ff0000;opacity:1"), Some("ff0000"));
    assert_eq!(get_fill_color("fill:#abc"), Some("abc"));
    assert_eq!(get_fill_color("stroke:#000000"), None);
    assert_eq!(get_fill_color(""), None);
    assert_eq!(get_fill_color("fill:none;fill:#123456"), Some("123456"));
}

#[test]
fn lower_case() {
    assert_eq!(to_ascii_lowercase("Saint Petersburg (NC)"), "saint petersburg (nc)");
    assert_eq!(to_ascii_lowercase("Ünïcode"), "Ünïcode".to_ascii_lowercase());
}

#[test]
fn numbers_as_text() {
    assert_eq!(u64_to_text(0), "0");
    assert_eq!(u64_to_text(1234567890), "1234567890");
    assert_eq!(i64_to_text(-42), "-42");
    assert_eq!(i64_to_text(i64::MIN), i64::MIN.to_string());
}

#[test]
fn short_responses_are_one_message() {
    let pieces = split_response("hello");
    assert_eq!(pieces, vec![String::from("hello")]);
}

#[test]
fn long_responses_split_at_newlines() {
    let line = "x".repeat(1500);
    let text = format!("{}\n{}\n{}", line, line, line);
    let pieces = split_response(&text);
    assert_eq!(pieces.len(), 3);
    assert_eq!(pieces[0], line);
    assert_eq!(pieces[1], format!("\n{}", line));
    assert_eq!(pieces[2], format!("\n{}", line));
    assert_eq!(pieces.concat(), text);
}

#[test]
fn long_responses_without_newlines_split_at_the_limit() {
    let text = "y".repeat(4500);
    let pieces = split_response(&text);
    assert_eq!(pieces.len(), 3);
    assert_eq!(pieces[0].len(), MESSAGE_LIMIT);
    assert_eq!(pieces[1].len(), MESSAGE_LIMIT);
    assert_eq!(pieces[2].len(), 500);
    assert_eq!(pieces.concat(), text);
}

#[test]
fn every_piece_fits() {
    let mut text = String::new();
    for i in 0..700 {
        text.push_str(&format!("line {}\n", i));
    }
    let pieces = split_response(&text);
    for (k, p) in pieces.iter().enumerate() {
        if k + 1 < pieces.len() {
            assert!(p.len() <= MESSAGE_LIMIT && !p.is_empty());
        }
    }
    assert_eq!(pieces.concat(), text);
}

#[test]
fn attachments_over_ten_megabytes_are_zipped() {
    assert!(!attachment_needs_zip(10 * 1024 * 1024));
    assert!(attachment_needs_zip(10 * 1024 * 1024 + 1));
}

#[test]
fn sorting_names() {
    let v = vec![String::from("Paris"), String::from("Berlin"), String::from("London"), String::from("Berlin")];
    let sorted = sort_strings(v);
    assert_eq!(sorted, vec![String::from("Berlin"), String::from("Berlin"), String::from("London"), String::from("Paris")]);
    assert!(str_lt("Ab", "Abc"));
    assert!(!str_lt("b", "a"));
    assert!(str_lt("B", "a"));
}

#[test]
fn joining_names() {
    let v = vec![String::from("a"), String::from("b"), String::from("c")];
    assert_eq!(join_strings(&v, "\n- "), "a\n- b\n- c");
    assert_eq!(join_strings(&Vec::new(), ", "), "");
}

#[test]
fn responses_that_can_be_split() {
    assert!(diplomacygm::text::can_split_response("short"));
    assert!(diplomacygm::text::can_split_response(&"z".repeat(5000)));
    let mut blocked = String::from("\n");
    blocked.push_str(&"w".repeat(2500));
    assert!(!diplomacygm::text::can_split_response(&blocked));
    let mut wide = "a".repeat(1999);
    wide.push('é');
    wide.push_str(&"b".repeat(100));
    assert!(!diplomacygm::text::can_split_response(&wide));
}
