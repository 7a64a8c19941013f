use canvas_diagram::text::{
    contains_char, decimal_text, ends_with, join_text, leaf_of, name_order, parse_number,
    position_of, split_text, starts_with, strip_prefix, text_after_first, text_before_first,
    text_before_last, text_le, trim_char,
};

fn strings(v: &[&str]) -> Vec<String> {
    v.iter().map(|s| s.to_string()).collect()
}

#[test]
fn paths_are_split_at_their_dots() {
    assert_eq!(split_text("Modelica.Blocks.Gain", '.'), strings(&["Modelica", "Blocks", "Gain"]));
    assert_eq!(split_text("", '.'), strings(&[""]));
    assert_eq!(split_text("a..b.", '.'), strings(&["a", "", "b", ""]));
    assert_eq!(leaf_of("Modelica.Blocks.Gain"), "Gain");
    assert_eq!(leaf_of("Gain"), "Gain");
    assert_eq!(text_before_last("a.b.c", '.'), Some("a.b".to_string()));
    assert_eq!(text_before_last("abc", '.'), None);
}

#[test]
fn joining_undoes_splitting() {
    let parts = split_text("a.b.c", '.');
    assert_eq!(join_text(&parts, 0, "."), "a.b.c");
    assert_eq!(join_text(&parts, 1, "."), "b.c");
    assert_eq!(join_text(&parts, 3, "."), "");
}

#[test]
fn numbers_survive_being_written() {
    for n in [0u64, 7, 10, 4096, u64::MAX] {
        assert_eq!(parse_number(&decimal_text(n)), Some(n));
        assert_eq!(decimal_text(n), n.to_string());
    }
}

#[test]
fn what_is_no_number_is_not_parsed() {
    assert_eq!(parse_number(""), None);
    assert_eq!(parse_number("+"), None);
    assert_eq!(parse_number("-1"), None);
    assert_eq!(parse_number("1x"), None);
    assert_eq!(parse_number("18446744073709551616"), None);
    assert_eq!(parse_number("+12"), Some(12));
    assert_eq!(parse_number("007"), Some(7));
}

#[test]
fn names_are_ordered_by_character_and_then_by_place() {
    assert_eq!(name_order(&strings(&["b", "a", "b", "B", ""])), vec![4, 3, 1, 0, 2]);
    assert!(text_le("R1", "R10"));
    assert!(text_le("R10", "R2"));
    assert!(!text_le("a", "Z"));
}

#[test]
fn prefixes_and_ends() {
    assert!(starts_with("plot:3:x", "plot:"));
    assert!(!starts_with("plo", "plot:"));
    assert!(ends_with("RealInput", "Input"));
    assert!(!ends_with("put", "Input"));
    assert_eq!(strip_prefix("text:4", "text:"), Some("4".to_string()));
    assert_eq!(strip_prefix("tex", "text:"), None);
    assert_eq!(text_after_first("3:a:b", ':'), Some("a:b".to_string()));
    assert_eq!(text_after_first("3", ':'), None);
    assert_eq!(text_before_first("x[3]", '['), "x");
    assert_eq!(trim_char("\"\"a\"b\"", '"'), "a\"b");
    assert_eq!(trim_char("\"\"", '"'), "");
    assert!(contains_char("a.b", '.'));
    assert_eq!(position_of(&strings(&["x", "y", "y"]), "y"), Some(1));
    assert_eq!(position_of(&strings(&["x"]), "y"), None);
}
