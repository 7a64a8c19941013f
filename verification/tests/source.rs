use canvas_diagram::source_slice::{projection_relevant_slice, projection_relevant_source_hash};

fn slice(s: &str) -> String {
    projection_relevant_slice(s).into_iter().collect()
}

#[test]
fn comments_and_blanks_are_not_relevant() {
    assert_eq!(slice("model  M // c\n  Real x;"), "model M Real x;");
    assert_eq!(slice("a /* b\n c */ d"), "a d");
    assert_eq!(slice("  a"), "a");
}

#[test]
fn string_literals_stay_as_they_are() {
    assert_eq!(slice("x = \"a  // b\";"), "x = \"a  // b\";");
    assert_eq!(slice("\"a\\\"  b\"  c"), "\"a\\\"  b\" c");
}

#[test]
fn comment_edits_keep_the_hash() {
    let h = projection_relevant_source_hash("model M Real x; end M;");
    assert_eq!(projection_relevant_source_hash("model M // note\n Real x; /* y */ end M;"), h);
    assert_eq!(projection_relevant_source_hash("model M\n\n\tReal x;\n  end M;"), h);
    assert!(projection_relevant_source_hash("model M Real y; end M;") != h);
    assert!(projection_relevant_source_hash("model M Real x; end M; \"\"") != h);
}

#[test]
fn an_unfinished_comment_runs_to_the_end() {
    assert_eq!(slice("a /* b"), "a ");
    assert_eq!(slice("a // b"), "a ");
    assert_eq!(slice("a /"), "a /");
}
