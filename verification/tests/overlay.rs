use canvas_diagram::overlay::{
    choose_overlay, counts_line, empty_overlay_counts, empty_overlay_counts_cached,
    loading_header, prefix_hash, shown_class_name, summary_title, symbol_band, CachedCounts,
    EmptyOverlayCounts, Overlay,
};

const BALL: &str = "model Ball\n  parameter Real g = 9.81;\n  parameter Real c = 0.8;\n  input Real u;\n  output Real y;\n  Real v;\nequation\n  der(v) = -g;\n  y = v;\n  connect(a.p, b.n);\n  // connect (x, y)\nend Ball;\n";

#[test]
fn a_source_is_summed_up_by_its_lines() {
    assert_eq!(
        empty_overlay_counts(BALL),
        EmptyOverlayCounts { params: 2, inputs: 1, outputs: 1, equations: 2, connects: 2 }
    );
    assert_eq!(
        empty_overlay_counts(""),
        EmptyOverlayCounts { params: 0, inputs: 0, outputs: 0, equations: 0, connects: 0 }
    );
}

#[test]
fn equal_signs_in_comparisons_are_no_equations() {
    assert_eq!(empty_overlay_counts("x == y").equations, 0);
    assert_eq!(empty_overlay_counts("  x = 1").equations, 1);
    assert_eq!(empty_overlay_counts("disconnect(a, b)").connects, 0);
}

#[test]
fn a_source_is_counted_once() {
    let mut cache = None;
    let first = empty_overlay_counts_cached(&mut cache, BALL);
    let kept = cache;
    assert_eq!(
        kept,
        Some(CachedCounts { len: BALL.len(), hash: prefix_hash(BALL), counts: first })
    );
    assert_eq!(empty_overlay_counts_cached(&mut cache, BALL), first);
    assert_eq!(cache, kept);
    let other = empty_overlay_counts_cached(&mut cache, "parameter Real p;");
    assert_eq!(other.params, 1);
    assert!(cache != kept);
}

#[test]
fn kept_counts_stand_for_sources_with_the_same_front() {
    let wrong = EmptyOverlayCounts { params: 9, inputs: 9, outputs: 9, equations: 9, connects: 9 };
    let mut cache =
        Some(CachedCounts { len: BALL.len(), hash: prefix_hash(BALL), counts: wrong });
    assert_eq!(empty_overlay_counts_cached(&mut cache, BALL), wrong);
}

#[test]
fn the_hash_starts_with_the_length() {
    assert_eq!(prefix_hash(""), 0);
    assert_eq!(prefix_hash("a"), 0x100_0000_01b3 + 97);
    let long: String = "x".repeat(5000);
    let mut other = long.clone();
    other.replace_range(4500..4501, "y");
    assert_eq!(prefix_hash(&long), prefix_hash(&other));
}

#[test]
fn the_loading_card_tells_the_time() {
    assert_eq!(loading_header(0), "Loading resource…");
    assert_eq!(loading_header(499), "Loading resource…");
    assert_eq!(loading_header(500), "Loading resource… 0.5s");
    assert_eq!(loading_header(1_240), "Loading resource… 1.2s");
    assert_eq!(loading_header(9_960), "Loading resource… 10.0s");
    assert_eq!(loading_header(10_499), "Loading resource… 10s");
    assert_eq!(loading_header(10_500), "Loading resource… 11s");
}

#[test]
fn long_names_lose_their_front() {
    let short = "Modelica.Blocks.Continuous.PI";
    assert_eq!(shown_class_name(short), short);
    let forty = "a".repeat(40);
    assert_eq!(shown_class_name(&forty), forty);
    let long = "Modelica.Mechanics.Rotational.Components.Inertia";
    let cut = shown_class_name(long);
    assert_eq!(cut, format!("…{}", &long[long.len() - 39..]));
}

#[test]
fn symbol_bands_name_six_and_count_the_rest() {
    let names: Vec<String> = "a b c d e f g h".split(' ').map(|s| s.to_string()).collect();
    assert_eq!(symbol_band(&names, 9), Some("a, b, c, d, e, f + 3 more".to_string()));
    assert_eq!(symbol_band(&names[..3].to_vec(), 3), Some("a, b, c".to_string()));
    assert_eq!(symbol_band(&names[..6].to_vec(), 9), Some("a, b, c, d, e, f".to_string()));
    assert_eq!(symbol_band(&vec![], 2), Some("—".to_string()));
    assert_eq!(symbol_band(&vec![], 0), None);
}

#[test]
fn the_summary_has_a_title_and_a_last_line() {
    assert_eq!(summary_title(&Some("Ball".to_string())), "Ball");
    assert_eq!(summary_title(&None), "(unnamed)");
    assert_eq!(
        counts_line(&empty_overlay_counts(BALL)),
        "2 equations · 2 connect equations"
    );
}

#[test]
fn cards_have_priorities() {
    assert_eq!(choose_overlay(true, true, true, true, true), Overlay::LoadFailed);
    assert_eq!(choose_overlay(false, true, true, true, true), Overlay::Nothing);
    assert_eq!(choose_overlay(false, true, true, true, false), Overlay::Loading);
    assert_eq!(choose_overlay(false, false, true, true, false), Overlay::Parsing);
    assert_eq!(choose_overlay(false, false, false, true, false), Overlay::Projecting);
    assert_eq!(choose_overlay(false, false, false, false, false), Overlay::Summary);
}
