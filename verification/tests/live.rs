use canvas_diagram::fixed::Fixed;
use canvas_diagram::live::{
    apply_input_writes, bounds_place, flow_time, latest_value, nearest_time, node_values,
    seed_state_from_latest_experiment, Experiment, RunResult, Sample, Series,
};

fn s(name: &str, value: f64) -> Sample {
    Sample { name: name.to_string(), bits: value.to_bits() }
}

fn value(samples: &Vec<Sample>, name: &str) -> Option<f64> {
    latest_value(samples, name).map(f64::from_bits)
}

#[test]
fn live_values_lie_above_finished_runs() {
    let r = node_values(
        &vec![s("R.v", 1.0), s("R.i", 2.0)],
        &vec![s("R.R", 100.0), s("R.v", 3.0)],
        &vec![s("u", 5.0)],
        &vec![s("R.v", 4.0), s("u", 6.0)],
    );
    assert_eq!(value(&r, "R.v"), Some(4.0));
    assert_eq!(value(&r, "R.i"), Some(2.0));
    assert_eq!(value(&r, "R.R"), Some(100.0));
    assert_eq!(value(&r, "u"), Some(6.0));
    assert_eq!(value(&r, "x"), None);
    assert_eq!(r.len(), 4);
}

fn run(id: u64, times: &[i32], series: Vec<(&str, Vec<Option<f64>>)>) -> Experiment {
    Experiment {
        id,
        result: Some(RunResult {
            times: times.iter().map(|t| Fixed::whole(*t)).collect(),
            series: series
                .into_iter()
                .map(|(name, v)| Series {
                    name: name.to_string(),
                    values: v.into_iter().map(|x| x.map(f64::to_bits)).collect(),
                })
                .collect(),
        }),
    }
}

#[test]
fn the_newest_visible_run_is_shown_at_its_end() {
    let runs = vec![
        run(1, &[0, 1], vec![("x", vec![Some(1.0), Some(2.0)])]),
        run(2, &[0, 1], vec![("x", vec![Some(3.0), Some(4.0)]), ("y", vec![Some(5.0), None])]),
        Experiment { id: 3, result: None },
    ];
    let all = seed_state_from_latest_experiment(&runs, &None, None);
    assert_eq!(all, vec![s("x", 4.0)]);
    let first = seed_state_from_latest_experiment(&runs, &Some(vec![1]), None);
    assert_eq!(first, vec![s("x", 2.0)]);
    assert!(seed_state_from_latest_experiment(&runs, &Some(vec![3]), None).is_empty());
}

#[test]
fn a_picked_time_shows_the_nearest_sample() {
    let runs = vec![run(
        1,
        &[0, 10, 20],
        vec![("x", vec![Some(1.0), Some(2.0), Some(3.0)]), ("short", vec![Some(7.0)])],
    )];
    let r = seed_state_from_latest_experiment(&runs, &None, Some(Fixed::whole(11)));
    assert_eq!(r, vec![s("x", 2.0)]);
    let r = seed_state_from_latest_experiment(&runs, &None, Some(Fixed::whole(-9)));
    assert_eq!(r, vec![s("x", 1.0), s("short", 7.0)]);
    let times = vec![Fixed::whole(0), Fixed::whole(2), Fixed::whole(2)];
    assert_eq!(nearest_time(&times, Fixed::whole(1)), 0);
    assert_eq!(nearest_time(&times, Fixed::whole(9)), 1);
}

#[test]
fn a_run_without_times_shows_nothing() {
    let runs = vec![run(1, &[], vec![("x", vec![])])];
    assert!(seed_state_from_latest_experiment(&runs, &None, None).is_empty());
}

#[test]
fn bounds_are_found_by_full_name_and_then_by_its_end() {
    let names: Vec<String> = vec!["throttle".to_string(), "engine.throttle".to_string()];
    assert_eq!(bounds_place(&names, "engine.throttle"), Some(1));
    assert_eq!(bounds_place(&names, "rocket.throttle"), Some(0));
    assert_eq!(bounds_place(&names, "rocket.mass"), None);
}

#[test]
fn writes_reach_existing_inputs_only() {
    let mut inputs = vec![s("a", 1.0), s("b", 2.0)];
    apply_input_writes(&mut inputs, &vec![s("b", 5.0), s("c", 6.0), s("b", 7.0)]);
    assert_eq!(inputs, vec![s("a", 1.0), s("b", 7.0)]);
}

#[test]
fn the_flow_stands_still_while_paused() {
    let t = Fixed::whole(3);
    let dt = Fixed::ratio(1, 2);
    assert_eq!(flow_time(t, dt, Some(false)), Fixed::ratio(7, 2));
    assert_eq!(flow_time(t, dt, Some(true)), t);
    assert_eq!(flow_time(t, dt, None), t);
}
