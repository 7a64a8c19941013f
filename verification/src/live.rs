//! What a simulation tells the canvas, and what the canvas tells it back.
//!
//! Values are floating-point numbers; here they are carried by their bits.
use crate::fixed::Fixed;
use crate::scene::{NodeData, PlotNodeData, Scene, SceneNode};
use crate::text::{leaf, leaf_of, same_text, views};
use vstd::prelude::*;

verus! {

/// The value of a named quantity, by the bits of its number.
#[derive(Debug, PartialEq, Eq)]
pub struct Sample {
    pub name: String,
    pub bits: u64,
}

/// The value that `samples` give for a name: the last one counts.
pub open spec fn value_of(samples: Seq<Sample>, name: Seq<char>) -> Option<u64>
    decreases samples.len(),
{
    if samples.len() == 0 {
        None
    } else if samples.last().name@ == name {
        Some(samples.last().bits)
    } else {
        value_of(samples.drop_last(), name)
    }
}

/// The first of two values that there is.
pub open spec fn either(a: Option<u64>, b: Option<u64>) -> Option<u64> {
    match a {
        Some(v) => Some(v),
        None => b,
    }
}

/// Whether no name stands twice.
pub open spec fn distinct_names(samples: Seq<Sample>) -> bool {
    forall|i: int, j: int|
        0 <= i < j < samples.len() ==> (#[trigger] samples[i]).name@ != (
        #[trigger] samples[j]).name@
}

proof fn lemma_value_at(samples: Seq<Sample>, i: int)
    requires
        distinct_names(samples),
        0 <= i < samples.len(),
    ensures
        value_of(samples, samples[i].name@) == Some(samples[i].bits),
    decreases samples.len(),
{
    if i < samples.len() - 1 {
        assert(samples[i].name@ != samples[samples.len() - 1].name@);
        let rest = samples.drop_last();
        assert forall|a: int, b: int| 0 <= a < b < rest.len() implies (
        #[trigger] rest[a]).name@ != (#[trigger] rest[b]).name@ by {
            assert(samples[a].name@ != samples[b].name@);
        }
        lemma_value_at(rest, i);
    }
}

proof fn lemma_no_value(samples: Seq<Sample>, name: Seq<char>)
    ensures
        value_of(samples, name) is None <==> forall|i: int|
            0 <= i < samples.len() ==> (#[trigger] samples[i]).name@ != name,
    decreases samples.len(),
{
    if samples.len() > 0 {
        let rest = samples.drop_last();
        lemma_no_value(rest, name);
        if samples.last().name@ == name {
            assert(samples[samples.len() - 1].name@ == name);
        } else if value_of(rest, name) is None {
            assert forall|i: int| 0 <= i < samples.len() implies (
            #[trigger] samples[i]).name@ != name by {
                if i < rest.len() {
                    assert(rest[i].name@ != name);
                }
            }
        } else {
            let i = choose|i: int| 0 <= i < rest.len() && (#[trigger] rest[i]).name@ == name;
            assert(samples[i].name@ == name);
        }
    }
}

proof fn lemma_value_is_at_a_place(samples: Seq<Sample>, name: Seq<char>)
    ensures
        match value_of(samples, name) {
            Some(v) => exists|i: int|
                0 <= i < samples.len() && (#[trigger] samples[i]).name@ == name && samples[i].bits
                    == v,
            None => true,
        },
    decreases samples.len(),
{
    if samples.len() > 0 {
        let rest = samples.drop_last();
        lemma_value_is_at_a_place(rest, name);
        if samples.last().name@ == name {
            assert(samples[samples.len() - 1].name@ == name);
        } else if value_of(rest, name) is Some {
            let v = value_of(rest, name)->0;
            let i = choose|i: int|
                0 <= i < rest.len() && (#[trigger] rest[i]).name@ == name && rest[i].bits == v;
            assert(samples[i].name@ == name);
        }
    }
}

/// The value that `samples` give for a name.
pub fn latest_value(samples: &Vec<Sample>, name: &str) -> (r: Option<u64>)
    ensures
        r == value_of(samples@, name@),
{
    let mut i: usize = samples.len();
    assert(samples@.take(i as int) =~= samples@);
    while i > 0
        invariant
            i <= samples@.len(),
            value_of(samples@, name@) == value_of(samples@.take(i as int), name@),
        decreases i,
    {
        assert(samples@.take(i as int).last() == samples@[i - 1]);
        assert(samples@.take(i as int).drop_last() =~= samples@.take(i - 1));
        if same_text(samples[i - 1].name.as_str(), name) {
            return Some(samples[i - 1].bits);
        }
        i -= 1;
    }
    None
}

fn put(out: &mut Vec<Sample>, name: &str, bits: u64)
    requires
        distinct_names(old(out)@),
    ensures
        distinct_names(final(out)@),
        forall|n: Seq<char>|
            #[trigger] value_of(final(out)@, n) == (if n == name@ {
                Some(bits)
            } else {
                value_of(old(out)@, n)
            }),
{
    let ghost before = out@;
    let mut i: usize = 0;
    while i < out.len()
        invariant
            i <= out@.len(),
            out@ == before,
            before == old(out)@,
            distinct_names(before),
            forall|j: int| 0 <= j < i ==> (#[trigger] before[j]).name@ != name@,
        decreases out@.len() - i,
    {
        if same_text(out[i].name.as_str(), name) {
            out[i].bits = bits;
            let ghost after = out@;
            proof {
                assert forall|a: int, b: int| 0 <= a < b < after.len() implies (
                #[trigger] after[a]).name@ != (#[trigger] after[b]).name@ by {
                    assert(before[a].name@ != before[b].name@);
                }
                assert forall|n: Seq<char>| #[trigger] value_of(after, n) == (if n == name@ {
                    Some(bits)
                } else {
                    value_of(before, n)
                }) by {
                    lemma_no_value(before, n);
                    lemma_no_value(after, n);
                    if n == name@ {
                        lemma_value_at(after, i as int);
                    } else if value_of(before, n) is Some {
                        lemma_value_is_at_a_place(before, n);
                        let k = choose|k: int|
                            0 <= k < before.len() && (#[trigger] before[k]).name@ == n
                                && before[k].bits == value_of(before, n)->0;
                        assert(after[k].name@ == n);
                        lemma_value_at(after, k);
                    } else {
                        assert forall|k: int| 0 <= k < after.len() implies (
                        #[trigger] after[k]).name@ != n by {
                            assert(before[k].name@ != n);
                        }
                    }
                }
            }
            return ;
        }
        i += 1;
    }
    out.push(Sample { name: name.to_owned(), bits });
    proof {
        assert(out@.drop_last() =~= before);
        assert forall|a: int, b: int| 0 <= a < b < out@.len() implies (
        #[trigger] out@[a]).name@ != (#[trigger] out@[b]).name@ by {
            assert(out@[a] == before[a]);
            if b < before.len() {
                assert(out@[b] == before[b]);
            }
        }
    }
}

fn put_all(out: &mut Vec<Sample>, bucket: &Vec<Sample>)
    requires
        distinct_names(old(out)@),
    ensures
        distinct_names(final(out)@),
        forall|n: Seq<char>|
            #[trigger] value_of(final(out)@, n) == either(
                value_of(bucket@, n),
                value_of(old(out)@, n),
            ),
{
    let mut i: usize = 0;
    let ghost before = out@;
    while i < bucket.len()
        invariant
            i <= bucket@.len(),
            distinct_names(out@),
            forall|n: Seq<char>|
                #[trigger] value_of(out@, n) == either(
                    value_of(bucket@.take(i as int), n),
                    value_of(before, n),
                ),
        decreases bucket@.len() - i,
    {
        let ghost taken = bucket@.take(i + 1);
        assert(taken.drop_last() =~= bucket@.take(i as int));
        assert(taken.last() == bucket@[i as int]);
        put(out, bucket[i].name.as_str(), bucket[i].bits);
        i += 1;
    }
    assert(bucket@.take(i as int) =~= bucket@);
}

/// The value that nodes and wires show for a name: that of the live simulation's
/// variables, else of its inputs, else of its parameters, else of a finished run.
pub open spec fn shown_value(
    run: Seq<Sample>,
    parameters: Seq<Sample>,
    inputs: Seq<Sample>,
    variables: Seq<Sample>,
    name: Seq<char>,
) -> Option<u64> {
    either(
        value_of(variables, name),
        either(value_of(inputs, name), either(value_of(parameters, name), value_of(run, name))),
    )
}

/// The values that nodes and wires show, each name once: those of a finished
/// run lie below, then the parameters, the inputs and the variables of the
/// live simulation.
pub fn node_values(
    run: &Vec<Sample>,
    parameters: &Vec<Sample>,
    inputs: &Vec<Sample>,
    variables: &Vec<Sample>,
) -> (r: Vec<Sample>)
    ensures
        distinct_names(r@),
        forall|n: Seq<char>|
            #[trigger] value_of(r@, n) == shown_value(
                run@,
                parameters@,
                inputs@,
                variables@,
                n,
            ),
{
    let mut out: Vec<Sample> = Vec::new();
    put_all(&mut out, run);
    put_all(&mut out, parameters);
    put_all(&mut out, inputs);
    put_all(&mut out, variables);
    out
}

// ── Finished runs ────────────────────────────────────────────────────────

/// A recorded quantity: a value for each time, where it is a finite number.
#[derive(Debug, PartialEq, Eq)]
pub struct Series {
    pub name: String,
    pub values: Vec<Option<u64>>,
}

/// What a run recorded.
#[derive(Debug, PartialEq, Eq)]
pub struct RunResult {
    pub times: Vec<Fixed>,
    pub series: Vec<Series>,
}

/// A run of a model, with its result where it has finished.
#[derive(Debug, PartialEq, Eq)]
pub struct Experiment {
    pub id: u64,
    pub result: Option<RunResult>,
}

/// Whether a run can be shown: it has finished, and is not hidden.
pub open spec fn can_be_shown(e: Experiment, visible: Option<Seq<u64>>) -> bool {
    e.result is Some && (visible matches Some(ids) ==> ids.contains(e.id))
}

/// The newest of the first `n` runs that can be shown, or -1.
pub open spec fn newest_shown(runs: Seq<Experiment>, visible: Option<Seq<u64>>, n: int) -> int
    decreases n,
{
    if n <= 0 {
        -1
    } else if can_be_shown(runs[n - 1], visible) {
        n - 1
    } else {
        newest_shown(runs, visible, n - 1)
    }
}

/// How far apart two times are.
pub open spec fn time_gap(a: Fixed, b: Fixed) -> int {
    a.minus_spec(b).abs_spec().steps as int
}

/// The place of the nearest of the first `n` times, the first of them where
/// several are as near.
pub open spec fn nearest_spec(times: Seq<Fixed>, t: Fixed, n: int) -> int
    decreases n,
{
    if n <= 1 {
        0
    } else {
        let best = nearest_spec(times, t, n - 1);
        if time_gap(times[n - 1], t) < time_gap(times[best], t) {
            n - 1
        } else {
            best
        }
    }
}

/// The place of the shown time: the nearest to the one that is picked, the
/// last one where none is.
pub open spec fn shown_time(times: Seq<Fixed>, picked: Option<Fixed>) -> int {
    match picked {
        Some(t) => nearest_spec(times, t, times.len() as int),
        None => times.len() - 1,
    }
}

/// Samples by their contents.
pub open spec fn sample_views(samples: Seq<Sample>) -> Seq<(Seq<char>, u64)> {
    samples.map_values(|s: Sample| (s.name@, s.bits))
}

/// The values of the first `n` series at place `at`, where they have one.
pub open spec fn values_at(series: Seq<Series>, at: int, n: int) -> Seq<(Seq<char>, u64)>
    decreases n,
{
    if n <= 0 {
        Seq::empty()
    } else {
        let rest = values_at(series, at, n - 1);
        let s = series[n - 1];
        if at < s.values@.len() && s.values@[at] is Some {
            rest.push((s.name@, s.values@[at]->0))
        } else {
            rest
        }
    }
}

/// The values of the newest run that can be shown, at the shown time.
pub open spec fn run_values(
    runs: Seq<Experiment>,
    visible: Option<Seq<u64>>,
    picked: Option<Fixed>,
) -> Seq<(Seq<char>, u64)> {
    let k = newest_shown(runs, visible, runs.len() as int);
    if k < 0 || runs[k].result->0.times@.len() == 0 {
        Seq::empty()
    } else {
        let result = runs[k].result->0;
        values_at(
            result.series@,
            shown_time(result.times@, picked),
            result.series@.len() as int,
        )
    }
}

fn lists(ids: &Vec<u64>, id: u64) -> (r: bool)
    ensures
        r == ids@.contains(id),
{
    let mut i: usize = 0;
    while i < ids.len()
        invariant
            i <= ids@.len(),
            forall|j: int| 0 <= j < i ==> ids@[j] != id,
        decreases ids@.len() - i,
    {
        if ids[i] == id {
            return true;
        }
        i += 1;
    }
    false
}

pub open spec fn ids_of(visible: Option<Vec<u64>>) -> Option<Seq<u64>> {
    match visible {
        Some(v) => Some(v@),
        None => None,
    }
}

fn find_newest(runs: &Vec<Experiment>, visible: &Option<Vec<u64>>) -> (r: Option<usize>)
    ensures
        match r {
            Some(k) => k < runs@.len() && k == newest_shown(
                runs@,
                ids_of(*visible),
                runs@.len() as int,
            ) && can_be_shown(runs@[k as int], ids_of(*visible)),
            None => newest_shown(runs@, ids_of(*visible), runs@.len() as int) == -1,
        },
{
    let mut i: usize = runs.len();
    while i > 0
        invariant
            i <= runs@.len(),
            newest_shown(runs@, ids_of(*visible), runs@.len() as int) == newest_shown(
                runs@,
                ids_of(*visible),
                i as int,
            ),
        decreases i,
    {
        let e = &runs[i - 1];
        let seen = match visible {
            Some(ids) => lists(ids, e.id),
            None => true,
        };
        if e.result.is_some() && seen {
            return Some(i - 1);
        }
        i -= 1;
    }
    None
}

/// The place of the time that is nearest to `t`.
pub fn nearest_time(times: &Vec<Fixed>, t: Fixed) -> (r: usize)
    requires
        times@.len() > 0,
    ensures
        r == nearest_spec(times@, t, times@.len() as int),
        r < times@.len(),
{
    let mut best: usize = 0;
    let mut i: usize = 1;
    while i < times.len()
        invariant
            1 <= i <= times@.len(),
            best < i,
            best == nearest_spec(times@, t, i as int),
        decreases times@.len() - i,
    {
        if times[i].minus(t).abs().steps < times[best].minus(t).abs().steps {
            best = i;
        }
        i += 1;
    }
    best
}

/// The values of the newest run that can be shown, at the picked time or else
/// at its end.
pub fn seed_state_from_latest_experiment(
    runs: &Vec<Experiment>,
    visible: &Option<Vec<u64>>,
    picked: Option<Fixed>,
) -> (r: Vec<Sample>)
    ensures
        sample_views(r@) == run_values(runs@, ids_of(*visible), picked),
{
    let mut out: Vec<Sample> = Vec::new();
    assert(sample_views(out@) =~= Seq::empty());
    let k = match find_newest(runs, visible) {
        Some(k) => k,
        None => {
            return out;
        },
    };
    if let Some(result) = &runs[k].result {
        if result.times.len() == 0 {
            return out;
        }
        let at: usize = match picked {
            Some(t) => nearest_time(&result.times, t),
            None => result.times.len() - 1,
        };
        let mut i: usize = 0;
        while i < result.series.len()
            invariant
                i <= result.series@.len(),
                sample_views(out@) == values_at(result.series@, at as int, i as int),
            decreases result.series@.len() - i,
        {
            let s = &result.series[i];
            if at < s.values.len() {
                if let Some(bits) = s.values[at] {
                    let ghost before = out@;
                    out.push(Sample { name: s.name.clone(), bits });
                    assert(sample_views(out@) =~= sample_views(before).push((s.name@, bits)));
                }
            }
            i += 1;
        }
    }
    out
}

// ── Inputs ───────────────────────────────────────────────────────────────

/// The first place at or after `from` where `name` stands, or the number of
/// names.
pub open spec fn place_of(names: Seq<Seq<char>>, name: Seq<char>, from: int) -> int
    decreases names.len() - from,
{
    if from >= names.len() {
        names.len() as int
    } else if names[from] == name {
        from
    } else {
        place_of(names, name, from + 1)
    }
}

/// The place of the bounds of an input: those under its full name, or else
/// under its last part; the number of names where there are none.
pub open spec fn bounds_place_spec(names: Seq<Seq<char>>, qualified: Seq<char>) -> int {
    if place_of(names, qualified, 0) < names.len() {
        place_of(names, qualified, 0)
    } else {
        place_of(names, leaf(qualified), 0)
    }
}

fn find_name(names: &Vec<String>, name: &str) -> (r: Option<usize>)
    ensures
        match r {
            Some(i) => i == place_of(views(names@), name@, 0) && i < names@.len(),
            None => place_of(views(names@), name@, 0) == names@.len(),
        },
{
    let mut i: usize = 0;
    while i < names.len()
        invariant
            i <= names@.len(),
            place_of(views(names@), name@, 0) == place_of(views(names@), name@, i as int),
        decreases names@.len() - i,
    {
        if same_text(names[i].as_str(), name) {
            return Some(i);
        }
        i += 1;
    }
    None
}

/// The place of the bounds of an input in the list of names that have bounds.
pub fn bounds_place(names: &Vec<String>, qualified: &str) -> (r: Option<usize>)
    ensures
        match r {
            Some(i) => i == bounds_place_spec(views(names@), qualified@) && i < names@.len(),
            None => bounds_place_spec(views(names@), qualified@) == names@.len(),
        },
{
    match find_name(names, qualified) {
        Some(i) => Some(i),
        None => {
            let last = leaf_of(qualified);
            find_name(names, last.as_str())
        },
    }
}

/// Sets the inputs of a model to the values written on the canvas. Where an
/// input was written several times the last value counts; names that are no
/// inputs are left out.
pub fn apply_input_writes(inputs: &mut Vec<Sample>, writes: &Vec<Sample>)
    ensures
        final(inputs)@.len() == old(inputs)@.len(),
        forall|i: int|
            0 <= i < old(inputs)@.len() ==> {
                &&& (#[trigger] final(inputs)@[i]).name == old(inputs)@[i].name
                &&& Some(final(inputs)@[i].bits) == either(
                    value_of(writes@, old(inputs)@[i].name@),
                    Some(old(inputs)@[i].bits),
                )
            },
{
    let ghost before = inputs@;
    let mut i: usize = 0;
    while i < inputs.len()
        invariant
            i <= inputs@.len(),
            inputs@.len() == before.len(),
            forall|j: int|
                0 <= j < i ==> {
                    &&& (#[trigger] inputs@[j]).name == before[j].name
                    &&& Some(inputs@[j].bits) == either(
                        value_of(writes@, before[j].name@),
                        Some(before[j].bits),
                    )
                },
            forall|j: int| i <= j < before.len() ==> #[trigger] inputs@[j] == before[j],
        decreases inputs@.len() - i,
    {
        let written = latest_value(writes, inputs[i].name.as_str());
        if let Some(bits) = written {
            inputs[i].bits = bits;
        }
        i += 1;
    }
}

// ── Plots and flow ───────────────────────────────────────────────────────

/// The node bound to a simulation, where it is a plot.
pub open spec fn bound_to(n: SceneNode, entity: u64) -> SceneNode {
    match n.data {
        NodeData::Plot(d) => SceneNode {
            data: NodeData::Plot(PlotNodeData { entity, ..d }),
            ..n
        },
        _ => n,
    }
}

/// Binds every plot of the scene to a simulation; its signal and title stay.
pub fn bind_plots(scene: &mut Scene, entity: u64)
    requires
        old(scene).wf(),
    ensures
        final(scene).wf(),
        final(scene).nodes@ == old(scene).nodes@.map_values(|n: SceneNode| bound_to(n, entity)),
        final(scene).edges == old(scene).edges,
        final(scene).next_node == old(scene).next_node,
        final(scene).next_edge == old(scene).next_edge,
{
    let ghost before = scene.nodes@;
    let mut i: usize = 0;
    while i < scene.nodes.len()
        invariant
            i <= scene.nodes@.len(),
            scene.nodes@.len() == before.len(),
            forall|j: int| 0 <= j < i ==> #[trigger] scene.nodes@[j] == bound_to(before[j], entity),
            forall|j: int| i <= j < before.len() ==> #[trigger] scene.nodes@[j] == before[j],
            scene.edges == old(scene).edges,
            scene.next_node == old(scene).next_node,
            scene.next_edge == old(scene).next_edge,
        decreases scene.nodes@.len() - i,
    {
        let rebound = match &scene.nodes[i].data {
            NodeData::Plot(d) => if d.entity != entity {
                Some(
                    PlotNodeData {
                        entity,
                        signal_path: d.signal_path.clone(),
                        title: d.title.clone(),
                    },
                )
            } else {
                None
            },
            _ => None,
        };
        if let Some(d) = rebound {
            scene.nodes[i].data = NodeData::Plot(d);
        }
        i += 1;
    }
    assert(scene.nodes@ =~= before.map_values(|n: SceneNode| bound_to(n, entity)));
}

/// The time by which the dots along wires are drawn: it goes on while the
/// simulation steps, and stands still while it is paused or there is none.
pub fn flow_time(time: Fixed, frame: Fixed, paused: Option<bool>) -> (r: Fixed)
    ensures
        r == (if paused == Some(false) {
            time.plus_spec(frame)
        } else {
            time
        }),
{
    match paused {
        Some(p) => if p {
            time
        } else {
            time.plus(frame)
        },
        None => time,
    }
}

// ── Laws ─────────────────────────────────────────────────────────────────

/// No time is nearer than the nearest, and none before it is as near.
pub proof fn law_nearest_time_is_nearest(times: Seq<Fixed>, t: Fixed, n: int)
    requires
        1 <= n <= times.len(),
    ensures
        0 <= nearest_spec(times, t, n) < n,
        forall|i: int|
            0 <= i < n ==> time_gap(times[nearest_spec(times, t, n)], t) <= time_gap(
                #[trigger] times[i],
                t,
            ),
        forall|i: int|
            0 <= i < nearest_spec(times, t, n) ==> time_gap(times[nearest_spec(times, t, n)], t)
                < time_gap(#[trigger] times[i], t),
    decreases n,
{
    if n > 1 {
        law_nearest_time_is_nearest(times, t, n - 1);
    }
}

/// Where a simulation gives a value for a name, that of a finished run does not
/// show: the values are those that would be shown without the run.
pub proof fn law_live_values_hide_finished_runs(
    parameters: Seq<Sample>,
    inputs: Seq<Sample>,
    variables: Seq<Sample>,
    run: Seq<Sample>,
    name: Seq<char>,
)
    requires
        value_of(parameters, name) is Some || value_of(inputs, name) is Some || value_of(
            variables,
            name,
        ) is Some,
    ensures
        shown_value(run, parameters, inputs, variables, name) == shown_value(
            Seq::empty(),
            parameters,
            inputs,
            variables,
            name,
        ),
{
}

/// Of the four sources of a value, variables come before inputs, inputs before
/// parameters and parameters before a finished run; a name that none of them has
/// shows no value.
pub proof fn law_values_come_from_the_liveliest_source(
    run: Seq<Sample>,
    parameters: Seq<Sample>,
    inputs: Seq<Sample>,
    variables: Seq<Sample>,
    name: Seq<char>,
)
    ensures
        ({
            let r = shown_value(run, parameters, inputs, variables, name);
            let v = value_of(variables, name);
            let i = value_of(inputs, name);
            let p = value_of(parameters, name);
            &&& v is Some ==> r == v
            &&& v is None && i is Some ==> r == i
            &&& v is None && i is None && p is Some ==> r == p
            &&& v is None && i is None && p is None ==> r == value_of(run, name)
        }),
{
}

/// The value for a name is that of the last sample with the name; where there is
/// no such sample there is no value.
pub proof fn law_the_last_sample_counts(samples: Seq<Sample>, name: Seq<char>, i: int)
    requires
        0 <= i < samples.len(),
        samples[i].name@ == name,
        forall|j: int| i < j < samples.len() ==> (#[trigger] samples[j]).name@ != name,
    ensures
        value_of(samples, name) == Some(samples[i].bits),
    decreases samples.len(),
{
    if i < samples.len() - 1 {
        let rest = samples.drop_last();
        assert(samples[samples.len() - 1].name@ != name);
        assert forall|j: int| i < j < rest.len() implies (#[trigger] rest[j]).name@ != name by {
            assert(samples[j].name@ != name);
        }
        law_the_last_sample_counts(rest, name, i);
    }
}

/// A name without a sample has no value.
pub proof fn law_only_samples_have_values(samples: Seq<Sample>, name: Seq<char>) -> (i: int)
    requires
        value_of(samples, name) is Some,
    ensures
        0 <= i < samples.len(),
        samples[i].name@ == name,
        value_of(samples, name) == Some(samples[i].bits),
{
    lemma_value_is_at_a_place(samples, name);
    let v = value_of(samples, name)->0;
    choose|i: int|
        0 <= i < samples.len() && (#[trigger] samples[i]).name@ == name && samples[i].bits == v
}

/// The run that is shown has finished and is not hidden, and every newer run has
/// not finished or is hidden. None is shown only where no run can be.
pub proof fn law_newest_run_is_shown(runs: Seq<Experiment>, visible: Option<Seq<u64>>, n: int, i: int)
    requires
        0 <= n <= runs.len(),
        0 <= i < n,
    ensures
        ({
            let k = newest_shown(runs, visible, n);
            &&& -1 <= k < n
            &&& k >= 0 ==> runs[k].result is Some && (visible matches Some(ids) ==> ids.contains(
                runs[k].id,
            ))
            &&& i > k ==> runs[i].result is None || (visible matches Some(ids) && !ids.contains(
                runs[i].id,
            ))
        }),
    decreases n,
{
    if n > 1 && i < n - 1 && !can_be_shown(runs[n - 1], visible) {
        law_newest_run_is_shown(runs, visible, n - 1, i);
    } else if n > 1 && !can_be_shown(runs[n - 1], visible) {
        law_newest_run_is_shown(runs, visible, n - 1, 0);
    } else {
        reveal_with_fuel(newest_shown, 2);
    }
}

/// Two times are as far apart as their difference, whichever comes first.
pub proof fn law_time_gaps_are_distances(a: Fixed, b: Fixed)
    requires
        a.in_bounds(),
        b.in_bounds(),
        -crate::fixed::MAX_STEPS <= a.steps - b.steps <= crate::fixed::MAX_STEPS,
    ensures
        time_gap(a, b) >= 0,
        time_gap(a, b) == a.steps - b.steps || time_gap(a, b) == b.steps - a.steps,
        time_gap(a, b) == time_gap(b, a),
{
}

/// Without a picked time the last one is shown.
pub proof fn law_the_end_of_a_run_is_shown(times: Seq<Fixed>)
    requires
        times.len() > 0,
    ensures
        shown_time(times, None) == times.len() - 1,
{
}

/// The values that a run gives are those of its series at the shown time, in
/// order, each under its name: there are increasing places of series, one for each
/// value, those of the series that have a value then.
pub proof fn law_every_series_gives_its_value(
    series: Seq<Series>,
    at: int,
    n: int,
) -> (from: Seq<int>)
    requires
        0 <= n <= series.len(),
        0 <= at,
    ensures
        from.len() == values_at(series, at, n).len(),
        forall|a: int, b: int| 0 <= a < b < from.len() ==> from[a] < from[b],
        forall|i: int|
            0 <= i < n ==> (from.contains(i) <==> at < (#[trigger] series[i]).values@.len()
                && series[i].values@[at] is Some),
        forall|k: int|
            0 <= k < from.len() ==> {
                &&& 0 <= #[trigger] from[k] < n
                &&& values_at(series, at, n)[k].0 == series[from[k]].name@
                &&& Some(values_at(series, at, n)[k].1) == series[from[k]].values@[at]
            },
    decreases n,
{
    if n == 0 {
        Seq::empty()
    } else {
        let before = law_every_series_gives_its_value(series, at, n - 1);
        let s = series[n - 1];
        let has = at < s.values@.len() && s.values@[at] is Some;
        let from = if has {
            before.push(n - 1)
        } else {
            before
        };
        assert forall|i: int| 0 <= i < n implies (from.contains(i) <==> at < (
        #[trigger] series[i]).values@.len() && series[i].values@[at] is Some) by {
            if i < n - 1 {
                if before.contains(i) {
                    let k = choose|k: int| 0 <= k < before.len() && before[k] == i;
                    assert(from[k] == i);
                }
                if from.contains(i) {
                    let k = choose|k: int| 0 <= k < from.len() && from[k] == i;
                    assert(before[k] == i);
                }
            } else {
                if has {
                    assert(from[before.len() as int] == i);
                }
                if from.contains(i) {
                    let k = choose|k: int| 0 <= k < from.len() && from[k] == i;
                    if k < before.len() {
                        assert(before[k] == i);
                    }
                }
            }
        }
        assert forall|k: int| 0 <= k < from.len() implies {
            &&& 0 <= #[trigger] from[k] < n
            &&& values_at(series, at, n)[k].0 == series[from[k]].name@
            &&& Some(values_at(series, at, n)[k].1) == series[from[k]].values@[at]
        } by {
            if k < before.len() {
                assert(from[k] == before[k]);
            }
        }
        from
    }
}

/// Where a finished run is shown, its values are those of its series at the time
/// that is shown, and nothing is shown of a run without times.
pub proof fn law_run_values_are_of_the_shown_run(
    runs: Seq<Experiment>,
    visible: Option<Seq<u64>>,
    picked: Option<Fixed>,
    k: int,
    r: RunResult,
)
    requires
        0 <= k < runs.len(),
        runs[k].result == Some(r),
        visible matches Some(ids) ==> ids.contains(runs[k].id),
        forall|i: int|
            k < i < runs.len() ==> (#[trigger] runs[i]).result is None || (visible matches Some(ids)
                && !ids.contains(runs[i].id)),
    ensures
        r.times@.len() == 0 ==> run_values(runs, visible, picked).len() == 0,
        r.times@.len() > 0 && picked is None ==> run_values(runs, visible, picked) == values_at(
            r.series@,
            r.times@.len() - 1,
            r.series@.len() as int,
        ),
        r.times@.len() > 0 ==> (picked matches Some(t) ==> run_values(runs, visible, picked)
            == values_at(
            r.series@,
            nearest_spec(r.times@, t, r.times@.len() as int),
            r.series@.len() as int,
        )),
{
    let n = runs.len() as int;
    let m = newest_shown(runs, visible, n);
    law_newest_run_is_shown(runs, visible, n, k);
    if m > k {
        law_newest_run_is_shown(runs, visible, n, m);
        assert(runs[m].result is None || (visible matches Some(ids) && !ids.contains(runs[m].id)));
    }
    assert(m == k);
}

proof fn lemma_place_of(names: Seq<Seq<char>>, name: Seq<char>, from: int)
    requires
        0 <= from <= names.len(),
    ensures
        ({
            let p = place_of(names, name, from);
            &&& from <= p <= names.len()
            &&& p < names.len() ==> names[p] == name
            &&& forall|k: int| from <= k < p ==> #[trigger] names[k] != name
        }),
    decreases names.len() - from,
{
    if from < names.len() && names[from] != name {
        lemma_place_of(names, name, from + 1);
    }
}

/// The bounds of an input are those under its full name where there are any, else
/// those under the last part of its name, else none.
pub proof fn law_full_names_have_bounds_first(names: Seq<Seq<char>>, qualified: Seq<char>)
    ensures
        ({
            let p = bounds_place_spec(names, qualified);
            &&& 0 <= p <= names.len()
            &&& names.contains(qualified) ==> p < names.len() && names[p] == qualified
            &&& !names.contains(qualified) && names.contains(leaf(qualified)) ==> p < names.len()
                && names[p] == leaf(qualified)
            &&& !names.contains(qualified) && !names.contains(leaf(qualified)) ==> p == names.len()
        }),
{
    lemma_place_of(names, qualified, 0);
    lemma_place_of(names, leaf(qualified), 0);
    let p = place_of(names, qualified, 0);
    let q = place_of(names, leaf(qualified), 0);
    if p < names.len() {
        assert(names.contains(names[p]));
    } else if names.contains(qualified) {
        let k = choose|k: int| 0 <= k < names.len() && names[k] == qualified;
        assert(names[k] != qualified);
    }
    if q < names.len() {
        assert(names.contains(names[q]));
    } else if names.contains(leaf(qualified)) {
        let k = choose|k: int| 0 <= k < names.len() && names[k] == leaf(qualified);
        assert(names[k] != leaf(qualified));
    }
}

/// Binding a plot changes the simulation that it reads and nothing else of it; any
/// other node stays as it is.
pub proof fn law_binding_changes_the_simulation_only(n: SceneNode, entity: u64)
    ensures
        bound_to(n, entity).id == n.id,
        bound_to(n, entity).rect == n.rect,
        bound_to(n, entity).origin == n.origin,
        n.data matches NodeData::Plot(d) ==> (bound_to(n, entity).data matches NodeData::Plot(e)
            && e.entity == entity && e.signal_path == d.signal_path && e.title == d.title),
        !(n.data is Plot) ==> bound_to(n, entity) == n,
{
}

} // verus!
