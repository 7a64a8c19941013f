//! Applying a batch of edits to the source.
//!
//! The host applies each edit to the document; this module decides what comes
//! before and after: what is loaded ahead, when the syntax tree is refreshed
//! first, what is journaled, what the user is told, and what the canvas then
//! takes as shown.
use crate::lifecycle::{must_project, target_changed, DocumentFacts};
use crate::ops::ModelicaOp;
use crate::source_slice::{projection_relevant_source_hash, relevant_hash};
use crate::state::{
    drawn, is_base_of, is_drawn, law_tabs_are_apart, lemma_given_is_drawn, lemma_place_of,
    with_canvas, CanvasDiagramState, CanvasDocState,
};
use crate::text::{starts_with, views};
use vstd::prelude::*;
use vstd::string::StringSliceAdditionalSpecFns;

verus! {

// ── Before an edit ───────────────────────────────────────────────────────

/// The library class that an edit will need, where it adds an instance of one.
pub open spec fn class_to_preload(op: ModelicaOp) -> Option<Seq<char>> {
    match op {
        ModelicaOp::AddComponent { class_path, .. } => if "Modelica."@.is_prefix_of(class_path@) {
            Some(class_path@)
        } else {
            None
        },
        _ => None,
    }
}

/// The library classes that a batch of edits will need, in order.
pub open spec fn classes_to_preload(ops: Seq<ModelicaOp>) -> Seq<Seq<char>>
    decreases ops.len(),
{
    if ops.len() == 0 {
        Seq::empty()
    } else {
        match class_to_preload(ops.last()) {
            Some(c) => classes_to_preload(ops.drop_last()).push(c),
            None => classes_to_preload(ops.drop_last()),
        }
    }
}

/// The library classes that a batch of edits will need; the host loads them in
/// the background.
pub fn preload_classes(ops: &Vec<ModelicaOp>) -> (r: Vec<String>)
    ensures
        views(r@) == classes_to_preload(ops@),
{
    let mut out: Vec<String> = Vec::new();
    let mut i: usize = 0;
    assert(views(out@) =~= classes_to_preload(ops@.take(0)));
    while i < ops.len()
        invariant
            i <= ops@.len(),
            views(out@) == classes_to_preload(ops@.take(i as int)),
        decreases ops@.len() - i,
    {
        assert(ops@.take(i + 1).drop_last() =~= ops@.take(i as int));
        assert(ops@.take(i + 1).last() == ops@[i as int]);
        if let ModelicaOp::AddComponent { class_path, .. } = &ops[i] {
            if starts_with(class_path.as_str(), "Modelica.") {
                let ghost before = out@;
                out.push(class_path.clone());
                assert(views(out@) =~= views(before).push(class_path@));
            }
        }
        i += 1;
    }
    assert(ops@.take(i as int) =~= ops@);
    out
}

/// Whether the syntax tree is refreshed before an edit: where the edit changes
/// the structure of the source and an earlier edit may have changed it too.
pub fn needs_fresh_ast(op: &ModelicaOp) -> (r: bool)
    ensures
        r == (op is Restructure),
{
    match op {
        ModelicaOp::Restructure { .. } => true,
        _ => false,
    }
}

// ── After each edit ──────────────────────────────────────────────────────

/// What the document did with an edit.
#[derive(Clone, Copy, Debug, PartialEq, Eq, Structural)]
pub enum OpOutcome {
    /// The edit was applied. `has_inverse` tells whether it can be undone.
    Applied { has_inverse: bool },
    /// The document cannot be edited.
    ReadOnly,
    /// The edit does not fit the document.
    Failed,
}

/// An edit to journal: its place in the batch, and whether its inverse is
/// journaled with it.
#[derive(Clone, Copy, Debug, PartialEq, Eq, Structural)]
pub struct JournalEntry {
    pub op: usize,
    pub has_inverse: bool,
}

/// The edits to journal among the first `n`: those that were applied, in order.
pub open spec fn journal_of(outcomes: Seq<OpOutcome>, n: int) -> Seq<JournalEntry>
    decreases n,
{
    if n <= 0 {
        Seq::empty()
    } else {
        match outcomes[n - 1] {
            OpOutcome::Applied { has_inverse } => journal_of(outcomes, n - 1).push(
                JournalEntry { op: (n - 1) as usize, has_inverse },
            ),
            _ => journal_of(outcomes, n - 1),
        }
    }
}

/// What a batch came to so far.
#[derive(Debug, PartialEq, Eq)]
pub struct OpBatch {
    pub any_applied: bool,
    pub hit_read_only: bool,
    pub journal: Vec<JournalEntry>,
}

/// Whether `b` is what the outcomes come to: whether any edit was applied,
/// whether any was refused because the document cannot be edited, and what is
/// journaled.
pub open spec fn is_batch_of(b: OpBatch, outcomes: Seq<OpOutcome>) -> bool {
    &&& b.any_applied == any_applied(outcomes)
    &&& b.hit_read_only == any_refused(outcomes)
    &&& b.journal@ == journal_of(outcomes, outcomes.len() as int)
}

/// What a batch of edits came to.
pub fn batch_result(outcomes: &Vec<OpOutcome>) -> (r: OpBatch)
    ensures
        is_batch_of(r, outcomes@),
{
    let mut b = OpBatch { any_applied: false, hit_read_only: false, journal: Vec::new() };
    let mut i: usize = 0;
    while i < outcomes.len()
        invariant
            i <= outcomes@.len(),
            b.any_applied == (exists|j: int|
                0 <= j < i && (#[trigger] outcomes@[j]) is Applied),
            b.hit_read_only == (exists|j: int|
                0 <= j < i && (#[trigger] outcomes@[j]) is ReadOnly),
            b.journal@ == journal_of(outcomes@, i as int),
        decreases outcomes@.len() - i,
    {
        match outcomes[i] {
            OpOutcome::Applied { has_inverse } => {
                b.any_applied = true;
                b.journal.push(JournalEntry { op: i, has_inverse });
                assert(outcomes@[i as int] is Applied);
            },
            OpOutcome::ReadOnly => {
                b.hit_read_only = true;
                assert(outcomes@[i as int] is ReadOnly);
            },
            OpOutcome::Failed => {},
        }
        i += 1;
    }
    b
}

// ── After the batch ──────────────────────────────────────────────────────

/// What the user is told when edits were refused.
pub open spec fn read_only_banner() -> Seq<char> {
    "Read-only library tab — edits rejected. Use File → Duplicate to Workspace to create an editable copy."@
}

/// The error that is shown after a batch: one banner where the document cannot
/// be edited, unless an error is shown already.
pub fn error_after_batch(batch: &OpBatch, shown: Option<String>) -> (r: Option<String>)
    ensures
        batch.hit_read_only && shown is None ==> (r matches Some(m) && m@ == read_only_banner()),
        !(batch.hit_read_only && shown is None) ==> r == shown,
{
    if batch.hit_read_only && shown.is_none() {
        Some(
            "Read-only library tab — edits rejected. Use File → Duplicate to Workspace to create an editable copy.".to_owned(),
        )
    } else {
        shown
    }
}

/// The places behind the line ends among the first `n` bytes.
pub open spec fn line_starts_spec(bytes: Seq<u8>, n: int) -> Seq<usize>
    decreases n,
{
    if n <= 0 {
        seq![0usize]
    } else if bytes[n - 1] == 10 {
        line_starts_spec(bytes, n - 1).push(n as usize)
    } else {
        line_starts_spec(bytes, n - 1)
    }
}

/// The byte at which each line of a source starts.
pub fn line_starts(source: &str) -> (r: Vec<usize>)
    ensures
        r@ == line_starts_spec(source.spec_bytes(), source.spec_bytes().len() as int),
{
    let bytes = source.as_bytes();
    let mut out: Vec<usize> = Vec::new();
    out.push(0);
    assert(out@ =~= line_starts_spec(bytes@, 0));
    let mut i: usize = 0;
    while i < bytes.len()
        invariant
            i <= bytes@.len(),
            out@ == line_starts_spec(bytes@, i as int),
        decreases bytes@.len() - i,
    {
        if bytes[i] == 10 {
            out.push(i + 1);
        }
        i += 1;
    }
    out
}

/// The state of a canvas that takes a source as shown.
pub open spec fn acknowledged(ds: CanvasDocState, new_gen: u64, source: Seq<char>) -> CanvasDocState {
    CanvasDocState {
        canvas_acked_gen: new_gen,
        last_seen_gen: new_gen,
        last_seen_source_hash: relevant_hash(source),
        ..ds
    }
}

/// Takes the edited source as shown: the canvas made the edit in the scene
/// before it reached the source.
pub fn acknowledge_edit(ds: &mut CanvasDocState, new_gen: u64, source: &str)
    ensures
        *final(ds) == acknowledged(*old(ds), new_gen, source@),
{
    ds.canvas_acked_gen = new_gen;
    ds.last_seen_gen = new_gen;
    ds.last_seen_source_hash = projection_relevant_source_hash(source);
}

/// What the host does once the edits of a batch were handed to the document.
#[derive(Debug, PartialEq, Eq)]
pub struct BatchEnd {
    /// Whether the next parse does not wait for the user to pause.
    pub waive_debounce: bool,
    /// The error to show.
    pub error: Option<String>,
    /// Whether the document has changed and the scene is taken as shown.
    pub acknowledge: bool,
    /// The line starts of the edited source, where it is mirrored to the other
    /// panels.
    pub line_starts: Option<Vec<usize>>,
    pub journal: Vec<JournalEntry>,
}

/// Whether an edit of the batch was applied.
pub open spec fn any_applied(outcomes: Seq<OpOutcome>) -> bool {
    exists|i: int| 0 <= i < outcomes.len() && (#[trigger] outcomes[i]) is Applied
}

/// Whether an edit of the batch was refused because the document cannot be
/// edited.
pub open spec fn any_refused(outcomes: Seq<OpOutcome>) -> bool {
    exists|i: int| 0 <= i < outcomes.len() && (#[trigger] outcomes[i]) is ReadOnly
}

/// The state of the edited canvas after a batch: it takes the edited source as
/// shown where an edit was applied and there is a source, and else stays as it
/// was.
pub open spec fn after_batch(
    ds: CanvasDocState,
    outcomes: Seq<OpOutcome>,
    generation: u64,
    source: Option<&str>,
) -> CanvasDocState {
    match source {
        Some(s) => if any_applied(outcomes) {
            acknowledged(ds, generation, s@)
        } else {
            ds
        },
        None => ds,
    }
}

/// Whether `r` is what the host does after a batch: where an edit was applied,
/// the source is parsed without delay, mirrored and journaled; where one was
/// refused and no error is shown yet, the user is told.
pub open spec fn is_batch_end(
    r: BatchEnd,
    outcomes: Seq<OpOutcome>,
    shown_error: Option<String>,
    source: Option<&str>,
) -> bool {
    &&& r.waive_debounce == any_applied(outcomes)
    &&& r.acknowledge == any_applied(outcomes)
    &&& match r.line_starts {
        Some(starts) => any_applied(outcomes) && source is Some && starts@ == line_starts_spec(
            source->0.spec_bytes(),
            source->0.spec_bytes().len() as int,
        ),
        None => !any_applied(outcomes) || source is None,
    }
    &&& r.journal@ == journal_of(outcomes, outcomes.len() as int)
    &&& if any_refused(outcomes) && shown_error is None {
        r.error matches Some(m) && m@ == read_only_banner()
    } else {
        r.error == shown_error
    }
}

fn batch_end(outcomes: &Vec<OpOutcome>, shown_error: Option<String>, source: Option<&str>) -> (r:
    BatchEnd)
    ensures
        is_batch_end(r, outcomes@, shown_error, source),
{
    let batch = batch_result(outcomes);
    let error = error_after_batch(&batch, shown_error);
    let mut starts: Option<Vec<usize>> = None;
    if batch.any_applied {
        if let Some(s) = source {
            starts = Some(line_starts(s));
        }
    }
    BatchEnd {
        waive_debounce: batch.any_applied,
        error,
        acknowledge: batch.any_applied,
        line_starts: starts,
        journal: batch.journal,
    }
}

/// What is done once the edits of a batch were handed to the document, which
/// then has the given generation and source. Where an edit was applied, the
/// source is mirrored and the canvas takes it as shown; nothing is mirrored or
/// acknowledged otherwise.
pub fn apply_ops(
    ds: &mut CanvasDocState,
    outcomes: &Vec<OpOutcome>,
    shown_error: Option<String>,
    generation: u64,
    source: Option<&str>,
) -> (r: BatchEnd)
    ensures
        *final(ds) == after_batch(*old(ds), outcomes@, generation, source),
        is_batch_end(r, outcomes@, shown_error, source),
{
    let end = batch_end(outcomes, shown_error, source);
    if end.acknowledge {
        if let Some(s) = source {
            acknowledge_edit(ds, generation, s);
        }
    }
    end
}

/// The same among all canvases: that of the tab in which the edit was made, or
/// the first of the document where it was made in none, takes the edited source
/// as shown. All others stay as they are, those of other tabs on the document
/// too: their scenes do not show the edit yet. Where no edit was applied, a
/// canvas that was not drawn yet still counts as not drawn.
pub fn apply_ops_to_doc(
    st: &mut CanvasDiagramState,
    tab: Option<u64>,
    doc: u64,
    outcomes: &Vec<OpOutcome>,
    shown_error: Option<String>,
    generation: u64,
    source: Option<&str>,
) -> (r: BatchEnd)
    requires
        old(st).wf(),
    ensures
        final(st).wf(),
        final(st).fallback == old(st).fallback,
        is_batch_end(r, outcomes@, shown_error, source),
        if any_applied(outcomes@) && source is Some {
            exists|base: CanvasDocState|
                #[trigger] is_base_of(old(st).canvases@, tab, doc, base) && final(st).canvases@
                    == with_canvas(
                    old(st).canvases@,
                    tab,
                    doc,
                    acknowledged(base, generation, source->0@),
                )
        } else {
            final(st).canvases@ == old(st).canvases@
        },
{
    let end = batch_end(outcomes, shown_error, source);
    if end.acknowledge {
        if let Some(s) = source {
            let ghost cs = st.canvases@;
            let ds = st.get_mut_for_render(tab, Some(doc));
            let ghost base = *ds;
            acknowledge_edit(ds, generation, s);
            proof {
                lemma_place_of(cs, tab, doc);
                assert(is_base_of(cs, tab, doc, base));
            }
        }
    }
    end
}

// ── A single edit ────────────────────────────────────────────────────────

/// Why a single edit was not applied.
#[derive(Clone, Copy, Debug, PartialEq, Eq, Structural)]
pub enum ApplyError {
    /// There is no registry of documents.
    RegistryMissing,
    /// The registry does not hold the document.
    DocumentMissing(u64),
    /// The document cannot be edited.
    ReadOnly,
    /// The edit does not fit the document.
    Rejected,
}

/// What follows a single edit that was applied.
#[derive(Clone, Copy, Debug, PartialEq, Eq, Structural)]
pub struct SingleEdit {
    /// The next parse does not wait for the user to pause.
    pub waive_debounce: bool,
    /// The document is reported as changed.
    pub mark_changed: bool,
    /// The edit is journaled, once.
    pub journal: bool,
    /// Its inverse is journaled with it.
    pub has_inverse: bool,
}

/// What follows a single edit: an error where there is no registry, no such
/// document, or the document did not take the edit.
pub open spec fn single_edit_spec(doc: u64, has_registry: bool, outcome: Option<OpOutcome>) -> Result<
    SingleEdit,
    ApplyError,
> {
    if !has_registry {
        Err(ApplyError::RegistryMissing)
    } else {
        match outcome {
            None => Err(ApplyError::DocumentMissing(doc)),
            Some(OpOutcome::ReadOnly) => Err(ApplyError::ReadOnly),
            Some(OpOutcome::Failed) => Err(ApplyError::Rejected),
            Some(OpOutcome::Applied { has_inverse }) => Ok(
                SingleEdit { waive_debounce: true, mark_changed: true, journal: true, has_inverse },
            ),
        }
    }
}

/// What follows a single edit. `outcome` is what the document did with it:
/// nothing where there is no registry (`has_registry`) or no such document.
///
/// Every edit that was applied is journaled.
pub fn apply_one_op_as(doc: u64, has_registry: bool, outcome: Option<OpOutcome>) -> (r: Result<
    SingleEdit,
    ApplyError,
>)
    ensures
        r == single_edit_spec(doc, has_registry, outcome),
{
    if !has_registry {
        return Err(ApplyError::RegistryMissing);
    }
    match outcome {
        None => Err(ApplyError::DocumentMissing(doc)),
        Some(o) => match o {
            OpOutcome::ReadOnly => Err(ApplyError::ReadOnly),
            OpOutcome::Failed => Err(ApplyError::Rejected),
            OpOutcome::Applied { has_inverse } => Ok(
                SingleEdit { waive_debounce: true, mark_changed: true, journal: true, has_inverse },
            ),
        },
    }
}

// ── Laws ─────────────────────────────────────────────────────────────────

/// After a batch that was applied, the tab in which it was made is not projected
/// for it: its canvas shows the edits already.
pub proof fn law_acknowledged_edit_is_shown(
    before: CanvasDiagramState,
    after: CanvasDiagramState,
    tab: Option<u64>,
    doc: u64,
    outcomes: Seq<OpOutcome>,
    source: &str,
    facts: DocumentFacts,
)
    requires
        is_drawn(before.canvases@, tab, doc),
        any_applied(outcomes),
        after.canvases@ == with_canvas(
            before.canvases@,
            tab,
            doc,
            after_batch(
                drawn(before.canvases@, tab, doc),
                outcomes,
                facts.generation,
                Some(source),
            ),
        ),
        !target_changed(drawn(before.canvases@, tab, doc), facts.target),
    ensures
        !must_project(after, tab, doc, facts),
{
    lemma_given_is_drawn(
        before.canvases@,
        tab,
        doc,
        after_batch(drawn(before.canvases@, tab, doc), outcomes, facts.generation, Some(source)),
    );
}

/// After a batch that was applied in one tab, another tab is projected exactly
/// when it would have been without it: the edit is taken as shown in the tab in
/// which it was made, and in no other.
pub proof fn law_other_tabs_catch_up(
    before: CanvasDiagramState,
    after: CanvasDiagramState,
    tab: u64,
    other: u64,
    doc: u64,
    state: CanvasDocState,
    facts: DocumentFacts,
)
    requires
        tab != other,
        after.canvases@ == with_canvas(before.canvases@, Some(tab), doc, state),
    ensures
        must_project(after, Some(other), doc, facts) == must_project(
            before,
            Some(other),
            doc,
            facts,
        ),
{
    law_tabs_are_apart(before.canvases@, tab, doc, state, other);
}

/// Every edit of a batch that was applied is journaled, as it is when it comes
/// alone.
pub proof fn law_applied_edits_are_journaled(outcomes: Seq<OpOutcome>, n: int, i: int)
    requires
        0 <= i < n <= outcomes.len() <= usize::MAX,
        outcomes[i] is Applied,
    ensures
        exists|k: int|
            0 <= k < journal_of(outcomes, n).len() && (#[trigger] journal_of(outcomes, n)[k]).op
                == i,
    decreases n,
{
    let rest = journal_of(outcomes, n - 1);
    let all = journal_of(outcomes, n);
    if i < n - 1 {
        law_applied_edits_are_journaled(outcomes, n - 1, i);
        let k = choose|k: int| 0 <= k < rest.len() && (#[trigger] rest[k]).op == i;
        assert(all[k] == rest[k]);
    } else {
        assert(all[rest.len() as int].op == i);
    }
}

/// The journal of a batch holds its applied edits and no others, in order, each
/// with whether it can be undone: there are increasing places of edits, one for
/// each entry.
pub proof fn law_only_applied_edits_are_journaled(outcomes: Seq<OpOutcome>, n: int) -> (at: Seq<
    int,
>)
    requires
        0 <= n <= outcomes.len() <= usize::MAX,
    ensures
        at.len() == journal_of(outcomes, n).len(),
        forall|a: int, b: int| 0 <= a < b < at.len() ==> at[a] < at[b],
        forall|i: int| 0 <= i < n ==> (at.contains(i) <==> #[trigger] outcomes[i] is Applied),
        forall|k: int|
            0 <= k < at.len() ==> {
                &&& 0 <= #[trigger] at[k] < n
                &&& journal_of(outcomes, n)[k].op == at[k]
                &&& outcomes[at[k]] == (OpOutcome::Applied {
                    has_inverse: journal_of(outcomes, n)[k].has_inverse,
                })
            },
    decreases n,
{
    if n == 0 {
        Seq::empty()
    } else {
        let before = law_only_applied_edits_are_journaled(outcomes, n - 1);
        let has = outcomes[n - 1] is Applied;
        let at = if has {
            before.push(n - 1)
        } else {
            before
        };
        assert forall|i: int| 0 <= i < n implies (at.contains(i) <==> #[trigger] outcomes[i] is
            Applied) by {
            if i < n - 1 {
                if before.contains(i) {
                    let k = choose|k: int| 0 <= k < before.len() && before[k] == i;
                    assert(at[k] == i);
                }
                if at.contains(i) {
                    let k = choose|k: int| 0 <= k < at.len() && at[k] == i;
                    assert(before[k] == i);
                }
            } else {
                if has {
                    assert(at[before.len() as int] == i);
                }
                if at.contains(i) {
                    let k = choose|k: int| 0 <= k < at.len() && at[k] == i;
                    if k < before.len() {
                        assert(before[k] == i);
                    }
                }
            }
        }
        assert forall|k: int| 0 <= k < at.len() implies {
            &&& 0 <= #[trigger] at[k] < n
            &&& journal_of(outcomes, n)[k].op == at[k]
            &&& outcomes[at[k]] == (OpOutcome::Applied {
                has_inverse: journal_of(outcomes, n)[k].has_inverse,
            })
        } by {
            if k < before.len() {
                assert(at[k] == before[k]);
            }
        }
        at
    }
}

/// The classes that two batches will need, one after the other, are those of the
/// first followed by those of the second.
pub proof fn law_classes_are_preloaded_in_turn(a: Seq<ModelicaOp>, b: Seq<ModelicaOp>)
    ensures
        classes_to_preload(a + b) == classes_to_preload(a) + classes_to_preload(b),
    decreases b.len(),
{
    if b.len() == 0 {
        assert(a + b =~= a);
    } else {
        assert((a + b).drop_last() =~= a + b.drop_last());
        law_classes_are_preloaded_in_turn(a, b.drop_last());
        let first = classes_to_preload(a);
        let rest = classes_to_preload(b.drop_last());
        if let Some(c) = class_to_preload(b.last()) {
            assert((first + rest).push(c) =~= first + rest.push(c));
        }
    }
}

/// An edit needs a class loaded ahead exactly where it adds an instance of a class
/// whose path starts with that of the standard library.
pub proof fn law_library_classes_are_preloaded(op: ModelicaOp)
    ensures
        op matches ModelicaOp::AddComponent { class_path, .. } ==> {
            &&& "Modelica."@.is_prefix_of(class_path@) ==> classes_to_preload(seq![op]) == seq![
                class_path@,
            ]
            &&& !"Modelica."@.is_prefix_of(class_path@) ==> classes_to_preload(seq![op]).len() == 0
        },
        !(op is AddComponent) ==> classes_to_preload(seq![op]).len() == 0,
{
    assert(seq![op].drop_last() =~= Seq::empty());
    reveal_with_fuel(classes_to_preload, 2);
    if let ModelicaOp::AddComponent { class_path, .. } = op {
        if "Modelica."@.is_prefix_of(class_path@) {
            assert(classes_to_preload(seq![op]) =~= seq![class_path@]);
        }
    }
}

/// The lines of a source start at its beginning and behind each line end, and
/// nowhere else: the starts increase, the first is zero, and a place is one of the
/// others exactly where the byte before it is a line end.
pub proof fn law_lines_start_behind_line_ends(bytes: Seq<u8>, n: int)
    requires
        0 <= n <= bytes.len() <= usize::MAX,
    ensures
        ({
            let s = line_starts_spec(bytes, n);
            &&& s.len() > 0
            &&& s[0] == 0
            &&& forall|a: int, b: int| 0 <= a < b < s.len() ==> s[a] < s[b]
            &&& forall|k: int|
                0 < k < s.len() ==> 0 < #[trigger] s[k] <= n && bytes[s[k] - 1] == 10
            &&& forall|i: int|
                0 <= i < n && #[trigger] bytes[i] == 10 ==> s.contains((i + 1) as usize)
        }),
    decreases n,
{
    if n > 0 {
        law_lines_start_behind_line_ends(bytes, n - 1);
        let before = line_starts_spec(bytes, n - 1);
        let s = line_starts_spec(bytes, n);
        assert forall|i: int| 0 <= i < n && #[trigger] bytes[i] == 10 implies s.contains(
            (i + 1) as usize,
        ) by {
            if i < n - 1 {
                let k = choose|k: int| 0 <= k < before.len() && before[k] == (i + 1) as usize;
                assert(s[k] == (i + 1) as usize);
            } else {
                assert(s[before.len() as int] == n as usize);
            }
        }
        assert forall|a: int, b: int| 0 <= a < b < s.len() implies s[a] < s[b] by {
            if b == before.len() {
                if a > 0 {
                    assert(0 < before[a] <= n - 1);
                }
            }
        }
    }
}

/// A canvas that takes a source as shown keeps its scene, its camera and its
/// selection, and knows the source by its generation and the hash of its relevant
/// part.
pub proof fn law_acknowledging_changes_no_scene(
    ds: CanvasDocState,
    new_gen: u64,
    source: Seq<char>,
)
    ensures
        ({
            let a = acknowledged(ds, new_gen, source);
            &&& a.scene == ds.scene
            &&& a.viewport == ds.viewport
            &&& a.selection == ds.selection
            &&& a.last_seen_target == ds.last_seen_target
            &&& a.projection_task == ds.projection_task
            &&& a.last_seen_gen == new_gen
            &&& a.canvas_acked_gen == new_gen
            &&& a.last_seen_source_hash == relevant_hash(source)
        }),
{
}

/// What follows a batch goes by what became of its edits: one applied edit is
/// enough for the source to be parsed at once, one refused edit for the user to be
/// told, unless an error is shown already.
pub proof fn law_one_edit_decides_what_follows(
    r: BatchEnd,
    outcomes: Seq<OpOutcome>,
    shown_error: Option<String>,
    source: Option<&str>,
    i: int,
)
    requires
        is_batch_end(r, outcomes, shown_error, source),
        0 <= i < outcomes.len(),
    ensures
        outcomes[i] is Applied ==> r.waive_debounce && r.acknowledge && (source is Some
            ==> r.line_starts is Some),
        outcomes[i] is ReadOnly && shown_error is None ==> r.error is Some,
        shown_error is Some ==> r.error == shown_error,
        (forall|k: int| 0 <= k < outcomes.len() ==> !(#[trigger] outcomes[k] is Applied))
            ==> !r.waive_debounce && !r.acknowledge && r.line_starts is None,
        (forall|k: int| 0 <= k < outcomes.len() ==> !(#[trigger] outcomes[k] is ReadOnly))
            ==> r.error == shown_error,
{
}

/// A single edit succeeds exactly where the document applied it; then it is
/// journaled with its inverse, where it has one, reported and parsed at once. Of
/// several reasons to fail, the missing registry is told before the missing
/// document.
pub proof fn law_single_edits_succeed_when_applied(
    doc: u64,
    has_registry: bool,
    outcome: Option<OpOutcome>,
)
    ensures
        single_edit_spec(doc, has_registry, outcome) is Ok <==> has_registry && (outcome matches Some(
            o,
        ) && o is Applied),
        single_edit_spec(doc, has_registry, outcome) matches Ok(e) ==> e.journal && e.mark_changed
            && e.waive_debounce && (outcome == Some(
            OpOutcome::Applied { has_inverse: e.has_inverse },
        )),
        !has_registry ==> single_edit_spec(doc, has_registry, outcome) == Err::<
            SingleEdit,
            ApplyError,
        >(ApplyError::RegistryMissing),
        has_registry && outcome is None ==> single_edit_spec(doc, has_registry, outcome) == Err::<
            SingleEdit,
            ApplyError,
        >(ApplyError::DocumentMissing(doc)),
        has_registry && outcome == Some(OpOutcome::ReadOnly) ==> single_edit_spec(
            doc,
            has_registry,
            outcome,
        ) == Err::<SingleEdit, ApplyError>(ApplyError::ReadOnly),
        has_registry && outcome == Some(OpOutcome::Failed) ==> single_edit_spec(
            doc,
            has_registry,
            outcome,
        ) == Err::<SingleEdit, ApplyError>(ApplyError::Rejected),
{
}

} // verus!
