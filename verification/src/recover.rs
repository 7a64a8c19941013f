//! Connections that the source has and the diagram misses.
use crate::classes::{ClassDef, Connect, Equation, StoredDefinition};
use crate::coords::ModelicaPos;
use crate::model::{node_of, DiagramEdge, DiagramNode, VisualDiagram};
use crate::text::{join_text, joined, same_text, views};
use vstd::prelude::*;

verus! {

/// One end of a connection: the component's name and the port's.
pub type EndView = (Seq<char>, Seq<char>);

/// The two ends of a connection.
pub type PairView = (EndView, EndView);

/// A connection by its contents.
pub struct EdgeView {
    pub source_node: u64,
    pub source_port: Seq<char>,
    pub target_node: u64,
    pub target_port: Seq<char>,
    pub waypoints: Seq<ModelicaPos>,
}

impl View for DiagramEdge {
    type V = EdgeView;

    open spec fn view(&self) -> EdgeView {
        EdgeView {
            source_node: self.source_node,
            source_port: self.source_port@,
            target_node: self.target_node,
            target_port: self.target_port@,
            waypoints: self.waypoints@,
        }
    }
}

/// The connections by their contents.
pub open spec fn edge_views(edges: Seq<DiagramEdge>) -> Seq<EdgeView> {
    edges.map_values(|e: DiagramEdge| e@)
}

/// The name of the component `id`, empty where the diagram has none.
pub open spec fn name_of(nodes: Seq<DiagramNode>, id: u64) -> Seq<char> {
    match node_of(nodes, id) {
        Some(n) => n.instance_name@,
        None => Seq::empty(),
    }
}

/// The ends of a connection of the diagram.
pub open spec fn pair_of(nodes: Seq<DiagramNode>, e: EdgeView) -> PairView {
    (
        (name_of(nodes, e.source_node), e.source_port),
        (name_of(nodes, e.target_node), e.target_port),
    )
}

/// Whether two connections have the same ends, in either order.
pub open spec fn same_pair(a: PairView, b: PairView) -> bool {
    a == b || (a.0 == b.1 && a.1 == b.0)
}

/// Whether one of the connections has the ends of `p`.
pub open spec fn has_pair(pairs: Seq<PairView>, p: PairView) -> bool {
    exists|i: int| 0 <= i < pairs.len() && same_pair(#[trigger] pairs[i], p)
}

/// The ends of the connections of the diagram.
pub open spec fn pairs_of(nodes: Seq<DiagramNode>, edges: Seq<EdgeView>) -> Seq<PairView> {
    edges.map_values(|e: EdgeView| pair_of(nodes, e))
}

/// The last component named `name`, or -1.
pub open spec fn named_node(nodes: Seq<DiagramNode>, name: Seq<char>) -> int
    decreases nodes.len(),
{
    if nodes.len() == 0 {
        -1
    } else if nodes.last().instance_name@ == name {
        nodes.len() - 1
    } else {
        named_node(nodes.drop_last(), name)
    }
}

/// The end that a dotted reference names: a component, and behind it at least
/// one part for the port.
pub open spec fn end_of(parts: Seq<Seq<char>>) -> Option<EndView> {
    if parts.len() >= 2 {
        Some((parts[0], joined(parts.skip(1), "."@)))
    } else {
        None
    }
}

/// The connection that a connect equation makes, with its ends, where both
/// references name a port of a component of the diagram.
pub open spec fn connection_of(nodes: Seq<DiagramNode>, c: Connect) -> Option<(EdgeView, PairView)> {
    match (end_of(views(c.lhs@)), end_of(views(c.rhs@))) {
        (Some(l), Some(r)) => {
            let s = named_node(nodes, l.0);
            let t = named_node(nodes, r.0);
            if s >= 0 && t >= 0 {
                Some(
                    (
                        EdgeView {
                            source_node: nodes[s].id,
                            source_port: l.1,
                            target_node: nodes[t].id,
                            target_port: r.1,
                            waypoints: Seq::empty(),
                        },
                        (l, r),
                    ),
                )
            } else {
                None
            }
        },
        _ => None,
    }
}

/// The connect equations among `eqs`, in order.
pub open spec fn connects_in(eqs: Seq<Equation>) -> Seq<Connect>
    decreases eqs.len(),
{
    if eqs.len() == 0 {
        Seq::empty()
    } else {
        match eqs.last() {
            Equation::Connect(c) => connects_in(eqs.drop_last()).push(c),
            Equation::Other => connects_in(eqs.drop_last()),
        }
    }
}

/// The connect equations of a class and of the classes nested in it: its own
/// first, then those of each nested class.
pub open spec fn class_connects(c: ClassDef) -> Seq<Connect>
    decreases c, c.classes@.len() + 1,
{
    connects_in(c.equations@) + nested_connects(c, c.classes@.len())
}

/// The connect equations of the first `n` classes nested in a class.
pub open spec fn nested_connects(c: ClassDef, n: nat) -> Seq<Connect>
    decreases c, n,
    when n <= c.classes@.len()
{
    if n == 0 {
        Seq::empty()
    } else {
        nested_connects(c, (n - 1) as nat) + class_connects(c.classes@[n - 1])
    }
}

/// The connect equations of all classes of a file.
pub open spec fn file_connects(classes: Seq<ClassDef>) -> Seq<Connect>
    decreases classes.len(),
{
    if classes.len() == 0 {
        Seq::empty()
    } else {
        file_connects(classes.drop_last()) + class_connects(classes.last())
    }
}

/// The connections that `connects` adds to a diagram whose connections have
/// the ends `pairs`: each equation that makes a connection adds it, unless one
/// with the same ends is there already.
pub open spec fn recovered(
    nodes: Seq<DiagramNode>,
    pairs: Seq<PairView>,
    connects: Seq<Connect>,
) -> Seq<EdgeView>
    decreases connects.len(),
{
    if connects.len() == 0 {
        Seq::empty()
    } else {
        let before = recovered(nodes, pairs, connects.drop_last());
        match connection_of(nodes, connects.last()) {
            Some((e, p)) => if has_pair(pairs_after(nodes, pairs, connects.drop_last()), p) {
                before
            } else {
                before.push(e)
            },
            None => before,
        }
    }
}

/// The ends of the connections after `connects` has added to them.
pub open spec fn pairs_after(
    nodes: Seq<DiagramNode>,
    pairs: Seq<PairView>,
    connects: Seq<Connect>,
) -> Seq<PairView>
    decreases connects.len(),
{
    if connects.len() == 0 {
        pairs
    } else {
        let before = pairs_after(nodes, pairs, connects.drop_last());
        match connection_of(nodes, connects.last()) {
            Some((e, p)) => if has_pair(before, p) {
                before
            } else {
                before.push(p)
            },
            None => before,
        }
    }
}

/// The ends of a connection, as strings.
struct Pair {
    a: (String, String),
    b: (String, String),
}

impl Pair {
    spec fn as_view(self) -> PairView {
        ((self.a.0@, self.a.1@), (self.b.0@, self.b.1@))
    }
}

spec fn pair_views(v: Seq<Pair>) -> Seq<PairView> {
    v.map_values(|p: Pair| p.as_view())
}

fn same_end(a: &(String, String), b: &(String, String)) -> (r: bool)
    ensures
        r == ((a.0@, a.1@) == (b.0@, b.1@)),
{
    same_text(a.0.as_str(), b.0.as_str()) && same_text(a.1.as_str(), b.1.as_str())
}

fn contains_pair(pairs: &Vec<Pair>, p: &Pair) -> (r: bool)
    ensures
        r == has_pair(pair_views(pairs@), p.as_view()),
{
    let ghost all = pair_views(pairs@);
    let mut i: usize = 0;
    while i < pairs.len()
        invariant
            i <= pairs@.len(),
            all == pair_views(pairs@),
            forall|j: int| 0 <= j < i ==> !same_pair(#[trigger] all[j], p.as_view()),
        decreases pairs@.len() - i,
    {
        let q = &pairs[i];
        assert(all[i as int] == q.as_view());
        if (same_end(&q.a, &p.a) && same_end(&q.b, &p.b)) || (same_end(&q.a, &p.b) && same_end(
            &q.b,
            &p.a,
        )) {
            return true;
        }
        i += 1;
    }
    false
}

fn find_named(nodes: &Vec<DiagramNode>, name: &str) -> (r: Option<usize>)
    ensures
        match r {
            Some(i) => i == named_node(nodes@, name@) && i < nodes@.len(),
            None => named_node(nodes@, name@) == -1,
        },
{
    let mut i: usize = nodes.len();
    assert(nodes@.take(i as int) =~= nodes@);
    while i > 0
        invariant
            i <= nodes@.len(),
            named_node(nodes@, name@) == named_node(nodes@.take(i as int), name@),
        decreases i,
    {
        assert(nodes@.take(i as int).last() == nodes@[i - 1]);
        assert(nodes@.take(i as int).drop_last() =~= nodes@.take(i - 1));
        if same_text(nodes[i - 1].instance_name.as_str(), name) {
            return Some(i - 1);
        }
        i -= 1;
    }
    None
}

fn end_of_reference(parts: &Vec<String>) -> (r: Option<(String, String)>)
    ensures
        match r {
            Some(e) => end_of(views(parts@)) == Some((e.0@, e.1@)),
            None => end_of(views(parts@)) is None,
        },
{
    if parts.len() >= 2 {
        Some((parts[0].clone(), join_text(parts, 1, ".")))
    } else {
        None
    }
}

fn instance_name_of(diagram: &VisualDiagram, id: u64) -> (r: String)
    ensures
        r@ == name_of(diagram.nodes@, id),
{
    match diagram.find_first(id) {
        Some(i) => diagram.nodes[i].instance_name.clone(),
        None => String::new(),
    }
}

fn existing_pairs(diagram: &VisualDiagram) -> (r: Vec<Pair>)
    ensures
        pair_views(r@) == pairs_of(diagram.nodes@, edge_views(diagram.edges@)),
{
    let mut out: Vec<Pair> = Vec::new();
    let mut i: usize = 0;
    while i < diagram.edges.len()
        invariant
            i <= diagram.edges@.len(),
            out@.len() == i,
            forall|j: int|
                0 <= j < i ==> (#[trigger] out@[j]).as_view() == pair_of(
                    diagram.nodes@,
                    diagram.edges@[j]@,
                ),
        decreases diagram.edges@.len() - i,
    {
        let e = &diagram.edges[i];
        out.push(
            Pair {
                a: (instance_name_of(diagram, e.source_node), e.source_port.clone()),
                b: (instance_name_of(diagram, e.target_node), e.target_port.clone()),
            },
        );
        i += 1;
    }
    assert(pair_views(out@) =~= pairs_of(diagram.nodes@, edge_views(diagram.edges@)));
    out
}

/// The equations that references point to.
spec fn targets(v: Seq<&Connect>) -> Seq<Connect> {
    v.map_values(|c: &Connect| *c)
}

fn collect_connects<'a>(class: &'a ClassDef, out: &mut Vec<&'a Connect>)
    ensures
        targets(final(out)@) == targets(old(out)@) + class_connects(*class),
    decreases class,
{
    let ghost start = targets(out@);
    let eqs = &class.equations;
    let mut i: usize = 0;
    assert(start + connects_in(eqs@.take(0)) =~= start);
    while i < eqs.len()
        invariant
            i <= eqs@.len(),
            targets(out@) == start + connects_in(eqs@.take(i as int)),
        decreases eqs@.len() - i,
    {
        assert(eqs@.take(i + 1).drop_last() =~= eqs@.take(i as int));
        assert(eqs@.take(i + 1).last() == eqs@[i as int]);
        let ghost before = out@;
        match &eqs[i] {
            Equation::Connect(c) => {
                out.push(c);
                assert(targets(out@) =~= targets(before).push(*c));
                assert(targets(out@) =~= start + connects_in(eqs@.take(i as int)).push(*c));
            },
            Equation::Other => {},
        }
        i += 1;
    }
    assert(eqs@.take(i as int) =~= eqs@);
    let ghost own = connects_in(eqs@);
    let nested = &class.classes;
    let mut k: usize = 0;
    assert(start + own + nested_connects(*class, 0) =~= start + own);
    while k < nested.len()
        invariant
            k <= nested@.len(),
            nested@ == class.classes@,
            targets(out@) == start + own + nested_connects(*class, k as nat),
        decreases nested@.len() - k,
    {
        collect_connects(&nested[k], out);
        assert(nested_connects(*class, (k + 1) as nat) == nested_connects(*class, k as nat)
            + class_connects(class.classes@[k as int]));
        assert(targets(out@) =~= start + own + nested_connects(*class, (k + 1) as nat));
        k += 1;
    }
    assert(class_connects(*class) == own + nested_connects(*class, class.classes@.len()));
    assert(targets(out@) =~= start + class_connects(*class));
}

fn collect_file<'a>(ast: &'a StoredDefinition) -> (r: Vec<&'a Connect>)
    ensures
        targets(r@) == file_connects(ast.classes@),
{
    let mut out: Vec<&'a Connect> = Vec::new();
    let classes = &ast.classes;
    let mut i: usize = 0;
    assert(targets(out@) =~= file_connects(classes@.take(0)));
    while i < classes.len()
        invariant
            i <= classes@.len(),
            classes@ == ast.classes@,
            targets(out@) == file_connects(classes@.take(i as int)),
        decreases classes@.len() - i,
    {
        assert(classes@.take(i + 1).drop_last() =~= classes@.take(i as int));
        assert(classes@.take(i + 1).last() == classes@[i as int]);
        collect_connects(&classes[i], &mut out);
        i += 1;
    }
    assert(classes@.take(i as int) =~= classes@);
    out
}

/// Adds to `diagram` the connections that the connect equations of the file
/// make between its components and that it misses.
///
/// An equation is skipped when an end is not a port of a component of the
/// diagram, and when a connection with the same two ends, in either order, is
/// there already.
pub fn recover_edges_from_source(ast: &StoredDefinition, diagram: &mut VisualDiagram)
    ensures
        final(diagram).nodes == old(diagram).nodes,
        edge_views(final(diagram).edges@) == edge_views(old(diagram).edges@) + recovered(
            old(diagram).nodes@,
            pairs_of(old(diagram).nodes@, edge_views(old(diagram).edges@)),
            file_connects(ast.classes@),
        ),
{
    let connects = collect_file(ast);
    let mut pairs = existing_pairs(diagram);
    let ghost nodes = diagram.nodes@;
    let ghost pairs0 = pair_views(pairs@);
    let ghost edges0 = edge_views(diagram.edges@);
    let ghost all = targets(connects@);
    let mut i: usize = 0;
    assert(all.take(0) =~= Seq::empty());
    assert(edges0 + recovered(nodes, pairs0, all.take(0)) =~= edges0);
    while i < connects.len()
        invariant
            i <= connects@.len(),
            all == targets(connects@),
            diagram.nodes == old(diagram).nodes,
            nodes == diagram.nodes@,
            pair_views(pairs@) == pairs_after(nodes, pairs0, all.take(i as int)),
            edge_views(diagram.edges@) == edges0 + recovered(nodes, pairs0, all.take(i as int)),
        decreases connects@.len() - i,
    {
        let c = connects[i];
        let ghost before = all.take(i as int);
        assert(all.take(i + 1).drop_last() =~= before);
        assert(all.take(i + 1).last() == *c);
        if let Some(l) = end_of_reference(&c.lhs) {
            if let Some(r) = end_of_reference(&c.rhs) {
                let s = find_named(&diagram.nodes, l.0.as_str());
                let t = find_named(&diagram.nodes, r.0.as_str());
                if let (Some(s), Some(t)) = (s, t) {
                    let edge = DiagramEdge {
                        source_node: diagram.nodes[s].id,
                        source_port: l.1.clone(),
                        target_node: diagram.nodes[t].id,
                        target_port: r.1.clone(),
                        waypoints: Vec::new(),
                    };
                    let p = Pair { a: l, b: r };
                    let ghost made = connection_of(nodes, *c);
                    assert(edge@.waypoints =~= Seq::empty());
                    assert(made == Some((edge@, p.as_view())));
                    if !contains_pair(&pairs, &p) {
                        let ghost pv = pairs@;
                        let ghost ev = diagram.edges@;
                        pairs.push(p);
                        assert(pair_views(pairs@) =~= pair_views(pv).push(p.as_view()));
                        diagram.edges.push(edge);
                        assert(edge_views(diagram.edges@) =~= edge_views(ev).push(edge@));
                        assert(edges0 + recovered(nodes, pairs0, before).push(edge@) =~= (edges0
                            + recovered(nodes, pairs0, before)).push(edge@));
                    }
                }
            }
        }
        i += 1;
    }
    assert(all.take(i as int) =~= all);
}

// ── Laws ─────────────────────────────────────────────────────────────────

/// Whether no two components share an id.
pub open spec fn ids_are_unique(nodes: Seq<DiagramNode>) -> bool {
    forall|i: int, j: int|
        0 <= i < j < nodes.len() ==> (#[trigger] nodes[i]).id != (#[trigger] nodes[j]).id
}

proof fn lemma_named_node(nodes: Seq<DiagramNode>, name: Seq<char>)
    ensures
        -1 <= named_node(nodes, name) < nodes.len(),
        named_node(nodes, name) >= 0 ==> nodes[named_node(nodes, name)].instance_name@ == name,
    decreases nodes.len(),
{
    if nodes.len() > 0 && nodes.last().instance_name@ != name {
        lemma_named_node(nodes.drop_last(), name);
    }
}

proof fn lemma_connection_has_its_pair(nodes: Seq<DiagramNode>, c: Connect)
    requires
        ids_are_unique(nodes),
    ensures
        connection_of(nodes, c) matches Some((e, p)) ==> pair_of(nodes, e) == p,
{
    if let Some((e, p)) = connection_of(nodes, c) {
        lemma_named_node(nodes, p.0.0);
        lemma_named_node(nodes, p.1.0);
        let s = named_node(nodes, p.0.0);
        let t = named_node(nodes, p.1.0);
        crate::model::lemma_first_node(nodes, nodes[s].id, 0);
        crate::model::lemma_first_node(nodes, nodes[t].id, 0);
        assert(crate::model::first_node(nodes, nodes[s].id, 0) == s);
        assert(crate::model::first_node(nodes, nodes[t].id, 0) == t);
    }
}

proof fn lemma_pairs_after(nodes: Seq<DiagramNode>, pairs: Seq<PairView>, connects: Seq<Connect>)
    requires
        ids_are_unique(nodes),
    ensures
        pairs_after(nodes, pairs, connects) == pairs + pairs_of(
            nodes,
            recovered(nodes, pairs, connects),
        ),
        forall|i: int|
            0 <= i < connects.len() ==> (connection_of(nodes, #[trigger] connects[i]) matches Some(
                (e, p),
            ) ==> has_pair(pairs_after(nodes, pairs, connects), p)),
    decreases connects.len(),
{
    if connects.len() == 0 {
        assert(pairs + pairs_of(nodes, recovered(nodes, pairs, connects)) =~= pairs);
    } else {
        let rest = connects.drop_last();
        lemma_pairs_after(nodes, pairs, rest);
        lemma_connection_has_its_pair(nodes, connects.last());
        let before = pairs_after(nodes, pairs, rest);
        let after = pairs_after(nodes, pairs, connects);
        if let Some((e, p)) = connection_of(nodes, connects.last()) {
            if !has_pair(before, p) {
                assert(pairs_of(nodes, recovered(nodes, pairs, rest).push(e)) =~= pairs_of(
                    nodes,
                    recovered(nodes, pairs, rest),
                ).push(p));
                assert(after =~= before.push(p));
                assert(after =~= pairs + pairs_of(nodes, recovered(nodes, pairs, connects)));
                assert(same_pair(after[before.len() as int], p));
            }
        }
        assert forall|i: int| 0 <= i < connects.len() implies (connection_of(
            nodes,
            #[trigger] connects[i],
        ) matches Some((e, p)) ==> has_pair(after, p)) by {
            if i < rest.len() {
                assert(connects[i] == rest[i]);
                if let Some((e, p)) = connection_of(nodes, connects[i]) {
                    let k = choose|k: int|
                        0 <= k < before.len() && same_pair(#[trigger] before[k], p);
                    assert(after[k] == before[k]);
                }
            }
        }
    }
}

proof fn lemma_recovered_adds_nothing(
    nodes: Seq<DiagramNode>,
    pairs: Seq<PairView>,
    connects: Seq<Connect>,
)
    requires
        forall|i: int|
            0 <= i < connects.len() ==> (connection_of(nodes, #[trigger] connects[i]) matches Some(
                (e, p),
            ) ==> has_pair(pairs, p)),
    ensures
        recovered(nodes, pairs, connects) == Seq::<EdgeView>::empty(),
        pairs_after(nodes, pairs, connects) == pairs,
    decreases connects.len(),
{
    if connects.len() > 0 {
        let rest = connects.drop_last();
        assert forall|i: int| 0 <= i < rest.len() implies (connection_of(
            nodes,
            #[trigger] rest[i],
        ) matches Some((e, p)) ==> has_pair(pairs, p)) by {
            assert(rest[i] == connects[i]);
        }
        lemma_recovered_adds_nothing(nodes, pairs, rest);
        assert(connects.last() == connects[connects.len() - 1]);
    }
}

/// Recovering a second time adds nothing.
pub proof fn law_recovery_is_complete(
    nodes: Seq<DiagramNode>,
    edges: Seq<EdgeView>,
    connects: Seq<Connect>,
)
    requires
        ids_are_unique(nodes),
    ensures
        ({
            let after = edges + recovered(nodes, pairs_of(nodes, edges), connects);
            recovered(nodes, pairs_of(nodes, after), connects) == Seq::<EdgeView>::empty()
        }),
{
    let pairs = pairs_of(nodes, edges);
    lemma_pairs_after(nodes, pairs, connects);
    let after = edges + recovered(nodes, pairs, connects);
    assert(pairs_of(nodes, after) =~= pairs_after(nodes, pairs, connects));
    lemma_recovered_adds_nothing(nodes, pairs_of(nodes, after), connects);
}

/// No recovered connection has the ends of another connection of the diagram,
/// neither in the same direction nor in the opposite one.
pub proof fn law_recovered_connections_are_new(
    nodes: Seq<DiagramNode>,
    edges: Seq<EdgeView>,
    connects: Seq<Connect>,
    i: int,
    j: int,
)
    requires
        ids_are_unique(nodes),
        ({
            let n = edges.len() + recovered(nodes, pairs_of(nodes, edges), connects).len();
            edges.len() <= j < n && 0 <= i < j
        }),
    ensures
        ({
            let after = edges + recovered(nodes, pairs_of(nodes, edges), connects);
            &&& !same_pair(pair_of(nodes, after[i]), pair_of(nodes, after[j]))
            &&& !(after[i].source_node == after[j].source_node && after[i].source_port
                == after[j].source_port && after[i].target_node == after[j].target_node
                && after[i].target_port == after[j].target_port)
            &&& !(after[i].source_node == after[j].target_node && after[i].source_port
                == after[j].target_port && after[i].target_node == after[j].source_node
                && after[i].target_port == after[j].source_port)
        }),
    decreases connects.len(),
{
    let pairs = pairs_of(nodes, edges);
    let rest = connects.drop_last();
    let done = recovered(nodes, pairs, rest);
    let all = recovered(nodes, pairs, connects);
    lemma_pairs_after(nodes, pairs, rest);
    lemma_connection_has_its_pair(nodes, connects.last());
    if j < edges.len() + done.len() {
        law_recovered_connections_are_new(nodes, edges, rest, i, j);
        assert((edges + done)[i] == (edges + all)[i]);
        assert((edges + done)[j] == (edges + all)[j]);
    } else {
        let (e, p) = connection_of(nodes, connects.last())->0;
        let before = pairs_after(nodes, pairs, rest);
        assert(before =~= pairs_of(nodes, edges + done));
        assert(!has_pair(before, p));
        assert(before[i] == pair_of(nodes, (edges + all)[i]));
        assert(!same_pair(before[i], p));
        assert((edges + all)[j] == e);
    }
}

/// The class that a path leads to from a class: each step goes to the nested
/// class at that place. None where there is no such class.
pub open spec fn class_under(c: ClassDef, path: Seq<int>) -> Option<ClassDef>
    decreases path.len(),
{
    if path.len() == 0 {
        Some(c)
    } else if 0 <= path[0] < c.classes@.len() {
        class_under(c.classes@[path[0]], path.drop_first())
    } else {
        None
    }
}

proof fn lemma_connects_in(eqs: Seq<Equation>)
    ensures
        forall|j: int|
            0 <= j < eqs.len() && #[trigger] eqs[j] is Connect ==> connects_in(eqs).contains(
                eqs[j]->Connect_0,
            ),
        forall|k: int|
            0 <= k < connects_in(eqs).len() ==> eqs.contains(
                Equation::Connect(#[trigger] connects_in(eqs)[k]),
            ),
    decreases eqs.len(),
{
    if eqs.len() > 0 {
        let rest = eqs.drop_last();
        lemma_connects_in(rest);
        let before = connects_in(rest);
        let all = connects_in(eqs);
        assert forall|j: int| 0 <= j < eqs.len() && #[trigger] eqs[j] is Connect implies all.contains(
            eqs[j]->Connect_0,
        ) by {
            if j < rest.len() {
                assert(rest[j] == eqs[j]);
                let k = choose|k: int| 0 <= k < before.len() && before[k] == eqs[j]->Connect_0;
                assert(all[k] == eqs[j]->Connect_0);
            } else {
                assert(all[before.len() as int] == eqs[j]->Connect_0);
            }
        }
        assert forall|k: int| 0 <= k < all.len() implies eqs.contains(
            Equation::Connect(#[trigger] all[k]),
        ) by {
            if k < before.len() {
                assert(all[k] == before[k]);
                let j = choose|j: int|
                    0 <= j < rest.len() && rest[j] == Equation::Connect(before[k]);
                assert(eqs[j] == rest[j]);
            } else {
                assert(eqs[eqs.len() - 1] == Equation::Connect(all[k]));
            }
        }
    }
}

proof fn lemma_nested_is_read(c: ClassDef, n: nat, k: int, x: Connect)
    requires
        0 <= k < n <= c.classes@.len(),
        class_connects(c.classes@[k]).contains(x),
    ensures
        nested_connects(c, n).contains(x),
    decreases n,
{
    let before = nested_connects(c, (n - 1) as nat);
    let last = class_connects(c.classes@[n - 1]);
    if k == n - 1 {
        let m = choose|m: int| 0 <= m < last.len() && last[m] == x;
        assert(nested_connects(c, n)[before.len() + m] == x);
    } else {
        lemma_nested_is_read(c, (n - 1) as nat, k, x);
        let m = choose|m: int| 0 <= m < before.len() && before[m] == x;
        assert(nested_connects(c, n)[m] == x);
    }
}

proof fn lemma_class_is_read(c: ClassDef, path: Seq<int>, j: int)
    requires
        class_under(c, path) is Some,
        0 <= j < class_under(c, path)->0.equations@.len(),
        class_under(c, path)->0.equations@[j] is Connect,
    ensures
        class_connects(c).contains(class_under(c, path)->0.equations@[j]->Connect_0),
    decreases path.len(),
{
    let x = class_under(c, path)->0.equations@[j]->Connect_0;
    let own = connects_in(c.equations@);
    let nested = nested_connects(c, c.classes@.len());
    if path.len() == 0 {
        lemma_connects_in(c.equations@);
        let k = choose|k: int| 0 <= k < own.len() && own[k] == x;
        assert(class_connects(c)[k] == x);
    } else {
        lemma_class_is_read(c.classes@[path[0]], path.drop_first(), j);
        lemma_nested_is_read(c, c.classes@.len(), path[0], x);
        let k = choose|k: int| 0 <= k < nested.len() && nested[k] == x;
        assert(class_connects(c)[own.len() + k] == x);
    }
}

proof fn lemma_file_is_read(classes: Seq<ClassDef>, i: int, x: Connect)
    requires
        0 <= i < classes.len(),
        class_connects(classes[i]).contains(x),
    ensures
        file_connects(classes).contains(x),
    decreases classes.len(),
{
    let rest = classes.drop_last();
    let before = file_connects(rest);
    let last = class_connects(classes.last());
    if i < rest.len() {
        assert(rest[i] == classes[i]);
        lemma_file_is_read(rest, i, x);
        let k = choose|k: int| 0 <= k < before.len() && before[k] == x;
        assert(file_connects(classes)[k] == x);
    } else {
        let k = choose|k: int| 0 <= k < last.len() && last[k] == x;
        assert(file_connects(classes)[before.len() + k] == x);
    }
}

/// Every connect equation of the file is read, whichever class it stands in and
/// however deep that class is nested.
pub proof fn law_every_connect_equation_is_read(
    classes: Seq<ClassDef>,
    i: int,
    path: Seq<int>,
    j: int,
)
    requires
        0 <= i < classes.len(),
        class_under(classes[i], path) is Some,
        0 <= j < class_under(classes[i], path)->0.equations@.len(),
        class_under(classes[i], path)->0.equations@[j] is Connect,
    ensures
        file_connects(classes).contains(
            class_under(classes[i], path)->0.equations@[j]->Connect_0,
        ),
{
    lemma_class_is_read(classes[i], path, j);
    lemma_file_is_read(classes, i, class_under(classes[i], path)->0.equations@[j]->Connect_0);
}

proof fn lemma_source_in_class(c: ClassDef, x: Connect) -> (at: (Seq<int>, int))
    requires
        class_connects(c).contains(x),
    ensures
        class_under(c, at.0) is Some,
        0 <= at.1 < class_under(c, at.0)->0.equations@.len(),
        class_under(c, at.0)->0.equations@[at.1] == Equation::Connect(x),
    decreases c, c.classes@.len() + 1,
{
    let own = connects_in(c.equations@);
    let nested = nested_connects(c, c.classes@.len());
    let k = choose|k: int| 0 <= k < class_connects(c).len() && class_connects(c)[k] == x;
    if k < own.len() {
        lemma_connects_in(c.equations@);
        assert(own[k] == x);
        let j = choose|j: int|
            0 <= j < c.equations@.len() && c.equations@[j] == Equation::Connect(own[k]);
        (Seq::empty(), j)
    } else {
        assert(nested[k - own.len()] == x);
        lemma_source_in_nested(c, c.classes@.len(), x)
    }
}

proof fn lemma_source_in_nested(c: ClassDef, n: nat, x: Connect) -> (at: (Seq<int>, int))
    requires
        n <= c.classes@.len(),
        nested_connects(c, n).contains(x),
    ensures
        class_under(c, at.0) is Some,
        0 <= at.1 < class_under(c, at.0)->0.equations@.len(),
        class_under(c, at.0)->0.equations@[at.1] == Equation::Connect(x),
    decreases c, n,
{
    let before = nested_connects(c, (n - 1) as nat);
    let last = class_connects(c.classes@[n - 1]);
    let all = nested_connects(c, n);
    let k = choose|k: int| 0 <= k < all.len() && all[k] == x;
    if k < before.len() {
        assert(before[k] == x);
        lemma_source_in_nested(c, (n - 1) as nat, x)
    } else {
        assert(last[k - before.len()] == x);
        let at = lemma_source_in_class(c.classes@[n - 1], x);
        let path = seq![n - 1] + at.0;
        assert(path.drop_first() =~= at.0);
        (path, at.1)
    }
}

/// Nothing else is read: each equation read stands in a class of the file.
pub proof fn law_only_connect_equations_are_read(classes: Seq<ClassDef>, x: Connect) -> (at: (
    int,
    Seq<int>,
    int,
))
    requires
        file_connects(classes).contains(x),
    ensures
        0 <= at.0 < classes.len(),
        class_under(classes[at.0], at.1) is Some,
        0 <= at.2 < class_under(classes[at.0], at.1)->0.equations@.len(),
        class_under(classes[at.0], at.1)->0.equations@[at.2] == Equation::Connect(x),
    decreases classes.len(),
{
    let rest = classes.drop_last();
    let before = file_connects(rest);
    let last = class_connects(classes.last());
    let all = file_connects(classes);
    let k = choose|k: int| 0 <= k < all.len() && all[k] == x;
    if k < before.len() {
        assert(before[k] == x);
        let at = law_only_connect_equations_are_read(rest, x);
        assert(rest[at.0] == classes[at.0]);
        at
    } else {
        assert(last[k - before.len()] == x);
        let at = lemma_source_in_class(classes.last(), x);
        (classes.len() - 1, at.0, at.1)
    }
}

/// Whether a connection runs between port `p` of the component named `a` and port
/// `q` of the component named `b`, from the one to the other.
pub open spec fn runs_between(
    nodes: Seq<DiagramNode>,
    e: EdgeView,
    a: Seq<char>,
    p: Seq<char>,
    b: Seq<char>,
    q: Seq<char>,
) -> bool {
    &&& e.source_port == p
    &&& e.target_port == q
    &&& exists|u: int|
        0 <= u < nodes.len() && (#[trigger] nodes[u]).id == e.source_node
            && nodes[u].instance_name@ == a
    &&& exists|v: int|
        0 <= v < nodes.len() && (#[trigger] nodes[v]).id == e.target_node
            && nodes[v].instance_name@ == b
}

proof fn lemma_pair_runs_between(nodes: Seq<DiagramNode>, e: EdgeView)
    ensures
        ({
            let p = pair_of(nodes, e);
            p.0.0.len() > 0 && p.1.0.len() > 0 ==> runs_between(
                nodes,
                e,
                p.0.0,
                p.0.1,
                p.1.0,
                p.1.1,
            )
        }),
{
    crate::model::lemma_first_node(nodes, e.source_node, 0);
    crate::model::lemma_first_node(nodes, e.target_node, 0);
    let u = crate::model::first_node(nodes, e.source_node, 0);
    let v = crate::model::first_node(nodes, e.target_node, 0);
    let p = pair_of(nodes, e);
    if p.0.0.len() > 0 && p.1.0.len() > 0 {
        assert(nodes[u].id == e.source_node && nodes[u].instance_name@ == p.0.0);
        assert(nodes[v].id == e.target_node && nodes[v].instance_name@ == p.1.0);
    }
}

/// After recovery the diagram shows every connect equation of the file between
/// two of its components: where the equation at place `j` of some class joins
/// port `p` of component `a` to port `q` of component `b`, a connection runs
/// between the two, in one direction or the other. A reference names the
/// component by its first part, and the port by the rest.
pub proof fn law_every_connect_equation_is_shown(
    nodes: Seq<DiagramNode>,
    edges: Seq<EdgeView>,
    classes: Seq<ClassDef>,
    i: int,
    path: Seq<int>,
    j: int,
    s: int,
    t: int,
)
    requires
        ids_are_unique(nodes),
        0 <= i < classes.len(),
        class_under(classes[i], path) is Some,
        0 <= j < class_under(classes[i], path)->0.equations@.len(),
        class_under(classes[i], path)->0.equations@[j] is Connect,
        ({
            let x = class_under(classes[i], path)->0.equations@[j]->Connect_0;
            &&& x.lhs@.len() >= 2
            &&& x.rhs@.len() >= 2
            &&& x.lhs@[0]@.len() > 0
            &&& x.rhs@[0]@.len() > 0
            &&& 0 <= s < nodes.len() && nodes[s].instance_name@ == x.lhs@[0]@
            &&& 0 <= t < nodes.len() && nodes[t].instance_name@ == x.rhs@[0]@
        }),
    ensures
        ({
            let x = class_under(classes[i], path)->0.equations@[j]->Connect_0;
            let after = edges + recovered(nodes, pairs_of(nodes, edges), file_connects(classes));
            let a = x.lhs@[0]@;
            let p = joined(views(x.lhs@).skip(1), "."@);
            let b = x.rhs@[0]@;
            let q = joined(views(x.rhs@).skip(1), "."@);
            exists|k: int|
                0 <= k < after.len() && (runs_between(nodes, #[trigger] after[k], a, p, b, q)
                    || runs_between(nodes, after[k], b, q, a, p))
        }),
{
    let x = class_under(classes[i], path)->0.equations@[j]->Connect_0;
    law_every_connect_equation_is_read(classes, i, path, j);
    let connects = file_connects(classes);
    let pairs = pairs_of(nodes, edges);
    let after = edges + recovered(nodes, pairs, connects);
    lemma_pairs_after(nodes, pairs, connects);
    let m = choose|m: int| 0 <= m < connects.len() && connects[m] == x;
    assert(views(x.lhs@)[0] == x.lhs@[0]@);
    assert(views(x.rhs@)[0] == x.rhs@[0]@);
    lemma_named_node_found(nodes, x.lhs@[0]@, s);
    lemma_named_node_found(nodes, x.rhs@[0]@, t);
    let (e, pair) = connection_of(nodes, connects[m])->0;
    assert(connection_of(nodes, connects[m]) == Some((e, pair)));
    let all = pairs_after(nodes, pairs, connects);
    assert(all =~= pairs_of(nodes, after));
    let k = choose|k: int| 0 <= k < all.len() && same_pair(#[trigger] all[k], pair);
    assert(all[k] == pair_of(nodes, after[k]));
    lemma_pair_runs_between(nodes, after[k]);
}

proof fn lemma_named_node_found(nodes: Seq<DiagramNode>, name: Seq<char>, s: int)
    requires
        0 <= s < nodes.len(),
        nodes[s].instance_name@ == name,
    ensures
        s <= named_node(nodes, name) < nodes.len(),
        nodes[named_node(nodes, name)].instance_name@ == name,
    decreases nodes.len(),
{
    if nodes.last().instance_name@ != name {
        assert(nodes.drop_last()[s] == nodes[s]);
        lemma_named_node_found(nodes.drop_last(), name, s);
    }
}

proof fn lemma_recovered_from(
    nodes: Seq<DiagramNode>,
    pairs: Seq<PairView>,
    connects: Seq<Connect>,
    k: int,
) -> (m: int)
    requires
        0 <= k < recovered(nodes, pairs, connects).len(),
    ensures
        0 <= m < connects.len(),
        connection_of(nodes, connects[m]) matches Some((e, p)) && e == recovered(
            nodes,
            pairs,
            connects,
        )[k],
    decreases connects.len(),
{
    let rest = connects.drop_last();
    let before = recovered(nodes, pairs, rest);
    if k < before.len() {
        let m = lemma_recovered_from(nodes, pairs, rest, k);
        assert(rest[m] == connects[m]);
        m
    } else {
        connects.len() - 1
    }
}

/// Recovery invents nothing: each connection that it adds is made by a connect
/// equation of a class of the file, from the port that its first reference names
/// to the one that its second names, and has no bends.
pub proof fn law_recovered_connections_stand_in_the_file(
    nodes: Seq<DiagramNode>,
    edges: Seq<EdgeView>,
    classes: Seq<ClassDef>,
    k: int,
) -> (at: (int, Seq<int>, int))
    requires
        0 <= k < recovered(nodes, pairs_of(nodes, edges), file_connects(classes)).len(),
    ensures
        0 <= at.0 < classes.len(),
        class_under(classes[at.0], at.1) is Some,
        0 <= at.2 < class_under(classes[at.0], at.1)->0.equations@.len(),
        class_under(classes[at.0], at.1)->0.equations@[at.2] is Connect,
        ({
            let x = class_under(classes[at.0], at.1)->0.equations@[at.2]->Connect_0;
            let e = recovered(nodes, pairs_of(nodes, edges), file_connects(classes))[k];
            &&& x.lhs@.len() >= 2
            &&& x.rhs@.len() >= 2
            &&& runs_between(
                nodes,
                e,
                x.lhs@[0]@,
                joined(views(x.lhs@).skip(1), "."@),
                x.rhs@[0]@,
                joined(views(x.rhs@).skip(1), "."@),
            )
            &&& e.waypoints.len() == 0
        }),
{
    let connects = file_connects(classes);
    let pairs = pairs_of(nodes, edges);
    let m = lemma_recovered_from(nodes, pairs, connects, k);
    let x = connects[m];
    assert(connects.contains(x));
    let at = law_only_connect_equations_are_read(classes, x);
    assert(views(x.lhs@)[0] == x.lhs@[0]@);
    assert(views(x.rhs@)[0] == x.rhs@[0]@);
    lemma_named_node(nodes, x.lhs@[0]@);
    lemma_named_node(nodes, x.rhs@[0]@);
    let u = named_node(nodes, x.lhs@[0]@);
    let v = named_node(nodes, x.rhs@[0]@);
    let e = recovered(nodes, pairs, connects)[k];
    assert(nodes[u].id == e.source_node && nodes[u].instance_name@ == x.lhs@[0]@);
    assert(nodes[v].id == e.target_node && nodes[v].instance_name@ == x.rhs@[0]@);
    at
}

/// A connection is known by its contents: the two components with their ports, in
/// this order, and the bends.
pub proof fn law_connections_are_known_by_their_contents(edges: Seq<DiagramEdge>, i: int)
    requires
        0 <= i < edges.len(),
    ensures
        edge_views(edges).len() == edges.len(),
        edge_views(edges)[i].source_node == edges[i].source_node,
        edge_views(edges)[i].source_port == edges[i].source_port@,
        edge_views(edges)[i].target_node == edges[i].target_node,
        edge_views(edges)[i].target_port == edges[i].target_port@,
        edge_views(edges)[i].waypoints == edges[i].waypoints@,
{
}

} // verus!
