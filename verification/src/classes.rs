//! Modelica classes as the parser reports them, and the ways a class is found
//! by name.
use crate::coords::ModelicaPos;
use crate::fixed::Fixed;
use crate::model::Rgb;
use crate::text::{
    joined, join_text, leaf, leaf_of, same_text, split, split_text, strip_prefix, text3, trim_char,
    trimmed, views, without_prefix,
};
use vstd::prelude::*;

verus! {

#[derive(Clone, Copy, Debug, PartialEq, Eq, Structural)]
pub enum ClassType {
    Model,
    Block,
    Class,
    Connector,
    Record,
    Type,
    Package,
    Function,
    Operator,
}

#[derive(Clone, Copy, Debug, PartialEq, Eq, Structural)]
pub enum Causality {
    Input,
    Output,
    Acausal,
}

/// A component declaration of a class.
#[derive(Debug, PartialEq, Eq)]
pub struct Component {
    pub name: String,
    pub is_parameter: bool,
    pub causality: Causality,
}

/// A connect equation: the parts of the two dotted references.
#[derive(Debug, PartialEq, Eq)]
pub struct Connect {
    pub lhs: Vec<String>,
    pub rhs: Vec<String>,
}

#[derive(Debug, PartialEq, Eq)]
pub enum Equation {
    Connect(Connect),
    Other,
}

/// Two opposite corners of a graphic, as Modelica source writes them.
#[derive(Clone, Copy, Debug, PartialEq, Eq, Structural)]
pub struct Extent {
    pub p1: ModelicaPos,
    pub p2: ModelicaPos,
}

/// A text of a diagram annotation.
#[derive(Debug, PartialEq, Eq)]
pub struct TextItem {
    pub text_string: String,
    pub font_size: Fixed,
    pub text_color: Option<Rgb>,
    pub extent: Extent,
}

/// A plot of a diagram annotation.
#[derive(Debug, PartialEq, Eq)]
pub struct PlotItem {
    pub signal: String,
    pub title: String,
    pub extent: Extent,
}

/// An item of a diagram annotation. Shapes are known by the handles under
/// which the host keeps them.
#[derive(Debug, PartialEq, Eq)]
pub enum GraphicItem {
    Text(TextItem),
    Plot(PlotItem),
    Shape(u64),
}

#[derive(Debug, PartialEq, Eq)]
pub struct ClassDef {
    pub name: String,
    pub class_type: ClassType,
    /// The strings of the class description.
    pub description: Vec<String>,
    pub components: Vec<Component>,
    pub equations: Vec<Equation>,
    pub classes: Vec<ClassDef>,
    /// The graphics of the class's diagram annotation, where it has one.
    pub diagram: Option<Vec<GraphicItem>>,
}

/// A parsed file.
#[derive(Debug, PartialEq, Eq)]
pub struct StoredDefinition {
    /// The parts of the `within` clause, where there is one.
    pub within: Option<Vec<String>>,
    pub classes: Vec<ClassDef>,
}

// ── Finding a class ──────────────────────────────────────────────────────

/// The first class named `name`, at or after place `from`.
pub open spec fn class_named(classes: Seq<ClassDef>, name: Seq<char>, from: int) -> Option<ClassDef>
    decreases classes.len() - from,
{
    if from >= classes.len() {
        None
    } else if classes[from].name@ == name {
        Some(classes[from])
    } else {
        class_named(classes, name, from + 1)
    }
}

/// The class that a path leads to, a step into nested classes for each part.
pub open spec fn walked(classes: Seq<ClassDef>, path: Seq<Seq<char>>) -> Option<ClassDef>
    decreases path.len(),
{
    if path.len() == 0 {
        None
    } else {
        match class_named(classes, path[0], 0) {
            None => None,
            Some(c) => if path.len() == 1 {
                Some(c)
            } else {
                walked(c.classes@, path.drop_first())
            },
        }
    }
}

/// The dotted package of a `within` clause.
pub open spec fn within_prefix(within: Option<Vec<String>>) -> Seq<char> {
    match within {
        Some(parts) => joined(views(parts@), "."@),
        None => Seq::empty(),
    }
}

/// `qualified` without the package that the file lies within, and without the
/// dot behind it.
pub open spec fn inside_file(within: Option<Vec<String>>, qualified: Seq<char>) -> Seq<char> {
    let prefix = within_prefix(within);
    match without_prefix(qualified, prefix) {
        Some(rest) => if prefix.len() == 0 {
            qualified
        } else {
            match without_prefix(rest, "."@) {
                Some(r) => r,
                None => rest,
            }
        },
        None => qualified,
    }
}

/// The class that the qualified name leads to in the file.
pub open spec fn qualified_class(ast: StoredDefinition, qualified: Seq<char>) -> Option<ClassDef> {
    walked(ast.classes@, split(inside_file(ast.within, qualified), '.'))
}

/// The first class that is not a package, at or after place `from`.
pub open spec fn first_proper_class(classes: Seq<ClassDef>, from: int) -> Option<ClassDef>
    decreases classes.len() - from,
{
    if from >= classes.len() {
        None
    } else if classes[from].class_type != ClassType::Package {
        Some(classes[from])
    } else {
        first_proper_class(classes, from + 1)
    }
}

/// The first class named `name` among the classes nested one level deep, in
/// the outer classes at or after place `from`.
pub open spec fn nested_class(classes: Seq<ClassDef>, name: Seq<char>, from: int) -> Option<ClassDef>
    decreases classes.len() - from,
{
    if from >= classes.len() {
        None
    } else {
        match class_named(classes[from].classes@, name, 0) {
            Some(c) => Some(c),
            None => nested_class(classes, name, from + 1),
        }
    }
}

/// The class by its short name: at the top, else one level deep, else the
/// first class of the file that is not a package.
pub open spec fn located_class(ast: StoredDefinition, name: Seq<char>) -> Option<ClassDef> {
    match class_named(ast.classes@, name, 0) {
        Some(c) => Some(c),
        None => match nested_class(ast.classes@, name, 0) {
            Some(c) => Some(c),
            None => first_proper_class(ast.classes@, 0),
        },
    }
}

/// A base class by its name: at the top by the whole name, at the top by its
/// last part, or one level deep by its last part.
pub open spec fn local_base_class(ast: StoredDefinition, name: Seq<char>) -> Option<ClassDef> {
    match class_named(ast.classes@, name, 0) {
        Some(c) => Some(c),
        None => match class_named(ast.classes@, leaf(name), 0) {
            Some(c) => Some(c),
            None => nested_class(ast.classes@, leaf(name), 0),
        },
    }
}

/// Whether an executable search found what `found` says.
pub open spec fn found_class(r: Option<&ClassDef>, found: Option<ClassDef>) -> bool {
    match r {
        Some(c) => found == Some(*c),
        None => found is None,
    }
}

fn find_class<'a>(classes: &'a Vec<ClassDef>, name: &str) -> (r: Option<&'a ClassDef>)
    ensures
        found_class(r, class_named(classes@, name@, 0)),
{
    let mut i: usize = 0;
    while i < classes.len()
        invariant
            i <= classes@.len(),
            class_named(classes@, name@, 0) == class_named(classes@, name@, i as int),
        decreases classes@.len() - i,
    {
        if same_text(classes[i].name.as_str(), name) {
            return Some(&classes[i]);
        }
        i += 1;
    }
    None
}

fn walk_path<'a>(classes: &'a Vec<ClassDef>, path: &Vec<String>, from: usize) -> (r: Option<
    &'a ClassDef,
>)
    requires
        from < path@.len(),
    ensures
        found_class(r, walked(classes@, views(path@).skip(from as int))),
    decreases path@.len() - from,
{
    let ghost rest = views(path@).skip(from as int);
    assert(rest[0] == path@[from as int]@);
    let last: usize = path.len() - 1;
    match find_class(classes, path[from].as_str()) {
        None => None,
        Some(c) => if from == last {
            Some(c)
        } else {
            assert(rest.drop_first() =~= views(path@).skip(from + 1));
            walk_path(&c.classes, path, from + 1)
        },
    }
}

/// The dotted package of a `within` clause.
fn package_of(within: &Option<Vec<String>>) -> (r: String)
    ensures
        r@ == within_prefix(*within),
{
    match within {
        Some(parts) => {
            assert(views(parts@).skip(0) =~= views(parts@));
            join_text(parts, 0, ".")
        },
        None => String::new(),
    }
}

/// The class that a qualified name leads to in a file. The package that the
/// file lies within is not a part of the path.
pub fn walk_qualified<'a>(ast: &'a StoredDefinition, qualified: &str) -> (r: Option<&'a ClassDef>)
    ensures
        found_class(r, qualified_class(*ast, qualified@)),
{
    let prefix = package_of(&ast.within);
    let stripped: String = if prefix.as_str().is_empty() {
        qualified.to_owned()
    } else {
        match strip_prefix(qualified, prefix.as_str()) {
            Some(rest) => match strip_prefix(rest.as_str(), ".") {
                Some(r) => r,
                None => rest,
            },
            None => qualified.to_owned(),
        }
    };
    let segments = split_text(stripped.as_str(), '.');
    assert(views(segments@).skip(0) =~= views(segments@));
    walk_path(&ast.classes, &segments, 0)
}

/// A class is found by its full name in the file of its package: the package
/// that the file lies within, and the dot behind it, are not looked for.
pub proof fn law_package_of_file_is_not_walked(within: Vec<String>, q: Seq<char>)
    requires
        within_prefix(Some(within)).len() > 0,
    ensures
        inside_file(Some(within), within_prefix(Some(within)) + "."@ + q) == q,
{
    reveal_strlit(".");
    let p = within_prefix(Some(within));
    let full = p + "."@ + q;
    assert(p =~= full.subrange(0, p.len() as int));
    let rest = full.skip(p.len() as int);
    assert(rest =~= "."@ + q);
    assert("."@ =~= rest.subrange(0, 1));
    assert(rest.skip(1) =~= q);
}

fn find_nested<'a>(classes: &'a Vec<ClassDef>, name: &str) -> (r: Option<&'a ClassDef>)
    ensures
        found_class(r, nested_class(classes@, name@, 0)),
{
    let mut i: usize = 0;
    while i < classes.len()
        invariant
            i <= classes@.len(),
            nested_class(classes@, name@, 0) == nested_class(classes@, name@, i as int),
        decreases classes@.len() - i,
    {
        if let Some(c) = find_class(&classes[i].classes, name) {
            return Some(c);
        }
        i += 1;
    }
    None
}

/// The first class of a file that is not a package.
pub fn first_non_package<'a>(ast: &'a StoredDefinition) -> (r: Option<&'a ClassDef>)
    ensures
        found_class(r, first_proper_class(ast.classes@, 0)),
{
    let classes = &ast.classes;
    let mut i: usize = 0;
    while i < classes.len()
        invariant
            i <= classes@.len(),
            classes@ == ast.classes@,
            first_proper_class(classes@, 0) == first_proper_class(classes@, i as int),
        decreases classes@.len() - i,
    {
        if classes[i].class_type != ClassType::Package {
            return Some(&classes[i]);
        }
        i += 1;
    }
    None
}

/// The class by its short name: at the top of the file, else one level deep,
/// else the first class of the file that is not a package.
pub fn locate_class<'a>(ast: &'a StoredDefinition, name: &str) -> (r: Option<&'a ClassDef>)
    ensures
        found_class(r, located_class(*ast, name@)),
{
    if let Some(c) = find_class(&ast.classes, name) {
        return Some(c);
    }
    if let Some(c) = find_nested(&ast.classes, name) {
        return Some(c);
    }
    first_non_package(ast)
}

/// A base class of the file by its name.
pub fn resolve_base_class<'a>(ast: &'a StoredDefinition, name: &str) -> (r: Option<&'a ClassDef>)
    ensures
        found_class(r, local_base_class(*ast, name@)),
{
    if let Some(c) = find_class(&ast.classes, name) {
        return Some(c);
    }
    let last = leaf_of(name);
    if let Some(c) = find_class(&ast.classes, last.as_str()) {
        return Some(c);
    }
    find_nested(&ast.classes, last.as_str())
}

/// The diagram graphics of the class `target`, or of the first class that is
/// not a package where there is no target.
pub open spec fn target_diagram(ast: StoredDefinition, target: Option<Seq<char>>) -> Option<
    Vec<GraphicItem>,
> {
    let class = match target {
        Some(q) => qualified_class(ast, q),
        None => first_proper_class(ast.classes@, 0),
    };
    match class {
        Some(c) => c.diagram,
        None => None,
    }
}

/// The diagram graphics of the class `target`, or of the first class that is
/// not a package where there is no target.
pub fn diagram_annotation_for_target<'a>(
    ast: &'a StoredDefinition,
    target: Option<&str>,
) -> (r: Option<&'a Vec<GraphicItem>>)
    ensures
        match r {
            Some(g) => target_diagram(
                *ast,
                match target {
                    Some(t) => Some(t@),
                    None => None,
                },
            ) == Some(*g),
            None => target_diagram(
                *ast,
                match target {
                    Some(t) => Some(t@),
                    None => None,
                },
            ) is None,
        },
{
    let class = match target {
        Some(q) => walk_qualified(ast, q),
        None => first_non_package(ast),
    };
    match class {
        Some(c) => match &c.diagram {
            Some(g) => Some(g),
            None => None,
        },
        None => None,
    }
}

// ── What a class says of itself ──────────────────────────────────────────

/// The name by which scopes know the class: its package and its name.
pub open spec fn class_context_spec(within: Option<Vec<String>>, class_name: Seq<char>) -> Seq<char> {
    let pkg = within_prefix(within);
    if pkg.len() == 0 {
        class_name
    } else {
        pkg + "."@ + class_name
    }
}

/// The name by which scopes know the class: its package and its name.
pub fn class_context(ast: &StoredDefinition, class_name: &str) -> (r: String)
    ensures
        r@ == class_context_spec(ast.within, class_name@),
{
    let pkg = package_of(&ast.within);
    if pkg.as_str().is_empty() {
        class_name.to_owned()
    } else {
        text3(pkg.as_str(), ".", class_name)
    }
}

/// The keyword of a kind of class.
pub open spec fn keyword_spec(t: ClassType) -> Seq<char> {
    match t {
        ClassType::Model => "model"@,
        ClassType::Block => "block"@,
        ClassType::Class => "class"@,
        ClassType::Connector => "connector"@,
        ClassType::Record => "record"@,
        ClassType::Type => "type"@,
        ClassType::Package => "package"@,
        ClassType::Function => "function"@,
        ClassType::Operator => "operator"@,
    }
}

/// The keyword of a kind of class.
pub fn class_keyword(t: ClassType) -> (r: &'static str)
    ensures
        r@ == keyword_spec(t),
{
    match t {
        ClassType::Model => "model",
        ClassType::Block => "block",
        ClassType::Class => "class",
        ClassType::Connector => "connector",
        ClassType::Record => "record",
        ClassType::Type => "type",
        ClassType::Package => "package",
        ClassType::Function => "function",
        ClassType::Operator => "operator",
    }
}

/// The letter of the badge for a kind of class, by its keyword.
pub open spec fn badge_letter_spec(keyword: Seq<char>) -> Seq<char> {
    if keyword == "model"@ {
        "M"@
    } else if keyword == "block"@ {
        "B"@
    } else if keyword == "class"@ {
        "C"@
    } else if keyword == "connector"@ {
        "X"@
    } else if keyword == "record"@ {
        "R"@
    } else if keyword == "type"@ {
        "T"@
    } else if keyword == "package"@ {
        "P"@
    } else if keyword == "function"@ {
        "F"@
    } else {
        "?"@
    }
}

/// The letter of the badge for a kind of class, by its keyword.
pub fn class_badge_letter(keyword: &str) -> (r: &'static str)
    ensures
        r@ == badge_letter_spec(keyword@),
{
    if same_text(keyword, "model") {
        "M"
    } else if same_text(keyword, "block") {
        "B"
    } else if same_text(keyword, "class") {
        "C"
    } else if same_text(keyword, "connector") {
        "X"
    } else if same_text(keyword, "record") {
        "R"
    } else if same_text(keyword, "type") {
        "T"
    } else if same_text(keyword, "package") {
        "P"
    } else if same_text(keyword, "function") {
        "F"
    } else {
        "?"
    }
}

/// What the overlay of an empty diagram tells of a class.
#[derive(Debug, PartialEq, Eq)]
pub struct ClassInfo {
    pub class_type: &'static str,
    pub description: Option<String>,
    pub params: Vec<String>,
    pub inputs: Vec<String>,
    pub outputs: Vec<String>,
}

/// The first string of a class description without its quotes, unless it is
/// empty.
pub open spec fn description_spec(strings: Seq<Seq<char>>) -> Option<Seq<char>> {
    if strings.len() > 0 && trimmed(strings[0], '"').len() > 0 {
        Some(trimmed(strings[0], '"'))
    } else {
        None
    }
}

pub open spec fn is_input(c: Component) -> bool {
    c.causality == Causality::Input
}

pub open spec fn is_output(c: Component) -> bool {
    c.causality == Causality::Output
}

/// The names, in order, of the components that `pick` picks.
pub open spec fn names_where(cs: Seq<Component>, pick: spec_fn(Component) -> bool) -> Seq<Seq<char>> {
    cs.filter(pick).map_values(|c: Component| c.name@)
}

pub open spec fn tells_of(info: ClassInfo, c: ClassDef) -> bool {
    &&& info.class_type@ == keyword_spec(c.class_type)
    &&& match info.description {
        Some(d) => description_spec(views(c.description@)) == Some(d@),
        None => description_spec(views(c.description@)) is None,
    }
    &&& views(info.params@) == names_where(c.components@, |c: Component| c.is_parameter)
    &&& views(info.inputs@) == names_where(c.components@, |c: Component| is_input(c))
    &&& views(info.outputs@) == names_where(c.components@, |c: Component| is_output(c))
}

proof fn lemma_names_push(cs: Seq<Component>, i: int, pick: spec_fn(Component) -> bool)
    requires
        0 <= i < cs.len(),
    ensures
        names_where(cs.take(i + 1), pick) == (if pick(cs[i]) {
            names_where(cs.take(i), pick).push(cs[i].name@)
        } else {
            names_where(cs.take(i), pick)
        }),
{
    assert(cs.take(i + 1) =~= cs.take(i).push(cs[i]));
    reveal_with_fuel(Seq::filter, 2);
    assert(cs.take(i + 1).drop_last() =~= cs.take(i));
    assert(names_where(cs.take(i + 1), pick) =~= (if pick(cs[i]) {
        names_where(cs.take(i), pick).push(cs[i].name@)
    } else {
        names_where(cs.take(i), pick)
    }));
}

/// What the overlay of an empty diagram tells of the class `name`: nothing
/// where the file has no class to show.
pub fn empty_overlay_class_info(ast: &StoredDefinition, name: &str) -> (r: Option<ClassInfo>)
    ensures
        match r {
            Some(info) => located_class(*ast, name@) matches Some(c) && tells_of(info, c),
            None => located_class(*ast, name@) is None,
        },
{
    let class = match locate_class(ast, name) {
        Some(c) => c,
        None => {
            return None;
        },
    };
    let description = if class.description.len() > 0 {
        let d = trim_char(class.description[0].as_str(), '"');
        if d.as_str().is_empty() {
            None
        } else {
            Some(d)
        }
    } else {
        None
    };
    let ghost pick_p = |c: Component| c.is_parameter;
    let ghost pick_i = |c: Component| is_input(c);
    let ghost pick_o = |c: Component| is_output(c);
    let mut params: Vec<String> = Vec::new();
    let mut inputs: Vec<String> = Vec::new();
    let mut outputs: Vec<String> = Vec::new();
    let cs = &class.components;
    let mut i: usize = 0;
    proof {
        reveal_with_fuel(Seq::filter, 1);
        assert(cs@.take(0) =~= Seq::empty());
        assert(views(params@) =~= names_where(cs@.take(0), pick_p));
        assert(views(inputs@) =~= names_where(cs@.take(0), pick_i));
        assert(views(outputs@) =~= names_where(cs@.take(0), pick_o));
    }
    while i < cs.len()
        invariant
            i <= cs@.len(),
            pick_p == (|c: Component| c.is_parameter),
            pick_i == (|c: Component| is_input(c)),
            pick_o == (|c: Component| is_output(c)),
            views(params@) == names_where(cs@.take(i as int), pick_p),
            views(inputs@) == names_where(cs@.take(i as int), pick_i),
            views(outputs@) == names_where(cs@.take(i as int), pick_o),
        decreases cs@.len() - i,
    {
        let c = &cs[i];
        proof {
            lemma_names_push(cs@, i as int, pick_p);
            lemma_names_push(cs@, i as int, pick_i);
            lemma_names_push(cs@, i as int, pick_o);
        }
        let ghost (p0, i0, o0) = (params@, inputs@, outputs@);
        if c.is_parameter {
            params.push(c.name.clone());
            assert(views(params@) =~= views(p0).push(c.name@));
        }
        match c.causality {
            Causality::Input => {
                inputs.push(c.name.clone());
                assert(views(inputs@) =~= views(i0).push(c.name@));
            },
            Causality::Output => {
                outputs.push(c.name.clone());
                assert(views(outputs@) =~= views(o0).push(c.name@));
            },
            Causality::Acausal => {},
        }
        i += 1;
    }
    assert(cs@.take(i as int) =~= cs@);
    Some(
        ClassInfo {
            class_type: class_keyword(class.class_type),
            description,
            params,
            inputs,
            outputs,
        },
    )
}

// ── Laws ─────────────────────────────────────────────────────────────────

proof fn lemma_class_named(classes: Seq<ClassDef>, name: Seq<char>, from: int) -> (i: int)
    requires
        0 <= from <= classes.len(),
    ensures
        from <= i <= classes.len(),
        i < classes.len() ==> classes[i].name@ == name && class_named(classes, name, from) == Some(
            classes[i],
        ),
        i == classes.len() ==> class_named(classes, name, from) is None,
        forall|k: int| from <= k < i ==> (#[trigger] classes[k]).name@ != name,
    decreases classes.len() - from,
{
    if from >= classes.len() || classes[from].name@ == name {
        from
    } else {
        lemma_class_named(classes, name, from + 1)
    }
}

/// A name finds the first class that has it, and nothing where no class has it.
pub proof fn law_names_find_the_first_class(classes: Seq<ClassDef>, name: Seq<char>, i: int)
    requires
        0 <= i <= classes.len(),
        forall|k: int| 0 <= k < i ==> (#[trigger] classes[k]).name@ != name,
        i < classes.len() ==> classes[i].name@ == name,
    ensures
        i < classes.len() ==> class_named(classes, name, 0) == Some(classes[i]),
        i == classes.len() ==> class_named(classes, name, 0) is None,
{
    let k = lemma_class_named(classes, name, 0);
    if k < i {
        assert(classes[k].name@ != name);
    }
    if i < k {
        assert(classes[i].name@ != name);
    }
}

/// A path with one more part leads into the class that the path without it leads
/// to, and there to the class with the last part as its name. A path of one part
/// is a name.
pub proof fn law_paths_lead_into_nested_classes(
    classes: Seq<ClassDef>,
    path: Seq<Seq<char>>,
    last: Seq<char>,
)
    ensures
        walked(classes, Seq::empty()) is None,
        walked(classes, seq![last]) == class_named(classes, last, 0),
        path.len() > 0 ==> walked(classes, path.push(last)) == (match walked(classes, path) {
            Some(c) => class_named(c.classes@, last, 0),
            None => None,
        }),
    decreases path.len(),
{
    reveal_with_fuel(walked, 2);
    if path.len() > 0 {
        let longer = path.push(last);
        assert(longer.drop_first() =~= path.drop_first().push(last));
        match class_named(classes, path[0], 0) {
            None => {},
            Some(c) => {
                if path.len() == 1 {
                    assert(longer.drop_first() =~= seq![last]);
                } else {
                    law_paths_lead_into_nested_classes(c.classes@, path.drop_first(), last);
                }
            },
        }
    }
}

/// In a file that lies in no package, a dotted name leads to the inner class of
/// the outer class, and a plain name to the class at the top.
pub proof fn law_dotted_names_lead_to_inner_classes(
    ast: StoredDefinition,
    outer: Seq<char>,
    inner: Seq<char>,
)
    requires
        ast.within is None,
        !outer.contains('.'),
        !inner.contains('.'),
    ensures
        qualified_class(ast, outer) == class_named(ast.classes@, outer, 0),
        qualified_class(ast, outer + "."@ + inner) == (match class_named(ast.classes@, outer, 0) {
            Some(c) => class_named(c.classes@, inner, 0),
            None => None,
        }),
{
    reveal_strlit(".");
    assert("."@ =~= seq!['.']);
    let q = outer + "."@ + inner;
    assert(inside_file(ast.within, q) == q && inside_file(ast.within, outer) == outer) by {
        assert(Seq::<char>::empty() =~= q.subrange(0, 0));
        assert(Seq::<char>::empty() =~= outer.subrange(0, 0));
    }
    crate::text::law_split_takes_the_first_part_off(outer, inner, '.');
    crate::text::law_split_takes_the_first_part_off(inner, Seq::empty(), '.');
    assert(seq![outer] + split(inner, '.') =~= seq![outer].push(inner));
    law_paths_lead_into_nested_classes(ast.classes@, seq![outer], inner);
    law_paths_lead_into_nested_classes(ast.classes@, Seq::empty(), outer);
}

/// The name by which scopes know a class leads, in the class's own file, to the
/// class: taking the package off it again gives the class's name.
pub proof fn law_context_and_file_agree(within: Vec<String>, class_name: Seq<char>)
    ensures
        within_prefix(Some(within)).len() > 0 ==> inside_file(
            Some(within),
            class_context_spec(Some(within), class_name),
        ) == class_name,
        within_prefix(Some(within)).len() == 0 ==> class_context_spec(Some(within), class_name)
            == class_name,
        class_context_spec(None, class_name) == class_name,
{
    if within_prefix(Some(within)).len() > 0 {
        law_package_of_file_is_not_walked(within, class_name);
    }
}

proof fn lemma_first_proper(classes: Seq<ClassDef>, from: int, i: int)
    requires
        0 <= from <= i <= classes.len(),
        forall|k: int| from <= k < i ==> (#[trigger] classes[k]).class_type == ClassType::Package,
        i < classes.len() ==> classes[i].class_type != ClassType::Package,
    ensures
        i < classes.len() ==> first_proper_class(classes, from) == Some(classes[i]),
        i == classes.len() ==> first_proper_class(classes, from) is None,
    decreases i - from,
{
    if from < i {
        assert(classes[from].class_type == ClassType::Package);
        lemma_first_proper(classes, from + 1, i);
    }
}

/// The class that a file shows by itself is its first class that is no package.
pub proof fn law_packages_are_passed_over(classes: Seq<ClassDef>, i: int)
    requires
        0 <= i <= classes.len(),
        forall|k: int| 0 <= k < i ==> (#[trigger] classes[k]).class_type == ClassType::Package,
        i < classes.len() ==> classes[i].class_type != ClassType::Package,
    ensures
        i < classes.len() ==> first_proper_class(classes, 0) == Some(classes[i]),
        i == classes.len() ==> first_proper_class(classes, 0) is None,
{
    lemma_first_proper(classes, 0, i);
}

proof fn lemma_nested(classes: Seq<ClassDef>, name: Seq<char>, from: int, i: int)
    requires
        0 <= from <= i <= classes.len(),
        forall|k: int|
            from <= k < i ==> class_named((#[trigger] classes[k]).classes@, name, 0) is None,
        i < classes.len() ==> class_named(classes[i].classes@, name, 0) is Some,
    ensures
        i < classes.len() ==> nested_class(classes, name, from) == class_named(
            classes[i].classes@,
            name,
            0,
        ),
        i == classes.len() ==> nested_class(classes, name, from) is None,
    decreases i - from,
{
    if from < i {
        assert(class_named(classes[from].classes@, name, 0) is None);
        lemma_nested(classes, name, from + 1, i);
    }
}

/// A short name finds a class at the top before any inner one, an inner class of
/// the first outer class that has one, and the first class that is no package
/// where neither is there.
pub proof fn law_short_names_are_found_from_the_top(ast: StoredDefinition, name: Seq<char>, i: int)
    requires
        0 <= i <= ast.classes@.len(),
        forall|k: int|
            0 <= k < i ==> class_named((#[trigger] ast.classes@[k]).classes@, name, 0) is None,
        i < ast.classes@.len() ==> class_named(ast.classes@[i].classes@, name, 0) is Some,
    ensures
        ({
            let top = class_named(ast.classes@, name, 0);
            &&& top is Some ==> located_class(ast, name) == top
            &&& top is None && i < ast.classes@.len() ==> located_class(ast, name) == class_named(
                ast.classes@[i].classes@,
                name,
                0,
            )
            &&& top is None && i == ast.classes@.len() ==> located_class(ast, name)
                == first_proper_class(ast.classes@, 0)
        }),
{
    lemma_nested(ast.classes@, name, 0, i);
}

/// A base class is found under its whole name at the top, else under the last part
/// of its name at the top, else under that part inside a class, and never by
/// another name.
pub proof fn law_base_classes_are_found_by_name(ast: StoredDefinition, name: Seq<char>, i: int)
    requires
        0 <= i <= ast.classes@.len(),
        forall|k: int|
            0 <= k < i ==> class_named((#[trigger] ast.classes@[k]).classes@, leaf(name), 0) is None,
        i < ast.classes@.len() ==> class_named(ast.classes@[i].classes@, leaf(name), 0) is Some,
    ensures
        ({
            let whole = class_named(ast.classes@, name, 0);
            let last = class_named(ast.classes@, leaf(name), 0);
            &&& whole is Some ==> local_base_class(ast, name) == whole
            &&& whole is None && last is Some ==> local_base_class(ast, name) == last
            &&& whole is None && last is None && i < ast.classes@.len() ==> local_base_class(
                ast,
                name,
            ) == class_named(ast.classes@[i].classes@, leaf(name), 0)
            &&& whole is None && last is None && i == ast.classes@.len() ==> local_base_class(
                ast,
                name,
            ) is None
        }),
{
    lemma_nested(ast.classes@, leaf(name), 0, i);
}

/// The diagram of a target is that of the class that its name leads to; without a
/// target it is that of the first class that is no package.
pub proof fn law_diagrams_are_of_the_target(ast: StoredDefinition, q: Seq<char>)
    ensures
        qualified_class(ast, q) matches Some(c) ==> target_diagram(ast, Some(q)) == c.diagram,
        qualified_class(ast, q) is None ==> target_diagram(ast, Some(q)) is None,
        first_proper_class(ast.classes@, 0) matches Some(c) ==> target_diagram(ast, None)
            == c.diagram,
        first_proper_class(ast.classes@, 0) is None ==> target_diagram(ast, None) is None,
{
}

/// What is told of a class lists its parameters under their names and in order,
/// every one of them: there are increasing places of components, one for each
/// name.
pub proof fn law_all_parameters_are_told(info: ClassInfo, c: ClassDef) -> (at: Seq<int>)
    requires
        tells_of(info, c),
    ensures
        at.len() == info.params@.len(),
        forall|a: int, b: int| 0 <= a < b < at.len() ==> at[a] < at[b],
        forall|i: int|
            0 <= i < c.components@.len() ==> (at.contains(i) <==> (
            #[trigger] c.components@[i]).is_parameter),
        forall|k: int|
            0 <= k < at.len() ==> 0 <= #[trigger] at[k] < c.components@.len() && info.params@[k]@
                == c.components@[at[k]].name@,
{
    let pick = |c: Component| c.is_parameter;
    let at = crate::text::law_picked_items_stay_in_order(c.components@, pick);
    let names = names_where(c.components@, pick);
    assert(views(info.params@).len() == names.len());
    assert forall|k: int| 0 <= k < at.len() implies 0 <= #[trigger] at[k] < c.components@.len()
        && info.params@[k]@ == c.components@[at[k]].name@ by {
        assert(views(info.params@)[k] == names[k]);
    }
    at
}

/// What is told of a class lists its inputs under their names and in order, every
/// one of them: there are increasing places of components, one for each name.
pub proof fn law_all_inputs_are_told(info: ClassInfo, c: ClassDef) -> (at: Seq<int>)
    requires
        tells_of(info, c),
    ensures
        at.len() == info.inputs@.len(),
        forall|a: int, b: int| 0 <= a < b < at.len() ==> at[a] < at[b],
        forall|i: int|
            0 <= i < c.components@.len() ==> (at.contains(i) <==> (
            #[trigger] c.components@[i]).causality == Causality::Input),
        forall|k: int|
            0 <= k < at.len() ==> 0 <= #[trigger] at[k] < c.components@.len() && info.inputs@[k]@
                == c.components@[at[k]].name@,
{
    let pick = |c: Component| is_input(c);
    let at = crate::text::law_picked_items_stay_in_order(c.components@, pick);
    let names = names_where(c.components@, pick);
    assert(views(info.inputs@).len() == names.len());
    assert forall|k: int| 0 <= k < at.len() implies 0 <= #[trigger] at[k] < c.components@.len()
        && info.inputs@[k]@ == c.components@[at[k]].name@ by {
        assert(views(info.inputs@)[k] == names[k]);
    }
    at
}

/// What is told of a class lists its outputs under their names and in order, every
/// one of them: there are increasing places of components, one for each name.
pub proof fn law_all_outputs_are_told(info: ClassInfo, c: ClassDef) -> (at: Seq<int>)
    requires
        tells_of(info, c),
    ensures
        at.len() == info.outputs@.len(),
        forall|a: int, b: int| 0 <= a < b < at.len() ==> at[a] < at[b],
        forall|i: int|
            0 <= i < c.components@.len() ==> (at.contains(i) <==> (
            #[trigger] c.components@[i]).causality == Causality::Output),
        forall|k: int|
            0 <= k < at.len() ==> 0 <= #[trigger] at[k] < c.components@.len() && info.outputs@[k]@
                == c.components@[at[k]].name@,
{
    let pick = |c: Component| is_output(c);
    let at = crate::text::law_picked_items_stay_in_order(c.components@, pick);
    let names = names_where(c.components@, pick);
    assert(views(info.outputs@).len() == names.len());
    assert forall|k: int| 0 <= k < at.len() implies 0 <= #[trigger] at[k] < c.components@.len()
        && info.outputs@[k]@ == c.components@[at[k]].name@ by {
        assert(views(info.outputs@)[k] == names[k]);
    }
    at
}

/// A description that is told neither starts nor ends with a quote, is not empty,
/// and stands, within quotes alone, in the first string of the class.
pub proof fn law_descriptions_lose_their_quotes(info: ClassInfo, c: ClassDef) -> (cut: (int, int))
    requires
        tells_of(info, c),
        info.description is Some,
    ensures
        c.description@.len() > 0,
        ({
            let s = c.description@[0]@;
            let d = info.description->0@;
            &&& d.len() > 0
            &&& d[0] != '"' && d.last() != '"'
            &&& 0 <= cut.0 <= cut.1 <= s.len()
            &&& d == s.subrange(cut.0, cut.1)
            &&& forall|i: int| 0 <= i < cut.0 ==> #[trigger] s[i] == '"'
            &&& forall|i: int| cut.1 <= i < s.len() ==> #[trigger] s[i] == '"'
        }),
{
    assert(views(c.description@)[0] == c.description@[0]@);
    crate::text::law_trimming_takes_off_one_character(c.description@[0]@, '"')
}

/// The badge of a class is the first letter of its keyword as a capital; only a
/// connector has another letter, which no other class has.
pub proof fn law_badges_are_first_letters(t: ClassType)
    ensures
        t != ClassType::Connector && t != ClassType::Operator ==> {
            let badge = badge_letter_spec(keyword_spec(t));
            badge.len() == 1 && badge[0] as u32 + 32 == keyword_spec(t)[0] as u32
        },
        badge_letter_spec(keyword_spec(ClassType::Connector)).len() == 1,
        badge_letter_spec(keyword_spec(ClassType::Connector))[0] == 'X',
        badge_letter_spec(keyword_spec(ClassType::Operator))[0] == '?',
{
    reveal_strlit("model");
    reveal_strlit("block");
    reveal_strlit("class");
    reveal_strlit("connector");
    reveal_strlit("record");
    reveal_strlit("type");
    reveal_strlit("package");
    reveal_strlit("function");
    reveal_strlit("operator");
    reveal_strlit("M");
    reveal_strlit("B");
    reveal_strlit("C");
    reveal_strlit("X");
    reveal_strlit("R");
    reveal_strlit("T");
    reveal_strlit("P");
    reveal_strlit("F");
    reveal_strlit("?");
    let k = keyword_spec(t);
    assert("model"@[0] == 'm');
    assert("block"@[0] == 'b');
    assert("class"@[0] == 'c' && "class"@[1] == 'l');
    assert("connector"@[0] == 'c' && "connector"@[1] == 'o');
    assert("record"@[0] == 'r');
    assert("type"@[0] == 't');
    assert("package"@[0] == 'p');
    assert("function"@[0] == 'f');
    assert("operator"@[0] == 'o');
}

} // verus!
