//! The menu of classes that can be added to a diagram, by package.
use crate::text::{
    is_name_order, name_order, places, position_of, same_text, split, split_text, text3, views,
};
use vstd::prelude::*;

verus! {

/// What the user chose for the menu.
#[derive(Clone, Copy, Debug, PartialEq, Eq, Structural)]
pub struct PaletteSettings {
    /// Whether classes that are nothing but an icon are listed.
    pub show_icon_only_classes: bool,
}

impl Default for PaletteSettings {
    /// Whoever adds a component expects a functional block, so icons are hidden.
    fn default() -> (r: PaletteSettings)
        ensures
            !r.show_icon_only_classes,
    {
        PaletteSettings { show_icon_only_classes: false }
    }
}

/// A class of the library, as far as the menu needs it.
#[derive(Debug, PartialEq, Eq)]
pub struct LibraryClass {
    pub msl_path: String,
    pub name: String,
    /// Whether the class is nothing but an icon.
    pub icon_only: bool,
}

/// A package of the menu: its subpackages by name, and its own classes by name,
/// as places in the library.
#[derive(Debug, PartialEq, Eq)]
pub struct MslPackageNode {
    pub subpackages: Vec<Subpackage>,
    pub classes: Vec<usize>,
    /// Whether the package holds, at any depth, a class that is more than an
    /// icon.
    pub has_non_icon_class: bool,
}

#[derive(Debug, PartialEq, Eq)]
pub struct Subpackage {
    pub name: String,
    pub node: MslPackageNode,
}

/// The parts of the path of a class: its packages and its name.
pub open spec fn path_of(library: Seq<LibraryClass>, i: int) -> Seq<Seq<char>> {
    split(library[i].msl_path@, '.')
}

/// The `members` that lie in the package itself, which is `depth` deep.
pub open spec fn own_classes(library: Seq<LibraryClass>, members: Seq<int>, depth: int) -> Seq<int> {
    members.filter(|i: int| path_of(library, i).len() <= depth + 1)
}

/// The `members` that lie in the subpackage `name` of a package `depth` deep.
pub open spec fn members_of(
    library: Seq<LibraryClass>,
    members: Seq<int>,
    depth: int,
    name: Seq<char>,
) -> Seq<int> {
    members.filter(
        |i: int| path_of(library, i).len() > depth + 1 && path_of(library, i)[depth] == name,
    )
}

/// Whether one of the `members` lies in a subpackage `name`.
pub open spec fn is_subpackage(
    library: Seq<LibraryClass>,
    members: Seq<int>,
    depth: int,
    name: Seq<char>,
) -> bool {
    exists|k: int|
        0 <= k < members.len() && path_of(library, #[trigger] members[k]).len() > depth + 1
            && path_of(library, members[k])[depth] == name
}

/// Whether one of the `members` is more than an icon.
pub open spec fn holds_block(library: Seq<LibraryClass>, members: Seq<int>) -> bool {
    exists|k: int| 0 <= k < members.len() && !library[#[trigger] members[k]].icon_only
}

/// The names of the classes at some places of the library.
pub open spec fn class_names(library: Seq<LibraryClass>, own: Seq<int>) -> Seq<Seq<char>> {
    own.map_values(|i: int| library[i].name@)
}

/// Whether `sorted` lists the classes at the places `own` by name, and classes
/// of one name by their place.
pub open spec fn are_sorted_classes(
    sorted: Seq<int>,
    library: Seq<LibraryClass>,
    own: Seq<int>,
) -> bool {
    exists|order: Seq<int>|
        {
            &&& #[trigger] is_name_order(order, class_names(library, own))
            &&& sorted == order.map_values(|k: int| own[k])
        }
}

/// Whether `node` is the package, `depth` deep, that holds the classes at the
/// places `members`.
pub open spec fn is_package_of(
    node: MslPackageNode,
    library: Seq<LibraryClass>,
    members: Seq<int>,
    depth: int,
) -> bool
    decreases node,
{
    &&& are_sorted_classes(places(node.classes@), library, own_classes(library, members, depth))
    &&& forall|a: int, b: int|
        0 <= a < b < node.subpackages@.len() ==> crate::text::lex_le(
            (#[trigger] node.subpackages@[a]).name@,
            (#[trigger] node.subpackages@[b]).name@,
        ) && node.subpackages@[a].name@ != node.subpackages@[b].name@
    &&& forall|name: Seq<char>|
        #[trigger] is_subpackage(library, members, depth, name) ==> exists|a: int|
            0 <= a < node.subpackages@.len() && (#[trigger] node.subpackages@[a]).name@ == name
    &&& forall|a: int|
        0 <= a < node.subpackages@.len() ==> {
            let s = #[trigger] node.subpackages@[a];
            &&& is_subpackage(library, members, depth, s.name@)
            &&& is_package_of(
                s.node,
                library,
                members_of(library, members, depth, s.name@),
                depth + 1,
            )
        }
    &&& node.has_non_icon_class == holds_block(library, members)
}

/// The places of all classes of the library.
pub open spec fn all_places(library: Seq<LibraryClass>) -> Seq<int> {
    Seq::new(library.len(), |i: int| i)
}

/// The paths of all classes of the library are those that the strings give.
pub open spec fn paths_match(paths: Seq<Vec<String>>, library: Seq<LibraryClass>) -> bool {
    &&& paths.len() == library.len()
    &&& forall|i: int| 0 <= i < paths.len() ==> views(#[trigger] paths[i]@) == path_of(library, i)
}

proof fn lemma_filter_push(s: Seq<int>, x: int, pick: spec_fn(int) -> bool)
    ensures
        s.push(x).filter(pick) == (if pick(x) {
            s.filter(pick).push(x)
        } else {
            s.filter(pick)
        }),
{
    reveal_with_fuel(Seq::filter, 2);
    assert(s.push(x).drop_last() =~= s);
}

proof fn lemma_filter_keeps(s: Seq<int>, pick: spec_fn(int) -> bool)
    ensures
        forall|k: int|
            0 <= k < s.filter(pick).len() ==> pick(#[trigger] s.filter(pick)[k]) && s.contains(
                s.filter(pick)[k],
            ),
        forall|k: int| 0 <= k < s.len() && pick(#[trigger] s[k]) ==> s.filter(pick).contains(s[k]),
    decreases s.len(),
{
    reveal_with_fuel(Seq::filter, 2);
    if s.len() > 0 {
        let rest = s.drop_last();
        lemma_filter_keeps(rest, pick);
        let f = s.filter(pick);
        let g = rest.filter(pick);
        assert forall|k: int| 0 <= k < f.len() implies pick(#[trigger] f[k]) && s.contains(f[k]) by {
            if k < g.len() {
                assert(f[k] == g[k]);
                let m = choose|m: int| 0 <= m < rest.len() && rest[m] == g[k];
                assert(s[m] == f[k]);
            } else {
                assert(f[k] == s[s.len() - 1]);
            }
        }
        assert forall|k: int| 0 <= k < s.len() && pick(#[trigger] s[k]) implies f.contains(
            s[k],
        ) by {
            if k < rest.len() {
                assert(rest[k] == s[k]);
                let m = choose|m: int| 0 <= m < g.len() && g[m] == rest[k];
                assert(f[m] == s[k]);
            } else {
                assert(f[f.len() - 1] == s[k]);
            }
        }
    }
}

fn pick_own(paths: &Vec<Vec<String>>, members: &Vec<usize>, depth: usize, Ghost(library): Ghost<
    Seq<LibraryClass>,
>) -> (r: Vec<usize>)
    requires
        paths_match(paths@, library),
        depth < usize::MAX,
        forall|k: int| 0 <= k < members@.len() ==> (#[trigger] members@[k]) < paths@.len(),
    ensures
        places(r@) == own_classes(library, places(members@), depth as int),
        forall|k: int| 0 <= k < r@.len() ==> (#[trigger] r@[k]) < paths@.len(),
{
    let mut out: Vec<usize> = Vec::new();
    let mut i: usize = 0;
    let ghost pick = |i: int| path_of(library, i).len() <= depth + 1;
    proof {
        reveal_with_fuel(Seq::filter, 1);
        assert(places(members@).take(0) =~= Seq::empty());
        assert(places(out@) =~= places(members@).take(0).filter(pick));
    }
    while i < members.len()
        invariant
            i <= members@.len(),
            paths_match(paths@, library),
            depth < usize::MAX,
            forall|k: int| 0 <= k < members@.len() ==> (#[trigger] members@[k]) < paths@.len(),
            pick == (|i: int| path_of(library, i).len() <= depth + 1),
            places(out@) == places(members@).take(i as int).filter(pick),
            forall|k: int| 0 <= k < out@.len() ==> (#[trigger] out@[k]) < paths@.len(),
        decreases members@.len() - i,
    {
        let m: usize = members[i];
        proof {
            lemma_filter_push(places(members@).take(i as int), m as int, pick);
            assert(places(members@).take(i + 1) =~= places(members@).take(i as int).push(m as int));
            assert(views(paths@[m as int]@).len() == paths@[m as int]@.len());
        }
        if paths[m].len() <= depth + 1 {
            let ghost before = out@;
            out.push(m);
            assert(places(out@) =~= places(before).push(m as int));
        }
        i += 1;
    }
    assert(places(members@).take(i as int) =~= places(members@));
    out
}

fn pick_members(
    paths: &Vec<Vec<String>>,
    members: &Vec<usize>,
    depth: usize,
    name: &str,
    Ghost(library): Ghost<Seq<LibraryClass>>,
) -> (r: Vec<usize>)
    requires
        paths_match(paths@, library),
        depth < usize::MAX,
        forall|k: int| 0 <= k < members@.len() ==> (#[trigger] members@[k]) < paths@.len(),
    ensures
        places(r@) == members_of(library, places(members@), depth as int, name@),
        forall|k: int| 0 <= k < r@.len() ==> (#[trigger] r@[k]) < paths@.len(),
{
    let mut out: Vec<usize> = Vec::new();
    let mut i: usize = 0;
    let ghost pick = |i: int|
        path_of(library, i).len() > depth + 1 && path_of(library, i)[depth as int] == name@;
    proof {
        reveal_with_fuel(Seq::filter, 1);
        assert(places(members@).take(0) =~= Seq::empty());
        assert(places(out@) =~= places(members@).take(0).filter(pick));
    }
    while i < members.len()
        invariant
            i <= members@.len(),
            paths_match(paths@, library),
            depth < usize::MAX,
            forall|k: int| 0 <= k < members@.len() ==> (#[trigger] members@[k]) < paths@.len(),
            pick == (|i: int|
                path_of(library, i).len() > depth + 1 && path_of(library, i)[depth as int] == name@),
            places(out@) == places(members@).take(i as int).filter(pick),
            forall|k: int| 0 <= k < out@.len() ==> (#[trigger] out@[k]) < paths@.len(),
        decreases members@.len() - i,
    {
        let m: usize = members[i];
        proof {
            lemma_filter_push(places(members@).take(i as int), m as int, pick);
            assert(places(members@).take(i + 1) =~= places(members@).take(i as int).push(m as int));
            assert(views(paths@[m as int]@).len() == paths@[m as int]@.len());
        }
        if paths[m].len() > depth + 1 && same_text(paths[m][depth].as_str(), name) {
            let ghost before = out@;
            out.push(m);
            assert(places(out@) =~= places(before).push(m as int));
        }
        i += 1;
    }
    assert(places(members@).take(i as int) =~= places(members@));
    out
}

fn sort_classes(library: &Vec<LibraryClass>, own: &Vec<usize>) -> (r: Vec<usize>)
    requires
        forall|k: int| 0 <= k < own@.len() ==> (#[trigger] own@[k]) < library@.len(),
    ensures
        are_sorted_classes(places(r@), library@, places(own@)),
{
    let mut names: Vec<String> = Vec::new();
    let mut k: usize = 0;
    while k < own.len()
        invariant
            k <= own@.len(),
            forall|j: int| 0 <= j < own@.len() ==> (#[trigger] own@[j]) < library@.len(),
            names@.len() == k,
            forall|j: int| 0 <= j < k ==> (#[trigger] names@[j])@ == library@[own@[j] as int].name@,
        decreases own@.len() - k,
    {
        names.push(library[own[k]].name.clone());
        k += 1;
    }
    assert(views(names@) =~= class_names(library@, places(own@)));
    let order = name_order(&names);
    let ghost ord = places(order@);
    let mut out: Vec<usize> = Vec::new();
    let mut n: usize = 0;
    while n < order.len()
        invariant
            n <= order@.len(),
            ord == places(order@),
            is_name_order(ord, views(names@)),
            names@.len() == own@.len(),
            out@.len() == n,
            forall|j: int| 0 <= j < n ==> (#[trigger] out@[j]) == own@[ord[j]],
        decreases order@.len() - n,
    {
        assert(ord[n as int] == order@[n as int]);
        out.push(own[order[n]]);
        n += 1;
    }
    assert(places(out@) =~= ord.map_values(|k: int| places(own@)[k]));
    out
}

/// Whether `names` are the subpackages of the package, each once.
pub open spec fn are_subpackages(
    names: Seq<Seq<char>>,
    library: Seq<LibraryClass>,
    members: Seq<int>,
    depth: int,
) -> bool {
    &&& names.no_duplicates()
    &&& forall|name: Seq<char>|
        #[trigger] is_subpackage(library, members, depth, name) <==> names.contains(name)
}

fn subpackage_names(
    paths: &Vec<Vec<String>>,
    members: &Vec<usize>,
    depth: usize,
    Ghost(library): Ghost<Seq<LibraryClass>>,
) -> (r: Vec<String>)
    requires
        paths_match(paths@, library),
        depth < usize::MAX,
        forall|k: int| 0 <= k < members@.len() ==> (#[trigger] members@[k]) < paths@.len(),
    ensures
        are_subpackages(views(r@), library, places(members@), depth as int),
{
    let mut out: Vec<String> = Vec::new();
    let mut i: usize = 0;
    let ghost all = places(members@);
    assert(are_subpackages(views(out@), library, all.take(0), depth as int));
    while i < members.len()
        invariant
            i <= members@.len(),
            all == places(members@),
            paths_match(paths@, library),
            depth < usize::MAX,
            forall|k: int| 0 <= k < members@.len() ==> (#[trigger] members@[k]) < paths@.len(),
            are_subpackages(views(out@), library, all.take(i as int), depth as int),
        decreases members@.len() - i,
    {
        let m: usize = members[i];
        let ghost before = all.take(i as int);
        let ghost after = all.take(i + 1);
        let ghost names0 = views(out@);
        assert(views(paths@[m as int]@) == path_of(library, m as int));
        assert(path_of(library, m as int).len() == paths@[m as int]@.len());
        assert(after =~= before.push(m as int));
        let ghost deep = paths@[m as int]@.len() > depth + 1;
        if paths[m].len() > depth + 1 {
            assert(path_of(library, m as int)[depth as int] == paths@[m as int]@[depth as int]@);
            if position_of(&out, paths[m][depth].as_str()).is_none() {
                out.push(paths[m][depth].clone());
                assert(views(out@) =~= names0.push(path_of(library, m as int)[depth as int]));
            } else {
                assert(names0.contains(path_of(library, m as int)[depth as int])) by {
                    let j = choose|j: int|
                        0 <= j < out@.len() && (#[trigger] out@[j])@ == path_of(
                            library,
                            m as int,
                        )[depth as int];
                    assert(names0[j] == out@[j]@);
                }
            }
        }
        proof {
            let names1 = views(out@);
            assert forall|name: Seq<char>| #[trigger] is_subpackage(
                library,
                after,
                depth as int,
                name,
            ) == names1.contains(name) by {
                let here = deep && path_of(library, m as int)[depth as int] == name;
                assert(is_subpackage(library, after, depth as int, name) == (is_subpackage(
                    library,
                    before,
                    depth as int,
                    name,
                ) || here)) by {
                    if here {
                        assert(after[i as int] == m);
                    }
                    if is_subpackage(library, before, depth as int, name) {
                        let k = choose|k: int|
                            0 <= k < before.len() && path_of(library, #[trigger] before[k]).len()
                                > depth + 1 && path_of(library, before[k])[depth as int] == name;
                        assert(after[k] == before[k]);
                    }
                    if is_subpackage(library, after, depth as int, name) {
                        let k = choose|k: int|
                            0 <= k < after.len() && path_of(library, #[trigger] after[k]).len()
                                > depth + 1 && path_of(library, after[k])[depth as int] == name;
                        if k < i {
                            assert(before[k] == after[k]);
                        }
                    }
                }
                assert(is_subpackage(library, before, depth as int, name) == names0.contains(name));
                if names0.contains(name) {
                    let j = choose|j: int| 0 <= j < names0.len() && names0[j] == name;
                    assert(names1[j] == name);
                }
                if here {
                    if names1.len() > names0.len() {
                        assert(names1[names0.len() as int] == name);
                    }
                }
                if names1.contains(name) {
                    let j = choose|j: int| 0 <= j < names1.len() && names1[j] == name;
                    if j < names0.len() {
                        assert(names0[j] == name);
                    }
                }
            }
            assert(names1.no_duplicates());
        }
        i += 1;
    }
    assert(all.take(i as int) =~= all);
    out
}

fn any_block(library: &Vec<LibraryClass>, members: &Vec<usize>) -> (r: bool)
    requires
        forall|k: int| 0 <= k < members@.len() ==> (#[trigger] members@[k]) < library@.len(),
    ensures
        r == holds_block(library@, places(members@)),
{
    let mut i: usize = 0;
    let ghost all = places(members@);
    while i < members.len()
        invariant
            i <= members@.len(),
            all == places(members@),
            forall|k: int| 0 <= k < members@.len() ==> (#[trigger] members@[k]) < library@.len(),
            forall|k: int| 0 <= k < i ==> library@[#[trigger] all[k]].icon_only,
        decreases members@.len() - i,
    {
        assert(all[i as int] == members@[i as int]);
        if !library[members[i]].icon_only {
            return true;
        }
        i += 1;
    }
    false
}

fn build_package(
    library: &Vec<LibraryClass>,
    paths: &Vec<Vec<String>>,
    members: &Vec<usize>,
    depth: usize,
    limit: usize,
) -> (r: MslPackageNode)
    requires
        paths_match(paths@, library@),
        depth < limit,
        forall|k: int| 0 <= k < members@.len() ==> (#[trigger] members@[k]) < paths@.len(),
        forall|k: int| 0 <= k < paths@.len() ==> (#[trigger] paths@[k])@.len() <= limit,
    ensures
        is_package_of(r, library@, places(members@), depth as int),
    decreases limit - depth,
{
    let ghost lib = library@;
    let ghost all = places(members@);
    let own = pick_own(paths, members, depth, Ghost(lib));
    let classes = sort_classes(library, &own);
    let names = subpackage_names(paths, members, depth, Ghost(lib));
    let order = name_order(&names);
    let ghost ord = places(order@);
    let ghost every = views(names@);
    let mut subpackages: Vec<Subpackage> = Vec::new();
    let mut n: usize = 0;
    while n < order.len()
        invariant
            n <= order@.len(),
            lib == library@,
            all == places(members@),
            ord == places(order@),
            every == views(names@),
            paths_match(paths@, lib),
            depth < limit,
            forall|k: int| 0 <= k < members@.len() ==> (#[trigger] members@[k]) < paths@.len(),
            forall|k: int| 0 <= k < paths@.len() ==> (#[trigger] paths@[k])@.len() <= limit,
            is_name_order(ord, every),
            are_subpackages(every, lib, all, depth as int),
            subpackages@.len() == n,
            forall|a: int|
                0 <= a < n ==> {
                    let s = #[trigger] subpackages@[a];
                    &&& s.name@ == every[ord[a]]
                    &&& is_package_of(
                        s.node,
                        lib,
                        members_of(lib, all, depth as int, s.name@),
                        depth + 1,
                    )
                },
        decreases order@.len() - n,
    {
        assert(ord[n as int] == order@[n as int]);
        let name = names[order[n]].clone();
        proof {
            assert(every[ord[n as int]] == name@);
            assert(every.contains(name@));
            assert(is_subpackage(lib, all, depth as int, name@));
            let k = choose|k: int|
                0 <= k < all.len() && path_of(lib, #[trigger] all[k]).len() > depth + 1 && path_of(
                    lib,
                    all[k],
                )[depth as int] == name@;
            assert(all[k] == members@[k]);
            assert(views(paths@[members@[k] as int]@) == path_of(lib, all[k]));
            assert(paths@[members@[k] as int]@.len() <= limit);
        }
        let inner = pick_members(paths, members, depth, name.as_str(), Ghost(lib));
        let node = build_package(library, paths, &inner, depth + 1, limit);
        subpackages.push(Subpackage { name, node });
        n += 1;
    }
    let has_non_icon_class = any_block(library, members);
    let r = MslPackageNode { subpackages, classes, has_non_icon_class };
    proof {
        assert forall|a: int, b: int| 0 <= a < b < r.subpackages@.len() implies crate::text::lex_le(
            (#[trigger] r.subpackages@[a]).name@,
            (#[trigger] r.subpackages@[b]).name@,
        ) && r.subpackages@[a].name@ != r.subpackages@[b].name@ by {
            assert(crate::text::name_before(every, ord[a], ord[b]));
            if every[ord[a]] == every[ord[b]] {
                assert(ord[a] == ord[b]);
            }
        }
        assert forall|name: Seq<char>| #[trigger] is_subpackage(
            lib,
            all,
            depth as int,
            name,
        ) implies exists|a: int|
            0 <= a < r.subpackages@.len() && (#[trigger] r.subpackages@[a]).name@ == name by {
            let p = choose|p: int| 0 <= p < every.len() && every[p] == name;
            let a = crate::text::lemma_name_order_lists_all(ord, every, p);
            assert(r.subpackages@[a].name@ == name);
        }
        assert forall|a: int| 0 <= a < r.subpackages@.len() implies is_subpackage(
            lib,
            all,
            depth as int,
            (#[trigger] r.subpackages@[a]).name@,
        ) by {
            assert(every.contains(every[ord[a]]));
        }
    }
    r
}

fn split_paths(library: &Vec<LibraryClass>) -> (r: Vec<Vec<String>>)
    ensures
        paths_match(r@, library@),
{
    let mut out: Vec<Vec<String>> = Vec::new();
    let mut i: usize = 0;
    while i < library.len()
        invariant
            i <= library@.len(),
            out@.len() == i,
            forall|k: int|
                0 <= k < i ==> views(#[trigger] out@[k]@) == path_of(library@, k),
        decreases library@.len() - i,
    {
        out.push(split_text(library[i].msl_path.as_str(), '.'));
        i += 1;
    }
    out
}

/// The packages of the library: under each its subpackages and its classes, by
/// name.
pub fn msl_package_tree(library: &Vec<LibraryClass>) -> (r: MslPackageNode)
    ensures
        is_package_of(r, library@, all_places(library@), 0),
{
    let paths = split_paths(library);
    let mut members: Vec<usize> = Vec::new();
    let mut limit: usize = 1;
    let mut i: usize = 0;
    while i < paths.len()
        invariant
            i <= paths@.len(),
            paths_match(paths@, library@),
            members@.len() == i,
            forall|k: int| 0 <= k < i ==> (#[trigger] members@[k]) == k,
            limit >= 1,
            forall|k: int| 0 <= k < i ==> (#[trigger] paths@[k])@.len() <= limit,
        decreases paths@.len() - i,
    {
        members.push(i);
        if paths[i].len() > limit {
            limit = paths[i].len();
        }
        i += 1;
    }
    assert(places(members@) =~= all_places(library@));
    build_package(library, &paths, &members, 0, limit)
}

// ── The menu of a package ────────────────────────────────────────────────

/// An entry of the menu of a package: a subpackage or a class of the library by
/// its place, or the line between the two.
#[derive(Clone, Copy, Debug, PartialEq, Eq, Structural)]
pub enum MenuEntry {
    Package(usize),
    Line,
    Class(usize),
}

/// The subpackages of the first `n` that are listed: those that are empty
/// without their icons are left out.
pub open spec fn package_entries(
    node: MslPackageNode,
    show_icons: bool,
    n: int,
) -> Seq<MenuEntry>
    decreases n,
{
    if n <= 0 {
        Seq::empty()
    } else {
        let rest = package_entries(node, show_icons, n - 1);
        if show_icons || node.subpackages@[n - 1].node.has_non_icon_class {
            rest.push(MenuEntry::Package((n - 1) as usize))
        } else {
            rest
        }
    }
}

/// The classes of the first `n` that are listed.
pub open spec fn class_entries(
    node: MslPackageNode,
    library: Seq<LibraryClass>,
    show_icons: bool,
    n: int,
) -> Seq<MenuEntry>
    decreases n,
{
    if n <= 0 {
        Seq::empty()
    } else {
        let rest = class_entries(node, library, show_icons, n - 1);
        let place = node.classes@[n - 1];
        if show_icons || !library[place as int].icon_only {
            rest.push(MenuEntry::Class(place))
        } else {
            rest
        }
    }
}

/// The menu of a package: its subpackages above, a line where it has both, and
/// its classes below.
pub open spec fn package_menu(
    node: MslPackageNode,
    library: Seq<LibraryClass>,
    show_icons: bool,
) -> Seq<MenuEntry> {
    let line = if node.subpackages@.len() > 0 && node.classes@.len() > 0 {
        seq![MenuEntry::Line]
    } else {
        Seq::empty()
    };
    package_entries(node, show_icons, node.subpackages@.len() as int) + line + class_entries(
        node,
        library,
        show_icons,
        node.classes@.len() as int,
    )
}

/// The menu of a package.
pub fn menu_of_package(
    node: &MslPackageNode,
    library: &Vec<LibraryClass>,
    settings: PaletteSettings,
) -> (r: Vec<MenuEntry>)
    requires
        forall|k: int| 0 <= k < node.classes@.len() ==> (#[trigger] node.classes@[k]) < library@.len(),
    ensures
        r@ == package_menu(*node, library@, settings.show_icon_only_classes),
{
    let show_icons = settings.show_icon_only_classes;
    let mut out: Vec<MenuEntry> = Vec::new();
    let mut i: usize = 0;
    while i < node.subpackages.len()
        invariant
            i <= node.subpackages@.len(),
            out@ == package_entries(*node, show_icons, i as int),
        decreases node.subpackages@.len() - i,
    {
        if show_icons || node.subpackages[i].node.has_non_icon_class {
            out.push(MenuEntry::Package(i));
        }
        i += 1;
    }
    let ghost packages = out@;
    let ghost mut line = Seq::<MenuEntry>::empty();
    if node.subpackages.len() > 0 && node.classes.len() > 0 {
        out.push(MenuEntry::Line);
        proof {
            line = seq![MenuEntry::Line];
        }
    }
    let ghost head = packages + line;
    let mut k: usize = 0;
    assert(out@ =~= head + class_entries(*node, library@, show_icons, 0));
    while k < node.classes.len()
        invariant
            k <= node.classes@.len(),
            forall|k: int|
                0 <= k < node.classes@.len() ==> (#[trigger] node.classes@[k]) < library@.len(),
            out@ == head + class_entries(*node, library@, show_icons, k as int),
        decreases node.classes@.len() - k,
    {
        let place: usize = node.classes[k];
        if show_icons || !library[place].icon_only {
            out.push(MenuEntry::Class(place));
        }
        assert(out@ =~= head + class_entries(*node, library@, show_icons, k + 1));
        k += 1;
    }
    out
}

/// The text of a class in the menu: the character that stands for it, where
/// there is one, and its name.
pub open spec fn class_label_spec(icon_text: Option<String>, name: Seq<char>) -> Seq<char> {
    match icon_text {
        Some(ic) => if ic@.len() > 0 {
            ic@ + "  "@ + name
        } else {
            name
        },
        None => name,
    }
}

/// The text of a class in the menu.
pub fn class_label(icon_text: &Option<String>, name: &str) -> (r: String)
    ensures
        r@ == class_label_spec(*icon_text, name@),
{
    match icon_text {
        Some(ic) => if !ic.as_str().is_empty() {
            text3(ic.as_str(), "  ", name)
        } else {
            name.to_owned()
        },
        None => name.to_owned(),
    }
}

/// What the pointer shows over a class: its description, or else its path.
pub fn class_hint(description: &Option<String>, msl_path: &str) -> (r: String)
    ensures
        r@ == (match *description {
            Some(d) => d@,
            None => msl_path@,
        }),
{
    match description {
        Some(d) => d.clone(),
        None => msl_path.to_owned(),
    }
}

// ── Laws ─────────────────────────────────────────────────────────────────

/// Whether the package `node`, `depth` deep, lists the class at place `i` in
/// the package that its path names.
pub open spec fn lists_class(
    node: MslPackageNode,
    library: Seq<LibraryClass>,
    i: int,
    depth: int,
) -> bool
    decreases node,
{
    if path_of(library, i).len() <= depth + 1 {
        places(node.classes@).contains(i)
    } else {
        exists|a: int|
            {
                &&& 0 <= a < node.subpackages@.len()
                &&& (#[trigger] node.subpackages@[a]).name@ == path_of(library, i)[depth]
                &&& lists_class(node.subpackages@[a].node, library, i, depth + 1)
            }
    }
}

/// Every class of the library is found in the menu under its packages.
pub proof fn law_every_class_is_listed(
    node: MslPackageNode,
    library: Seq<LibraryClass>,
    members: Seq<int>,
    depth: int,
    i: int,
)
    requires
        is_package_of(node, library, members, depth),
        members.contains(i),
    ensures
        lists_class(node, library, i, depth),
    decreases node,
{
    let k = choose|k: int| 0 <= k < members.len() && members[k] == i;
    if path_of(library, i).len() <= depth + 1 {
        let pick = |i: int| path_of(library, i).len() <= depth + 1;
        let own = own_classes(library, members, depth);
        lemma_filter_keeps(members, pick);
        assert(own.contains(members[k]));
        let order = choose|order: Seq<int>|
            {
                &&& #[trigger] is_name_order(order, class_names(library, own))
                &&& places(node.classes@) == order.map_values(|k: int| own[k])
            };
        let p = choose|p: int| 0 <= p < own.len() && own[p] == i;
        let q = crate::text::lemma_name_order_lists_all(order, class_names(library, own), p);
        assert(places(node.classes@)[q] == i);
    } else {
        let name = path_of(library, i)[depth];
        assert(path_of(library, members[k])[depth] == name);
        assert(is_subpackage(library, members, depth, name));
        let a = choose|a: int|
            0 <= a < node.subpackages@.len() && (#[trigger] node.subpackages@[a]).name@ == name;
        let pick = |i: int|
            path_of(library, i).len() > depth + 1 && path_of(library, i)[depth] == name;
        lemma_filter_keeps(members, pick);
        let inner = members_of(library, members, depth, name);
        assert(inner.contains(members[k]));
        law_every_class_is_listed(node.subpackages@[a].node, library, inner, depth + 1, i);
    }
}

/// The menu of a package lists classes of the library only, so it can be shown.
pub proof fn law_packages_list_classes_of_the_library(
    node: MslPackageNode,
    library: Seq<LibraryClass>,
    members: Seq<int>,
    depth: int,
)
    requires
        is_package_of(node, library, members, depth),
    ensures
        forall|k: int|
            0 <= k < node.classes@.len() ==> members.contains((#[trigger] node.classes@[k]) as int),
{
    let pick = |i: int| path_of(library, i).len() <= depth + 1;
    let own = own_classes(library, members, depth);
    lemma_filter_keeps(members, pick);
    assert(are_sorted_classes(places(node.classes@), library, own));
    let order = choose|order: Seq<int>|
        {
            &&& #[trigger] is_name_order(order, class_names(library, own))
            &&& places(node.classes@) == order.map_values(|k: int| own[k])
        };
    assert(places(node.classes@).len() == node.classes@.len());
    assert forall|k: int| 0 <= k < node.classes@.len() implies members.contains(
        (#[trigger] node.classes@[k]) as int,
    ) by {
        assert(places(node.classes@)[k] == own[order[k]]);
        assert(members.contains(own[order[k]]));
    }
}

/// Without icons no submenu leads to nothing: a package is listed exactly where
/// one of its classes, at any depth, is more than an icon.
pub proof fn law_listed_packages_are_not_empty(
    node: MslPackageNode,
    library: Seq<LibraryClass>,
    members: Seq<int>,
    depth: int,
    n: int,
    a: usize,
)
    requires
        is_package_of(node, library, members, depth),
        0 <= n <= node.subpackages@.len(),
    ensures
        package_entries(node, false, n).contains(MenuEntry::Package(a)) <==> a < n && holds_block(
            library,
            members_of(library, members, depth, node.subpackages@[a as int].name@),
        ),
    decreases n,
{
    let list = package_entries(node, false, n);
    reveal_with_fuel(is_package_of, 2);
    assert(node.subpackages@.len() == node.subpackages.len());
    if n > 0 {
        law_listed_packages_are_not_empty(node, library, members, depth, n - 1, a);
        let rest = package_entries(node, false, n - 1);
        let s = node.subpackages@[n - 1];
        assert(s.node.has_non_icon_class == holds_block(
            library,
            members_of(library, members, depth, s.name@),
        ));
        if list.contains(MenuEntry::Package(a)) {
            let k = choose|k: int| 0 <= k < list.len() && list[k] == MenuEntry::Package(a);
            if k < rest.len() {
                assert(rest[k] == MenuEntry::Package(a));
            } else {
                assert((n - 1) as usize == a);
            }
        }
        if rest.contains(MenuEntry::Package(a)) {
            let k = choose|k: int| 0 <= k < rest.len() && rest[k] == MenuEntry::Package(a);
            assert(list[k] == MenuEntry::Package(a));
        }
        if a == n - 1 && s.node.has_non_icon_class {
            assert(list[rest.len() as int] == MenuEntry::Package(a));
        }
    }
}

/// Whether a menu offers the subpackage at place `i`: icons are shown, or it holds
/// more than icons.
pub open spec fn offers_package(node: MslPackageNode, show_icons: bool, i: int) -> bool {
    show_icons || node.subpackages@[i].node.has_non_icon_class
}

/// Whether a menu offers the class at place `i`: icons are shown, or it is more
/// than an icon.
pub open spec fn offers_class(
    node: MslPackageNode,
    library: Seq<LibraryClass>,
    show_icons: bool,
    i: int,
) -> bool {
    show_icons || !library[node.classes@[i] as int].icon_only
}

proof fn lemma_package_entries(node: MslPackageNode, show_icons: bool, n: int) -> (at: Seq<int>)
    requires
        0 <= n <= node.subpackages@.len(),
    ensures
        at.len() == package_entries(node, show_icons, n).len(),
        forall|a: int, b: int| 0 <= a < b < at.len() ==> at[a] < at[b],
        forall|i: int|
            0 <= i < n ==> (at.contains(i) <==> #[trigger] offers_package(
                node,
                show_icons,
                i,
            )),
        forall|k: int|
            0 <= k < at.len() ==> 0 <= #[trigger] at[k] < n && package_entries(
                node,
                show_icons,
                n,
            )[k] == MenuEntry::Package(at[k] as usize),
    decreases n,
{
    if n == 0 {
        Seq::empty()
    } else {
        let before = lemma_package_entries(node, show_icons, n - 1);
        let has = show_icons || node.subpackages@[n - 1].node.has_non_icon_class;
        let at = if has {
            before.push(n - 1)
        } else {
            before
        };
        assert forall|i: int| 0 <= i < n implies (at.contains(i) <==> #[trigger] offers_package(
            node,
            show_icons,
            i,
        )) by {
            if i < n - 1 {
                if before.contains(i) {
                    let k = choose|k: int| 0 <= k < before.len() && before[k] == i;
                    assert(at[k] == i);
                }
                if at.contains(i) {
                    let k = choose|k: int| 0 <= k < at.len() && at[k] == i;
                    assert(before[k] == i);
                }
            } else {
                if has {
                    assert(at[before.len() as int] == i);
                }
                if at.contains(i) {
                    let k = choose|k: int| 0 <= k < at.len() && at[k] == i;
                    if k < before.len() {
                        assert(before[k] == i);
                    }
                }
            }
        }
        assert forall|k: int| 0 <= k < at.len() implies 0 <= #[trigger] at[k] < n
            && package_entries(node, show_icons, n)[k] == MenuEntry::Package(at[k] as usize) by {
            if k < before.len() {
                assert(at[k] == before[k]);
            }
        }
        at
    }
}

proof fn lemma_class_entries(
    node: MslPackageNode,
    library: Seq<LibraryClass>,
    show_icons: bool,
    n: int,
) -> (at: Seq<int>)
    requires
        0 <= n <= node.classes@.len(),
    ensures
        at.len() == class_entries(node, library, show_icons, n).len(),
        forall|a: int, b: int| 0 <= a < b < at.len() ==> at[a] < at[b],
        forall|i: int|
            0 <= i < n ==> (at.contains(i) <==> #[trigger] offers_class(
                node,
                library,
                show_icons,
                i,
            )),
        forall|k: int|
            0 <= k < at.len() ==> 0 <= #[trigger] at[k] < n && class_entries(
                node,
                library,
                show_icons,
                n,
            )[k] == MenuEntry::Class(node.classes@[at[k]]),
    decreases n,
{
    if n == 0 {
        Seq::empty()
    } else {
        let before = lemma_class_entries(node, library, show_icons, n - 1);
        let has = show_icons || !library[node.classes@[n - 1] as int].icon_only;
        let at = if has {
            before.push(n - 1)
        } else {
            before
        };
        assert forall|i: int| 0 <= i < n implies (at.contains(i) <==> #[trigger] offers_class(
            node,
            library,
            show_icons,
            i,
        )) by {
            if i < n - 1 {
                if before.contains(i) {
                    let k = choose|k: int| 0 <= k < before.len() && before[k] == i;
                    assert(at[k] == i);
                }
                if at.contains(i) {
                    let k = choose|k: int| 0 <= k < at.len() && at[k] == i;
                    assert(before[k] == i);
                }
            } else {
                if has {
                    assert(at[before.len() as int] == i);
                }
                if at.contains(i) {
                    let k = choose|k: int| 0 <= k < at.len() && at[k] == i;
                    if k < before.len() {
                        assert(before[k] == i);
                    }
                }
            }
        }
        assert forall|k: int| 0 <= k < at.len() implies 0 <= #[trigger] at[k] < n && class_entries(
            node,
            library,
            show_icons,
            n,
        )[k] == MenuEntry::Class(node.classes@[at[k]]) by {
            if k < before.len() {
                assert(at[k] == before[k]);
            }
        }
        at
    }
}

/// The menu of a package starts with its subpackages, in their order: all of them
/// where icons are shown, and otherwise those that hold more than icons. There are
/// increasing places of subpackages, one for each of the first entries.
pub proof fn law_menus_start_with_subpackages(
    node: MslPackageNode,
    library: Seq<LibraryClass>,
    show_icons: bool,
) -> (at: Seq<int>)
    ensures
        at.len() <= package_menu(node, library, show_icons).len(),
        forall|a: int, b: int| 0 <= a < b < at.len() ==> at[a] < at[b],
        forall|i: int|
            0 <= i < node.subpackages@.len() ==> (at.contains(i) <==> #[trigger] offers_package(
                node,
                show_icons,
                i,
            )),
        forall|k: int|
            0 <= k < at.len() ==> 0 <= #[trigger] at[k] < node.subpackages@.len() && package_menu(
                node,
                library,
                show_icons,
            )[k] == MenuEntry::Package(at[k] as usize),
{
    let n = node.subpackages@.len() as int;
    let at = lemma_package_entries(node, show_icons, n);
    assert forall|k: int| 0 <= k < at.len() implies 0 <= #[trigger] at[k] < n && package_menu(
        node,
        library,
        show_icons,
    )[k] == MenuEntry::Package(at[k] as usize) by {
        assert(package_menu(node, library, show_icons)[k] == package_entries(
            node,
            show_icons,
            n,
        )[k]);
    }
    at
}

/// The menu of a package ends with its classes, in their order: all of them where
/// icons are shown, and otherwise those that are more than icons. There are
/// increasing places of classes, one for each of the last entries. What stands
/// between subpackages and classes is a line, where the package has both.
pub proof fn law_menus_end_with_classes(
    node: MslPackageNode,
    library: Seq<LibraryClass>,
    show_icons: bool,
) -> (r: (Seq<int>, Seq<int>))
    ensures
        ({
            let menu = package_menu(node, library, show_icons);
            let (packages, at) = r;
            let both = node.subpackages@.len() > 0 && node.classes@.len() > 0;
            &&& menu.len() == packages.len() + (if both {
                1int
            } else {
                0int
            }) + at.len()
            &&& both ==> menu[packages.len() as int] == MenuEntry::Line
            &&& forall|a: int, b: int| 0 <= a < b < at.len() ==> at[a] < at[b]
            &&& forall|i: int|
                0 <= i < node.classes@.len() ==> (at.contains(i) <==> #[trigger] offers_class(
                    node,
                    library,
                    show_icons,
                    i,
                ))
            &&& forall|k: int|
                0 <= k < at.len() ==> 0 <= #[trigger] at[k] < node.classes@.len()
                    && menu[menu.len() - at.len() + k] == MenuEntry::Class(node.classes@[at[k]])
        }),
{
    let menu = package_menu(node, library, show_icons);
    let n = node.subpackages@.len() as int;
    let m = node.classes@.len() as int;
    let packages = lemma_package_entries(node, show_icons, n);
    let at = lemma_class_entries(node, library, show_icons, m);
    let classes = class_entries(node, library, show_icons, m);
    assert forall|k: int| 0 <= k < at.len() implies 0 <= #[trigger] at[k] < m && menu[menu.len()
        - at.len() + k] == MenuEntry::Class(node.classes@[at[k]]) by {
        assert(menu[menu.len() - at.len() + k] == classes[k]);
    }
    (packages, at)
}

/// The classes of a package are listed by name: none stands before one whose name
/// comes before its own.
pub proof fn law_classes_are_listed_by_name(
    node: MslPackageNode,
    library: Seq<LibraryClass>,
    members: Seq<int>,
    depth: int,
    i: int,
    j: int,
)
    requires
        is_package_of(node, library, members, depth),
        0 <= i < j < node.classes@.len(),
    ensures
        crate::text::lex_le(
            library[node.classes@[i] as int].name@,
            library[node.classes@[j] as int].name@,
        ),
{
    let own = own_classes(library, members, depth);
    assert(are_sorted_classes(places(node.classes@), library, own));
    let names = class_names(library, own);
    let order = choose|order: Seq<int>|
        {
            &&& #[trigger] is_name_order(order, names)
            &&& places(node.classes@) == order.map_values(|k: int| own[k])
        };
    assert(places(node.classes@).len() == node.classes@.len());
    assert(crate::text::name_before(names, order[i], order[j]));
    assert(places(node.classes@)[i] == own[order[i]]);
    assert(places(node.classes@)[j] == own[order[j]]);
}

/// A package lists itself only classes that lie in it, not deeper; and each of its
/// subpackages is named by a part of some class's path.
pub proof fn law_classes_lie_where_their_path_ends(
    node: MslPackageNode,
    library: Seq<LibraryClass>,
    members: Seq<int>,
    depth: int,
    k: int,
)
    requires
        is_package_of(node, library, members, depth),
        0 <= k < node.classes@.len(),
    ensures
        split(library[node.classes@[k] as int].msl_path@, '.').len() <= depth + 1,
{
    let pick = |i: int| path_of(library, i).len() <= depth + 1;
    let own = own_classes(library, members, depth);
    lemma_filter_keeps(members, pick);
    assert(are_sorted_classes(places(node.classes@), library, own));
    let order = choose|order: Seq<int>|
        {
            &&& #[trigger] is_name_order(order, class_names(library, own))
            &&& places(node.classes@) == order.map_values(|k: int| own[k])
        };
    assert(places(node.classes@).len() == node.classes@.len());
    assert(places(node.classes@)[k] == own[order[k]]);
    assert(pick(own[order[k]]));
}

/// The text of a class ends with its name; what stands before it is its character
/// and two spaces, where it has one.
pub proof fn law_labels_end_with_the_name(icon_text: Option<String>, name: Seq<char>)
    ensures
        ({
            let l = class_label_spec(icon_text, name);
            &&& l.len() >= name.len()
            &&& l.skip(l.len() - name.len()) == name
            &&& icon_text is None || (icon_text->0)@.len() == 0 ==> l == name
            &&& icon_text matches Some(ic) ==> (ic@.len() > 0 ==> l.take(ic@.len() as int) == ic@
                && l.len() == ic@.len() + 2 + name.len())
        }),
{
    reveal_strlit("  ");
    let l = class_label_spec(icon_text, name);
    assert(l.skip(l.len() - name.len()) =~= name);
    if let Some(ic) = icon_text {
        if ic@.len() > 0 {
            assert(l.take(ic@.len() as int) =~= ic@);
        }
    }
}

} // verus!
