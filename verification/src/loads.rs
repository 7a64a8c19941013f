//! Documents that are still loading, and how tabs are opened for classes.
use crate::fixed::{ratio_spec, Fixed};
use crate::text::{copy_opt_text, opt_view, same_text, text3};
use std::collections::HashMap;
use vstd::prelude::*;

verus! {

broadcast use vstd::std_specs::hash::group_hash_axioms;

// ── Classes by document ──────────────────────────────────────────────────

/// The class that each tab was opened for, by document.
pub struct DrilledInClassNames {
    pub by_doc: HashMap<u64, String>,
}

/// The class of a document, where it has one.
pub open spec fn class_of(names: DrilledInClassNames, doc: u64) -> Option<Seq<char>> {
    if names.by_doc@.contains_key(doc) {
        Some(names.by_doc@[doc]@)
    } else {
        None
    }
}

/// Whether `after` is `before` with the document's class set.
pub open spec fn class_is_set(
    before: DrilledInClassNames,
    after: DrilledInClassNames,
    doc: u64,
    class: Seq<char>,
) -> bool {
    &&& after.by_doc@.contains_key(doc)
    &&& after.by_doc@ == before.by_doc@.insert(doc, after.by_doc@[doc])
    &&& after.by_doc@[doc]@ == class
}

impl DrilledInClassNames {
    pub fn new() -> (r: DrilledInClassNames)
        ensures
            r.by_doc@ == Map::<u64, String>::empty(),
    {
        DrilledInClassNames { by_doc: HashMap::new() }
    }

    /// The class of a document.
    pub fn get(&self, doc: u64) -> (r: Option<&str>)
        ensures
            match r {
                Some(s) => class_of(*self, doc) == Some(s@),
                None => class_of(*self, doc) is None,
            },
    {
        match self.by_doc.get(&doc) {
            Some(s) => Some(s.as_str()),
            None => None,
        }
    }

    /// Sets the class of a document.
    pub fn set(&mut self, doc: u64, qualified: String)
        ensures
            final(self).by_doc@ == old(self).by_doc@.insert(doc, qualified),
            class_is_set(*old(self), *final(self), doc, qualified@),
    {
        let _ = self.by_doc.insert(doc, qualified);
    }

    /// Forgets the class of a document, and gives it.
    pub fn remove(&mut self, doc: u64) -> (r: Option<String>)
        ensures
            final(self).by_doc@ == old(self).by_doc@.remove(doc),
            match r {
                Some(s) => old(self).by_doc@.contains_key(doc) && s == old(self).by_doc@[doc],
                None => !old(self).by_doc@.contains_key(doc),
            },
    {
        self.by_doc.remove(&doc)
    }
}

// ── Snapping ─────────────────────────────────────────────────────────────

/// Whether dragged nodes snap to a grid, and its step in units of the diagram.
#[derive(Clone, Copy, Debug, PartialEq, Eq, Structural)]
pub struct CanvasSnapSettings {
    pub enabled: bool,
    pub step: Fixed,
}

impl Default for CanvasSnapSettings {
    /// Snapping is off; its step is five.
    fn default() -> (r: CanvasSnapSettings)
        ensures
            !r.enabled,
            r.step == ratio_spec(5, 1),
    {
        CanvasSnapSettings { enabled: false, step: Fixed::whole(5) }
    }
}

/// The step that the canvas snaps to in this frame, where it snaps.
pub fn snap_step(settings: &CanvasSnapSettings) -> (r: Option<Fixed>)
    ensures
        r == (if settings.enabled {
            Some(settings.step)
        } else {
            None
        }),
{
    if settings.enabled {
        Some(settings.step)
    } else {
        None
    }
}

// ── Pending loads ────────────────────────────────────────────────────────

/// A class that is loading into a tab. Times are milliseconds of the host's
/// clock; the task is the host's number for the load.
#[derive(Debug, PartialEq, Eq)]
pub struct DrillInBinding {
    pub qualified: String,
    pub started: u64,
    pub task: u64,
}

/// A class that is being copied into the workspace.
#[derive(Debug, PartialEq, Eq)]
pub struct DuplicateBinding {
    pub display_name: String,
    pub origin_short: String,
    /// The class inside the copied one that the tab showed, by its path.
    pub inner_drill: Option<String>,
    pub started: u64,
    pub task: u64,
}

/// Loads of classes into tabs, by document.
pub struct DrillInLoads {
    pub pending: HashMap<u64, DrillInBinding>,
}

/// Copies into the workspace that are under way, by document.
pub struct DuplicateLoads {
    pub pending: HashMap<u64, DuplicateBinding>,
}

/// The time since `started`.
pub open spec fn since(started: u64, now: u64) -> u64 {
    if now >= started {
        (now - started) as u64
    } else {
        0
    }
}

fn elapsed(started: u64, now: u64) -> (r: u64)
    ensures
        r == since(started, now),
{
    if now >= started {
        now - started
    } else {
        0
    }
}

impl DuplicateLoads {
    pub fn is_loading(&self, doc: u64) -> (r: bool)
        ensures
            r == self.pending@.contains_key(doc),
    {
        self.pending.contains_key(&doc)
    }

    /// The name of the copy that is under way.
    pub fn detail(&self, doc: u64) -> (r: Option<&str>)
        ensures
            match r {
                Some(s) => self.pending@.contains_key(doc) && s@
                    == self.pending@[doc].display_name@,
                None => !self.pending@.contains_key(doc),
            },
    {
        match self.pending.get(&doc) {
            Some(b) => Some(b.display_name.as_str()),
            None => None,
        }
    }

    /// The name of the copy that is under way, and for how long.
    pub fn progress(&self, doc: u64, now: u64) -> (r: Option<(&str, u64)>)
        ensures
            match r {
                Some((s, ms)) => self.pending@.contains_key(doc) && s@
                    == self.pending@[doc].display_name@ && ms == since(
                    self.pending@[doc].started,
                    now,
                ),
                None => !self.pending@.contains_key(doc),
            },
    {
        match self.pending.get(&doc) {
            Some(b) => Some((b.display_name.as_str(), elapsed(b.started, now))),
            None => None,
        }
    }

    pub fn insert(&mut self, doc: u64, binding: DuplicateBinding)
        ensures
            final(self).pending@ == old(self).pending@.insert(doc, binding),
    {
        let _ = self.pending.insert(doc, binding);
    }
}

impl DrillInLoads {
    pub fn is_loading(&self, doc: u64) -> (r: bool)
        ensures
            r == self.pending@.contains_key(doc),
    {
        self.pending.contains_key(&doc)
    }

    /// The class that is loading.
    pub fn detail(&self, doc: u64) -> (r: Option<&str>)
        ensures
            match r {
                Some(s) => self.pending@.contains_key(doc) && s@ == self.pending@[doc].qualified@,
                None => !self.pending@.contains_key(doc),
            },
    {
        match self.pending.get(&doc) {
            Some(b) => Some(b.qualified.as_str()),
            None => None,
        }
    }

    /// The class that is loading, and for how long.
    pub fn progress(&self, doc: u64, now: u64) -> (r: Option<(&str, u64)>)
        ensures
            match r {
                Some((s, ms)) => self.pending@.contains_key(doc) && s@
                    == self.pending@[doc].qualified@ && ms == since(
                    self.pending@[doc].started,
                    now,
                ),
                None => !self.pending@.contains_key(doc),
            },
    {
        match self.pending.get(&doc) {
            Some(b) => Some((b.qualified.as_str(), elapsed(b.started, now))),
            None => None,
        }
    }
}

// ── Copies ───────────────────────────────────────────────────────────────

/// A class of a document's index.
#[derive(Debug, PartialEq, Eq)]
pub struct IndexedClass {
    pub name: String,
    pub is_package: bool,
}

/// The first class of the index, at or after place `from`, that is not a
/// package.
pub open spec fn first_indexed(classes: Seq<IndexedClass>, from: int) -> Option<Seq<char>>
    decreases classes.len() - from,
{
    if from >= classes.len() {
        None
    } else if !classes[from].is_package {
        Some(classes[from].name@)
    } else {
        first_indexed(classes, from + 1)
    }
}

/// The class that the tab of a copy shows: the class inside the copy that was
/// shown before, else the copy's first class that is not a package.
pub open spec fn copied_class(b: DuplicateBinding, classes: Seq<IndexedClass>) -> Option<Seq<char>> {
    match b.inner_drill {
        Some(rest) => Some(b.display_name@ + "."@ + rest@),
        None => first_indexed(classes, 0),
    }
}

fn find_first_indexed(classes: &Vec<IndexedClass>) -> (r: Option<String>)
    ensures
        opt_view(r) == first_indexed(classes@, 0),
{
    let mut i: usize = 0;
    while i < classes.len()
        invariant
            i <= classes@.len(),
            first_indexed(classes@, 0) == first_indexed(classes@, i as int),
        decreases classes@.len() - i,
    {
        if !classes[i].is_package {
            return Some(classes[i].name.clone());
        }
        i += 1;
    }
    None
}

/// Takes a finished copy: it is no longer under way, and the tab shows the
/// class that the copy is shown for. `classes` is the index of the document,
/// which the host has installed. Nothing happens where no copy was under way.
pub fn drive_duplicate_loads(
    loads: &mut DuplicateLoads,
    names: &mut DrilledInClassNames,
    doc: u64,
    classes: &Vec<IndexedClass>,
) -> (target: Option<String>)
    ensures
        final(loads).pending@ == old(loads).pending@.remove(doc),
        opt_view(target) == (if old(loads).pending@.contains_key(doc) {
            copied_class(old(loads).pending@[doc], classes@)
        } else {
            None
        }),
        match target {
            Some(q) => class_is_set(*old(names), *final(names), doc, q@),
            None => *final(names) == *old(names),
        },
{
    let binding = match loads.pending.remove(&doc) {
        Some(b) => b,
        None => {
            return None;
        },
    };
    let target = match &binding.inner_drill {
        Some(rest) => Some(text3(binding.display_name.as_str(), ".", rest.as_str())),
        None => find_first_indexed(classes),
    };
    if let Some(q) = &target {
        names.set(doc, q.clone());
    }
    target
}

// ── Loaded classes ───────────────────────────────────────────────────────

/// How a tab shows its class.
#[derive(Clone, Copy, Debug, PartialEq, Eq, Structural)]
pub enum ModelViewMode {
    Text,
    Canvas,
    Icon,
}

/// An open tab.
#[derive(Debug, PartialEq, Eq)]
pub struct ModelTab {
    pub doc: u64,
    pub drilled_class: Option<String>,
    pub view_mode: ModelViewMode,
    pub load_error: Option<String>,
    /// Whether the tab stays when another class is looked at.
    pub pinned: bool,
}

/// Pins every tab of a document: an edit makes a preview permanent.
pub fn pin_all_for_doc(tabs: &mut Vec<ModelTab>, doc: u64)
    ensures
        final(tabs)@.len() == old(tabs)@.len(),
        forall|i: int|
            0 <= i < old(tabs)@.len() ==> #[trigger] final(tabs)@[i] == (if old(tabs)@[i].doc
                == doc {
                ModelTab { pinned: true, ..old(tabs)@[i] }
            } else {
                old(tabs)@[i]
            }),
{
    let ghost all = tabs@;
    let mut i: usize = 0;
    while i < tabs.len()
        invariant
            i <= tabs@.len(),
            tabs@.len() == all.len(),
            forall|j: int|
                0 <= j < i ==> #[trigger] tabs@[j] == (if all[j].doc == doc {
                    ModelTab { pinned: true, ..all[j] }
                } else {
                    all[j]
                }),
            forall|j: int| i <= j < all.len() ==> #[trigger] tabs@[j] == all[j],
        decreases tabs@.len() - i,
    {
        let ghost before = tabs@;
        if tabs[i].doc == doc {
            tabs[i].pinned = true;
        }
        assert forall|j: int| 0 <= j < all.len() && j != i implies tabs@[j] == before[j] by {
        }
        i += 1;
    }
}

/// Whether the tab shows the class of the document.
pub open spec fn is_tab_of(t: ModelTab, doc: u64, class: Seq<char>) -> bool {
    t.doc == doc && opt_view(t.drilled_class) == Some(class)
}

/// The first tab of the class, at or after place `from`, or the number of tabs.
pub open spec fn tab_place(tabs: Seq<ModelTab>, doc: u64, class: Seq<char>, from: int) -> int
    decreases tabs.len() - from,
{
    if from >= tabs.len() {
        tabs.len() as int
    } else if is_tab_of(tabs[from], doc, class) {
        from
    } else {
        tab_place(tabs, doc, class, from + 1)
    }
}

/// What the host knows of a class that has loaded.
#[derive(Clone, Copy, Debug, PartialEq, Eq, Structural)]
pub struct LoadedClass {
    pub is_icon_only: bool,
    /// Whether the class has components, where it was found in its file.
    pub has_components: Option<bool>,
}

/// Whether a loaded class is shown by its icon: where it is nothing but an
/// icon, and where it has no components.
pub open spec fn lands_in_icon_view(c: LoadedClass) -> bool {
    c.is_icon_only || c.has_components == Some(false)
}

/// Whether the tab's `after` is `before` with the error shown where the tab
/// waits for the class.
pub open spec fn shows_error(
    before: ModelTab,
    after: ModelTab,
    doc: u64,
    class: Seq<char>,
    message: Seq<char>,
) -> bool {
    if is_tab_of(before, doc, class) {
        &&& after == (ModelTab { load_error: after.load_error, ..before })
        &&& opt_view(after.load_error) == Some(message)
    } else {
        after == before
    }
}

fn is_waiting_tab(t: &ModelTab, doc: u64, class: &str) -> (r: bool)
    ensures
        r == is_tab_of(*t, doc, class@),
{
    t.doc == doc && match &t.drilled_class {
        Some(c) => same_text(c.as_str(), class),
        None => false,
    }
}

fn show_load_error(tabs: &mut Vec<ModelTab>, doc: u64, class: &str, message: &str)
    ensures
        final(tabs)@.len() == old(tabs)@.len(),
        forall|i: int|
            0 <= i < old(tabs)@.len() ==> shows_error(
                #[trigger] old(tabs)@[i],
                final(tabs)@[i],
                doc,
                class@,
                message@,
            ),
{
    let ghost all = tabs@;
    let mut i: usize = 0;
    while i < tabs.len()
        invariant
            i <= tabs@.len(),
            tabs@.len() == all.len(),
            forall|j: int|
                0 <= j < i ==> shows_error(#[trigger] all[j], tabs@[j], doc, class@, message@),
            forall|j: int| i <= j < all.len() ==> #[trigger] all[j] == tabs@[j],
        decreases tabs@.len() - i,
    {
        let ghost before = tabs@;
        assert(all[i as int] == tabs@[i as int]);
        if is_waiting_tab(&tabs[i], doc, class) {
            tabs[i].load_error = Some(message.to_owned());
        }
        assert forall|j: int| 0 <= j < all.len() && j != i implies tabs@[j] == before[j] by {
        }
        i += 1;
    }
}

/// What became of a load.
#[derive(Debug, PartialEq, Eq)]
pub enum DrillInResult {
    /// No load was under way.
    NotLoading,
    /// The class could not be loaded; the tabs that wait for it say why.
    Failed,
    /// The class was loaded.
    Installed { icon_view: bool },
}

/// Whether a finished load was taken: where none was under way nothing changed; a
/// failure is shown in the tabs that wait for the class; and where the class was
/// loaded the document is known by it, and its tab shows the icon of a class that
/// has nothing else to show.
pub open spec fn is_load_taken(
    r: DrillInResult,
    loads: DrillInLoads,
    names0: DrilledInClassNames,
    names1: DrilledInClassNames,
    tabs0: Seq<ModelTab>,
    tabs1: Seq<ModelTab>,
    doc: u64,
    result: Result<LoadedClass, String>,
) -> bool {
    if !loads.pending@.contains_key(doc) {
        &&& r is NotLoading
        &&& names1 == names0
        &&& tabs1 == tabs0
    } else {
        let class = loads.pending@[doc].qualified@;
        match result {
            Err(message) => {
                &&& r is Failed
                &&& names1 == names0
                &&& forall|i: int|
                    0 <= i < tabs0.len() ==> shows_error(
                        #[trigger] tabs0[i],
                        tabs1[i],
                        doc,
                        class,
                        message@,
                    )
            },
            Ok(c) => {
                let k = tab_place(tabs0, doc, class, 0);
                &&& r == (DrillInResult::Installed { icon_view: lands_in_icon_view(c) })
                &&& class_is_set(names0, names1, doc, class)
                &&& tabs1 == (if lands_in_icon_view(c) && k < tabs0.len() {
                    tabs0.update(k, (ModelTab { view_mode: ModelViewMode::Icon, ..tabs0[k] }))
                } else {
                    tabs0
                })
            },
        }
    }
}

/// Takes a finished load. A failure is shown in every tab that waits for the
/// class. Otherwise the document is known by the class, and the tab shows the
/// icon of a class that has nothing else to show.
pub fn drive_drill_in_loads(
    loads: &mut DrillInLoads,
    names: &mut DrilledInClassNames,
    tabs: &mut Vec<ModelTab>,
    doc: u64,
    result: Result<LoadedClass, String>,
) -> (r: DrillInResult)
    ensures
        final(loads).pending@ == old(loads).pending@.remove(doc),
        final(tabs)@.len() == old(tabs)@.len(),
        is_load_taken(
            r,
            *old(loads),
            *old(names),
            *final(names),
            old(tabs)@,
            final(tabs)@,
            doc,
            result,
        ),
{
    let binding = match loads.pending.remove(&doc) {
        Some(b) => b,
        None => {
            return DrillInResult::NotLoading;
        },
    };
    let class: &str = binding.qualified.as_str();
    match result {
        Err(message) => {
            show_load_error(tabs, doc, class, message.as_str());
            DrillInResult::Failed
        },
        Ok(c) => {
            names.set(doc, binding.qualified.clone());
            let icon_view = c.is_icon_only || match c.has_components {
                Some(present) => !present,
                None => false,
            };
            if icon_view {
                if let Some(k) = find_tab(tabs, doc, class) {
                    let ghost before = tabs@;
                    tabs[k].view_mode = ModelViewMode::Icon;
                    assert(tabs@ =~= before.update(
                        k as int,
                        ModelTab { view_mode: ModelViewMode::Icon, ..before[k as int] },
                    ));
                }
            }
            DrillInResult::Installed { icon_view }
        },
    }
}

fn find_tab(tabs: &Vec<ModelTab>, doc: u64, class: &str) -> (r: Option<usize>)
    ensures
        match r {
            Some(k) => k == tab_place(tabs@, doc, class@, 0) && k < tabs@.len(),
            None => tab_place(tabs@, doc, class@, 0) == tabs@.len(),
        },
{
    let mut i: usize = 0;
    while i < tabs.len()
        invariant
            i <= tabs@.len(),
            tab_place(tabs@, doc, class@, 0) == tab_place(tabs@, doc, class@, i as int),
        decreases tabs@.len() - i,
    {
        if is_waiting_tab(&tabs[i], doc, class) {
            return Some(i);
        }
        i += 1;
    }
    None
}

// ── Opening a class ──────────────────────────────────────────────────────

/// Where a class that is to be shown is found.
#[derive(Clone, Copy, Debug, PartialEq, Eq, Structural)]
pub enum DrillTarget {
    /// In a file of a library.
    LibraryFile,
    /// In a document that is open.
    OpenDocument(u64),
    /// Nowhere.
    NotFound,
}

/// An open document, and whether it holds the class that is looked for.
#[derive(Clone, Copy, Debug, PartialEq, Eq, Structural)]
pub struct OpenDocument {
    pub doc: u64,
    pub has_class: bool,
}

/// The first open document, at or after place `from`, that holds the class.
pub open spec fn holder(docs: Seq<OpenDocument>, from: int) -> DrillTarget
    decreases docs.len() - from,
{
    if from >= docs.len() {
        DrillTarget::NotFound
    } else if docs[from].has_class {
        DrillTarget::OpenDocument(docs[from].doc)
    } else {
        holder(docs, from + 1)
    }
}

/// Decides where a class is shown from: a library file wins over the open
/// documents. An open document that holds the class is then known by it.
pub fn drill_into_class(
    names: &mut DrilledInClassNames,
    qualified: &str,
    has_library_file: bool,
    docs: &Vec<OpenDocument>,
) -> (r: DrillTarget)
    ensures
        r == (if has_library_file {
            DrillTarget::LibraryFile
        } else {
            holder(docs@, 0)
        }),
        match r {
            DrillTarget::OpenDocument(d) => class_is_set(
                *old(names),
                *final(names),
                d,
                qualified@,
            ),
            _ => *final(names) == *old(names),
        },
{
    if has_library_file {
        return DrillTarget::LibraryFile;
    }
    let mut i: usize = 0;
    while i < docs.len()
        invariant
            i <= docs@.len(),
            !has_library_file,
            *names == *old(names),
            holder(docs@, 0) == holder(docs@, i as int),
        decreases docs@.len() - i,
    {
        if docs[i].has_class {
            let d: u64 = docs[i].doc;
            names.set(d, qualified.to_owned());
            return DrillTarget::OpenDocument(d);
        }
        i += 1;
    }
    DrillTarget::NotFound
}

/// A document with a tab, and the file that it was read from.
#[derive(Debug, PartialEq, Eq)]
pub struct TabDocument {
    pub doc: u64,
    pub file: Option<String>,
}

/// Whether the document has a tab from a drill-in into the file.
pub open spec fn is_drilled_file(
    t: TabDocument,
    names: DrilledInClassNames,
    file: Seq<char>,
) -> bool {
    opt_view(t.file) == Some(file) && class_of(names, t.doc) is Some
}

/// The first document, at or after place `from`, with a tab from a drill-in
/// into the file.
pub open spec fn open_document(
    docs: Seq<TabDocument>,
    names: DrilledInClassNames,
    file: Seq<char>,
    from: int,
) -> Option<u64>
    decreases docs.len() - from,
{
    if from >= docs.len() {
        None
    } else if is_drilled_file(docs[from], names, file) {
        Some(docs[from].doc)
    } else {
        open_document(docs, names, file, from + 1)
    }
}

fn find_open_document(
    docs: &Vec<TabDocument>,
    names: &DrilledInClassNames,
    file: &str,
) -> (r: Option<u64>)
    ensures
        r == open_document(docs@, *names, file@, 0),
{
    let mut i: usize = 0;
    while i < docs.len()
        invariant
            i <= docs@.len(),
            open_document(docs@, *names, file@, 0) == open_document(
                docs@,
                *names,
                file@,
                i as int,
            ),
        decreases docs@.len() - i,
    {
        let same_file = match &docs[i].file {
            Some(f) => same_text(f.as_str(), file),
            None => false,
        };
        if same_file && names.get(docs[i].doc).is_some() {
            return Some(docs[i].doc);
        }
        i += 1;
    }
    None
}

/// Whether `r` is the document whose tab shows a class of a library file, and
/// whether it is still to be loaded: an open one without a load, or else the
/// reserved one, for which a load is then under way.
pub open spec fn is_drilled_into(
    r: (u64, bool),
    docs: Seq<TabDocument>,
    names: DrilledInClassNames,
    before: DrillInLoads,
    after: DrillInLoads,
    qualified: Seq<char>,
    file: Seq<char>,
    reserved: u64,
    task: u64,
    now: u64,
) -> bool {
    match open_document(docs, names, file, 0) {
        Some(d) => r == (d, false) && after == before,
        None => {
            &&& r == (reserved, true)
            &&& after.pending@.contains_key(reserved)
            &&& after.pending@ == before.pending@.insert(reserved, after.pending@[reserved])
            &&& after.pending@[reserved].qualified@ == qualified
            &&& after.pending@[reserved].started == now
            &&& after.pending@[reserved].task == task
        },
    }
}

/// The document whose tab shows a class of a library file, and whether it is
/// still to be loaded. A tab that is open on the same file from an earlier
/// drill-in is used again, and then shows this class. Otherwise the reserved
/// document is opened, and a load is under way for it. Either way the document
/// is known by the class at once.
pub fn open_drill_in_tab(
    docs: &Vec<TabDocument>,
    names: &mut DrilledInClassNames,
    loads: &mut DrillInLoads,
    qualified: &str,
    file: &str,
    reserved: u64,
    task: u64,
    now: u64,
) -> (r: (u64, bool))
    ensures
        is_drilled_into(
            r,
            docs@,
            *old(names),
            *old(loads),
            *final(loads),
            qualified@,
            file@,
            reserved,
            task,
            now,
        ),
        class_is_set(*old(names), *final(names), r.0, qualified@),
{
    let (doc, needs_load) = match find_open_document(docs, names, file) {
        Some(d) => (d, false),
        None => (reserved, true),
    };
    if needs_load {
        let binding = DrillInBinding { qualified: qualified.to_owned(), started: now, task };
        let _ = loads.pending.insert(doc, binding);
    }
    names.set(doc, qualified.to_owned());
    (doc, needs_load)
}

// ── Which class is edited ────────────────────────────────────────────────

/// The class that edits of a document go to: the one that its tab was opened
/// for, else the first class of its source that is not a package, else the one
/// that was detected when it was opened.
pub open spec fn edited_class(
    names: DrilledInClassNames,
    doc: u64,
    source_class: Option<Seq<char>>,
    detected: Option<Seq<char>>,
) -> Option<Seq<char>> {
    match class_of(names, doc) {
        Some(c) => Some(c),
        None => match source_class {
            Some(c) => Some(c),
            None => detected,
        },
    }
}

/// The document that is shown and the class that edits go to; no class where
/// no document is shown.
pub fn resolve_doc_context(
    names: &DrilledInClassNames,
    active_doc: Option<u64>,
    source_class: &Option<String>,
    detected: &Option<String>,
) -> (r: (Option<u64>, Option<String>))
    ensures
        r.0 == active_doc,
        opt_view(r.1) == (match active_doc {
            Some(d) => edited_class(*names, d, opt_view(*source_class), opt_view(*detected)),
            None => None,
        }),
{
    let doc = match active_doc {
        Some(d) => d,
        None => {
            return (None, None);
        },
    };
    let class = match names.get(doc) {
        Some(c) => Some(c.to_owned()),
        None => match source_class {
            Some(c) => Some(c.clone()),
            None => copy_opt_text(detected),
        },
    };
    (Some(doc), class)
}

/// The class that a canvas shows: the one that the tab which is drawn was opened
/// for, where it is a tab of the document, else the one of the document.
pub open spec fn shown_class(
    names: DrilledInClassNames,
    tab: Option<ModelTab>,
    doc: u64,
) -> Option<Seq<char>> {
    match tab {
        Some(t) => if t.doc == doc && t.drilled_class is Some {
            opt_view(t.drilled_class)
        } else {
            class_of(names, doc)
        },
        None => class_of(names, doc),
    }
}

/// The class that the canvas is projected for. Tabs on one document may show a
/// class each.
pub fn projection_target(names: &DrilledInClassNames, tab: Option<&ModelTab>, doc: u64) -> (r:
    Option<String>)
    ensures
        opt_view(r) == shown_class(
            *names,
            match tab {
                Some(t) => Some(*t),
                None => None,
            },
            doc,
        ),
{
    if let Some(t) = tab {
        if t.doc == doc && t.drilled_class.is_some() {
            return copy_opt_text(&t.drilled_class);
        }
    }
    match names.get(doc) {
        Some(c) => Some(c.to_owned()),
        None => None,
    }
}

/// The class that automatic layout arranges: the one that the tab was opened
/// for, else the one that was detected when the document was opened.
pub fn active_class_for_doc(
    names: &DrilledInClassNames,
    doc: u64,
    detected: &Option<String>,
) -> (r: Option<String>)
    ensures
        opt_view(r) == edited_class(*names, doc, None, opt_view(*detected)),
{
    match names.get(doc) {
        Some(c) => Some(c.to_owned()),
        None => copy_opt_text(detected),
    }
}

/// The document that automatic layout is for: the given one, or, where that is
/// zero, the one that is shown.
pub fn on_auto_arrange_diagram(raw: u64, active_doc: Option<u64>) -> (r: Option<u64>)
    ensures
        r == (if raw == 0 {
            active_doc
        } else {
            Some(raw)
        }),
{
    if raw == 0 {
        active_doc
    } else {
        Some(raw)
    }
}

// ── Laws ─────────────────────────────────────────────────────────────────

/// A file is drilled into once: while a tab from an earlier drill-in into it is
/// open, whichever class it shows, a further drill-in finds a document of that
/// file.
pub proof fn law_open_file_is_reused(
    docs: Seq<TabDocument>,
    names: DrilledInClassNames,
    file: Seq<char>,
    from: int,
    i: int,
)
    requires
        0 <= from <= i < docs.len(),
        is_drilled_file(docs[i], names, file),
    ensures
        open_document(docs, names, file, from) is Some,
        exists|k: int|
            0 <= k < docs.len() && is_drilled_file(#[trigger] docs[k], names, file) && docs[k].doc
                == open_document(docs, names, file, from)->0,
    decreases i - from,
{
    if is_drilled_file(docs[from], names, file) {
        assert(docs[from].doc == open_document(docs, names, file, from)->0);
    } else {
        law_open_file_is_reused(docs, names, file, from + 1, i);
    }
}

/// A drill-in is remembered: once the document that was opened for a class has
/// its file, the next drill-in into that file, for whichever class, is given a
/// document that is open and no load.
pub proof fn law_siblings_share_a_tab(
    docs: Seq<TabDocument>,
    before: DrilledInClassNames,
    after: DrilledInClassNames,
    qualified: Seq<char>,
    file: Seq<char>,
    i: int,
)
    requires
        0 <= i < docs.len(),
        opt_view(docs[i].file) == Some(file),
        class_is_set(before, after, docs[i].doc, qualified),
    ensures
        open_document(docs, after, file, 0) is Some,
{
    law_open_file_is_reused(docs, after, file, 0, i);
}

/// Setting the class of a document makes that its class and leaves every other
/// document its own.
pub proof fn law_classes_are_set_by_document(
    before: DrilledInClassNames,
    after: DrilledInClassNames,
    doc: u64,
    class: Seq<char>,
    other: u64,
)
    requires
        class_is_set(before, after, doc, class),
        other != doc,
    ensures
        class_of(after, doc) == Some(class),
        class_of(after, other) == class_of(before, other),
{
}

/// The time since a start is what has passed of the clock, and none where the
/// clock stands before the start.
pub proof fn law_time_passes_from_the_start(started: u64, now: u64)
    ensures
        now >= started ==> started + since(started, now) == now,
        now <= started ==> since(started, now) == 0,
{
}

proof fn lemma_first_indexed(classes: Seq<IndexedClass>, from: int, i: int)
    requires
        0 <= from <= i <= classes.len(),
        forall|k: int| from <= k < i ==> (#[trigger] classes[k]).is_package,
        i < classes.len() ==> !classes[i].is_package,
    ensures
        i < classes.len() ==> first_indexed(classes, from) == Some(classes[i].name@),
        i == classes.len() ==> first_indexed(classes, from) is None,
    decreases i - from,
{
    if from < i {
        assert(classes[from].is_package);
        lemma_first_indexed(classes, from + 1, i);
    }
}

/// The tab of a copy shows the inner class that was shown before, under the copy's
/// own name; else the first class of the copy that is no package.
pub proof fn law_copies_show_what_was_shown(
    b: DuplicateBinding,
    classes: Seq<IndexedClass>,
    i: int,
)
    requires
        0 <= i <= classes.len(),
        forall|k: int| 0 <= k < i ==> (#[trigger] classes[k]).is_package,
        i < classes.len() ==> !classes[i].is_package,
    ensures
        b.inner_drill matches Some(rest) ==> (copied_class(b, classes) matches Some(c) && {
            let n = b.display_name@.len();
            &&& c.len() == n + 1 + rest@.len()
            &&& c.take(n as int) == b.display_name@
            &&& c[n as int] == '.'
            &&& c.skip(n as int + 1) == rest@
        }),
        b.inner_drill is None && i < classes.len() ==> copied_class(b, classes) == Some(
            classes[i].name@,
        ),
        b.inner_drill is None && i == classes.len() ==> copied_class(b, classes) is None,
{
    lemma_first_indexed(classes, 0, i);
    reveal_strlit(".");
    if let Some(rest) = b.inner_drill {
        let c = b.display_name@ + "."@ + rest@;
        assert(c.take(b.display_name@.len() as int) =~= b.display_name@);
        assert(c.skip(b.display_name@.len() as int + 1) =~= rest@);
    }
}

/// The tab that a load is for is the first of the document that was opened for the
/// class.
pub proof fn law_loads_find_the_first_tab(
    tabs: Seq<ModelTab>,
    doc: u64,
    class: Seq<char>,
    from: int,
    i: int,
)
    requires
        0 <= from <= i <= tabs.len(),
        forall|k: int|
            from <= k < i ==> !((#[trigger] tabs[k]).doc == doc && tabs[k].drilled_class is Some
                && (tabs[k].drilled_class->0)@ == class),
        i < tabs.len() ==> tabs[i].doc == doc && tabs[i].drilled_class is Some && (
        tabs[i].drilled_class->0)@ == class,
    ensures
        tab_place(tabs, doc, class, from) == i,
    decreases i - from,
{
    if from < i {
        assert(!is_tab_of(tabs[from], doc, class));
        law_loads_find_the_first_tab(tabs, doc, class, from + 1, i);
    }
}

/// A class that is nothing but an icon is shown by its icon, and so is one that is
/// known to have no components; any other is not.
pub proof fn law_classes_without_components_show_their_icon(c: LoadedClass)
    ensures
        c.is_icon_only ==> lands_in_icon_view(c),
        c.has_components == Some(false) ==> lands_in_icon_view(c),
        !c.is_icon_only && c.has_components == Some(true) ==> !lands_in_icon_view(c),
        !c.is_icon_only && c.has_components is None ==> !lands_in_icon_view(c),
{
}

/// The message of a failed load stands in every tab that waits for the class, and
/// in no other; nothing else of a tab changes.
pub proof fn law_failed_loads_are_told_where_they_are_awaited(
    before: ModelTab,
    after: ModelTab,
    doc: u64,
    class: Seq<char>,
    message: Seq<char>,
)
    requires
        shows_error(before, after, doc, class, message),
    ensures
        after.doc == before.doc,
        after.drilled_class == before.drilled_class,
        after.view_mode == before.view_mode,
        after.pinned == before.pinned,
        before.doc == doc && before.drilled_class is Some && (before.drilled_class->0)@ == class
            ==> after.load_error is Some && (after.load_error->0)@ == message,
        !(before.doc == doc && before.drilled_class is Some && (before.drilled_class->0)@ == class)
            ==> after.load_error == before.load_error,
{
}

/// Of the open documents the first that holds the class shows it, and none where
/// none holds it.
pub proof fn law_the_first_holder_shows_a_class(docs: Seq<OpenDocument>, from: int, i: int)
    requires
        0 <= from <= i <= docs.len(),
        forall|k: int| from <= k < i ==> !(#[trigger] docs[k]).has_class,
        i < docs.len() ==> docs[i].has_class,
    ensures
        i < docs.len() ==> holder(docs, from) == DrillTarget::OpenDocument(docs[i].doc),
        i == docs.len() ==> holder(docs, from) == DrillTarget::NotFound,
    decreases i - from,
{
    if from < i {
        law_the_first_holder_shows_a_class(docs, from + 1, i);
    }
}

/// A document is used again only where it was read from the very file and was
/// opened by a drill-in.
pub proof fn law_only_drilled_files_are_reused(
    docs: Seq<TabDocument>,
    names: DrilledInClassNames,
    file: Seq<char>,
    from: int,
) -> (i: int)
    requires
        0 <= from,
        open_document(docs, names, file, from) is Some,
    ensures
        from <= i < docs.len(),
        open_document(docs, names, file, from) == Some(docs[i].doc),
        docs[i].file is Some && (docs[i].file->0)@ == file,
        names.by_doc@.contains_key(docs[i].doc),
    decreases docs.len() - from,
{
    if is_drilled_file(docs[from], names, file) {
        from
    } else {
        law_only_drilled_files_are_reused(docs, names, file, from + 1)
    }
}

/// Edits go to the class that the tab was opened for, whatever the source holds;
/// without one to the first class of the source, and else to the one that was
/// detected.
pub proof fn law_edits_go_to_the_opened_class(
    names: DrilledInClassNames,
    doc: u64,
    source_class: Option<Seq<char>>,
    detected: Option<Seq<char>>,
)
    ensures
        names.by_doc@.contains_key(doc) ==> edited_class(names, doc, source_class, detected) == Some(
            names.by_doc@[doc]@,
        ),
        !names.by_doc@.contains_key(doc) && source_class is Some ==> edited_class(
            names,
            doc,
            source_class,
            detected,
        ) == source_class,
        !names.by_doc@.contains_key(doc) && source_class is None ==> edited_class(
            names,
            doc,
            source_class,
            detected,
        ) == detected,
{
}

/// A tab shows its own class, though the document is known by another; a tab of
/// another document, or one that was opened for no class, does not count.
pub proof fn law_tabs_show_their_own_class(names: DrilledInClassNames, t: ModelTab, doc: u64)
    ensures
        t.doc == doc && t.drilled_class is Some ==> shown_class(names, Some(t), doc) == Some(
            (t.drilled_class->0)@,
        ),
        t.doc != doc || t.drilled_class is None ==> shown_class(names, Some(t), doc) == shown_class(
            names,
            None,
            doc,
        ),
        shown_class(names, None, doc) == class_of(names, doc),
{
}

/// A class that has loaded is the class of its document, and of no other. Only the
/// first tab that waits for it can change, and only to the icon: it does so exactly
/// where the class has nothing else to show. Every other tab stays as it is.
pub proof fn law_loaded_classes_are_shown(
    r: DrillInResult,
    loads: DrillInLoads,
    names0: DrilledInClassNames,
    names1: DrilledInClassNames,
    tabs0: Seq<ModelTab>,
    tabs1: Seq<ModelTab>,
    doc: u64,
    c: LoadedClass,
    i: int,
)
    requires
        loads.pending@.contains_key(doc),
        is_load_taken(r, loads, names0, names1, tabs0, tabs1, doc, Ok(c)),
        0 <= i < tabs0.len(),
    ensures
        ({
            let class = loads.pending@[doc].qualified@;
            let icon = c.is_icon_only || c.has_components == Some(false);
            let waits = tabs0[i].doc == doc && tabs0[i].drilled_class is Some && (
            tabs0[i].drilled_class->0)@ == class;
            let first = waits && forall|k: int|
                0 <= k < i ==> !((#[trigger] tabs0[k]).doc == doc && tabs0[k].drilled_class is Some
                    && (tabs0[k].drilled_class->0)@ == class);
            &&& r == (DrillInResult::Installed { icon_view: icon })
            &&& class_of(names1, doc) == Some(class)
            &&& tabs1.len() == tabs0.len()
            &&& first && icon ==> tabs1[i] == (ModelTab {
                view_mode: ModelViewMode::Icon,
                ..tabs0[i]
            })
            &&& !first || !icon ==> tabs1[i] == tabs0[i]
        }),
{
    let class = loads.pending@[doc].qualified@;
    lemma_tab_place(tabs0, doc, class, 0);
    let k = tab_place(tabs0, doc, class, 0);
    if k == i {
        assert forall|j: int| 0 <= j < i implies !((#[trigger] tabs0[j]).doc == doc
            && tabs0[j].drilled_class is Some && (tabs0[j].drilled_class->0)@ == class) by {
            assert(!is_tab_of(tabs0[j], doc, class));
        }
    }
    if i < k {
        assert(!is_tab_of(tabs0[i], doc, class));
    }
    if k < i {
        assert(is_tab_of(tabs0[k], doc, class));
    }
}

proof fn lemma_tab_place(tabs: Seq<ModelTab>, doc: u64, class: Seq<char>, from: int)
    requires
        0 <= from <= tabs.len(),
    ensures
        ({
            let p = tab_place(tabs, doc, class, from);
            &&& from <= p <= tabs.len()
            &&& p < tabs.len() ==> is_tab_of(tabs[p], doc, class)
            &&& forall|k: int| from <= k < p ==> !is_tab_of(#[trigger] tabs[k], doc, class)
        }),
    decreases tabs.len() - from,
{
    if from < tabs.len() && !is_tab_of(tabs[from], doc, class) {
        lemma_tab_place(tabs, doc, class, from + 1);
    }
}

/// A load that nothing waits for changes nothing, and neither does a failure but
/// for its message: the document is known by the class that it was known by.
pub proof fn law_failed_loads_change_no_class(
    r: DrillInResult,
    loads: DrillInLoads,
    names0: DrilledInClassNames,
    names1: DrilledInClassNames,
    tabs0: Seq<ModelTab>,
    tabs1: Seq<ModelTab>,
    doc: u64,
    result: Result<LoadedClass, String>,
)
    requires
        is_load_taken(r, loads, names0, names1, tabs0, tabs1, doc, result),
    ensures
        !loads.pending@.contains_key(doc) ==> r is NotLoading && names1 == names0 && tabs1 == tabs0,
        loads.pending@.contains_key(doc) && result is Err ==> r is Failed && names1 == names0,
        r is Installed <==> loads.pending@.contains_key(doc) && result is Ok,
{
}

/// A document is loaded exactly where none of its file is open from an earlier
/// drill-in. A load that starts is known by its class, its task and its time, and
/// no other load changes.
pub proof fn law_files_are_loaded_once(
    r: (u64, bool),
    docs: Seq<TabDocument>,
    names: DrilledInClassNames,
    before: DrillInLoads,
    after: DrillInLoads,
    qualified: Seq<char>,
    file: Seq<char>,
    reserved: u64,
    task: u64,
    now: u64,
    other: u64,
)
    requires
        is_drilled_into(r, docs, names, before, after, qualified, file, reserved, task, now),
        other != reserved,
    ensures
        r.1 <==> open_document(docs, names, file, 0) is None,
        !r.1 ==> Some(r.0) == open_document(docs, names, file, 0) && after == before,
        r.1 ==> {
            &&& r.0 == reserved
            &&& after.pending@.contains_key(reserved)
            &&& after.pending@[reserved].qualified@ == qualified
            &&& after.pending@[reserved].started == now
            &&& after.pending@[reserved].task == task
        },
        after.pending@.contains_key(other) <==> before.pending@.contains_key(other),
        before.pending@.contains_key(other) ==> after.pending@[other] == before.pending@[other],
{
}

} // verus!
