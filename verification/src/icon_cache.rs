//! Connector icons that were looked up before. Icons are known by the handles
//! under which the host keeps them.
use crate::text::same_text;
use vstd::prelude::*;

verus! {

/// What was found for a class: its icon, or that it has none.
#[derive(Debug, PartialEq, Eq)]
pub struct CachedIcon {
    pub class: String,
    pub icon: Option<u64>,
}

/// What was found for classes, until a document changes.
#[derive(Debug, PartialEq, Eq)]
pub struct PortIconCache {
    pub entries: Vec<CachedIcon>,
}

/// What `entries` hold for a class: the last one counts.
pub open spec fn kept_icon(entries: Seq<CachedIcon>, class: Seq<char>) -> Option<Option<u64>>
    decreases entries.len(),
{
    if entries.len() == 0 {
        None
    } else if entries.last().class@ == class {
        Some(entries.last().icon)
    } else {
        kept_icon(entries.drop_last(), class)
    }
}

impl PortIconCache {
    pub fn new() -> (r: PortIconCache)
        ensures
            forall|c: Seq<char>| #[trigger] kept_icon(r.entries@, c) is None,
    {
        PortIconCache { entries: Vec::new() }
    }

    /// What was found for a class, where it was looked up: that a class has no
    /// icon is known, too.
    pub fn lookup(&self, class: &str) -> (r: Option<Option<u64>>)
        ensures
            r == kept_icon(self.entries@, class@),
    {
        let mut i: usize = self.entries.len();
        assert(self.entries@.take(i as int) =~= self.entries@);
        while i > 0
            invariant
                i <= self.entries@.len(),
                kept_icon(self.entries@, class@) == kept_icon(
                    self.entries@.take(i as int),
                    class@,
                ),
            decreases i,
        {
            assert(self.entries@.take(i as int).last() == self.entries@[i - 1]);
            assert(self.entries@.take(i as int).drop_last() =~= self.entries@.take(i - 1));
            if same_text(self.entries[i - 1].class.as_str(), class) {
                return Some(self.entries[i - 1].icon);
            }
            i -= 1;
        }
        None
    }

    /// Keeps what was found for a class.
    pub fn keep(&mut self, class: &str, icon: Option<u64>)
        ensures
            forall|c: Seq<char>|
                #[trigger] kept_icon(final(self).entries@, c) == (if c == class@ {
                    Some(icon)
                } else {
                    kept_icon(old(self).entries@, c)
                }),
    {
        let ghost before = self.entries@;
        self.entries.push(CachedIcon { class: class.to_owned(), icon });
        assert(self.entries@.drop_last() =~= before);
    }

    /// Forgets everything: any edit can change what classes inherit.
    pub fn invalidate(&mut self)
        ensures
            forall|c: Seq<char>| #[trigger] kept_icon(final(self).entries@, c) is None,
    {
        self.entries = Vec::new();
    }
}

/// What is held for a class is what was kept for it last; a class for which
/// nothing was kept is not known.
pub proof fn law_the_last_icon_counts(entries: Seq<CachedIcon>, class: Seq<char>, i: int)
    requires
        -1 <= i < entries.len(),
        i >= 0 ==> entries[i].class@ == class,
        forall|j: int| i < j < entries.len() ==> (#[trigger] entries[j]).class@ != class,
    ensures
        i >= 0 ==> kept_icon(entries, class) == Some(entries[i].icon),
        i == -1 ==> kept_icon(entries, class) is None,
    decreases entries.len(),
{
    if entries.len() > 0 && i < entries.len() - 1 {
        let rest = entries.drop_last();
        assert(entries[entries.len() - 1].class@ != class);
        assert forall|j: int| i < j < rest.len() implies (#[trigger] rest[j]).class@ != class by {
            assert(entries[j].class@ != class);
        }
        law_the_last_icon_counts(rest, class, i);
    }
}

} // verus!
