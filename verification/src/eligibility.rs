//! The eligibility predicate: a record may receive an embedding only if its
//! tags name at least one topic of an allow-list.

use crate::text::{chars_of, contains, occurs_in};
use vstd::prelude::*;

verus! {

/// `tags` holds at least one entry of `allow`.
pub open spec fn eligible(tags: Seq<char>, allow: Seq<Seq<char>>) -> bool {
    exists|k: int| 0 <= k < allow.len() && occurs_in(#[trigger] allow[k], tags)
}

/// The topics whose questions are embedded. An entry is the tag as it is
/// written in a record's tag string, delimiters included.
pub struct AllowList {
    entries: Vec<Vec<char>>,
}

impl View for AllowList {
    type V = Seq<Seq<char>>;

    closed spec fn view(&self) -> Seq<Seq<char>> {
        Seq::new(self.entries@.len(), |k: int| self.entries@[k]@)
    }
}

impl AllowList {
    /// An allow-list with the given entries, in the given order.
    pub fn new(tags: &Vec<String>) -> (allow: AllowList)
        ensures
            allow@ == tags.deep_view(),
    {
        let mut entries: Vec<Vec<char>> = Vec::new();
        let mut k: usize = 0;
        while k < tags.len()
            invariant
                k <= tags.len(),
                entries.len() == k,
                forall|j: int| 0 <= j < k ==> entries@[j]@ == tags@[j]@,
            decreases tags.len() - k,
        {
            entries.push(chars_of(tags[k].as_str()));
            k += 1;
        }
        let allow = AllowList { entries };
        assert(allow@ =~= tags.deep_view());
        allow
    }

    /// The allow-list of physics topics.
    pub fn physics() -> (allow: AllowList)
        ensures
            allow@ == physics_topics(),
    {
        let mut entries: Vec<Vec<char>> = Vec::new();
        entries.push(chars_of("<quantum-mechanics>"));
        entries.push(chars_of("<statistical-mechanics>"));
        entries.push(chars_of("<thermodynamics>"));
        entries.push(chars_of("<electromagnetism>"));
        entries.push(chars_of("<electrodynamics>"));
        let allow = AllowList { entries };
        assert(allow@ =~= physics_topics());
        allow
    }

    /// Number of entries.
    pub fn len(&self) -> (n: usize)
        ensures
            n == self@.len(),
    {
        self.entries.len()
    }

    /// Decides whether a record with these tags is eligible.
    pub fn admits(&self, tags: &str) -> (ok: bool)
        ensures
            ok == eligible(tags@, self@),
    {
        let haystack = chars_of(tags);
        let mut k: usize = 0;
        while k < self.entries.len()
            invariant
                k <= self.entries.len(),
                haystack@ == tags@,
                forall|j: int| 0 <= j < k ==> !occurs_in(#[trigger] self@[j], tags@),
            decreases self.entries.len() - k,
        {
            assert(self@[k as int] == self.entries@[k as int]@);
            if contains(&self.entries[k], &haystack) {
                return true;
            }
            k += 1;
        }
        false
    }
}

/// The entries of the physics allow-list.
pub open spec fn physics_topics() -> Seq<Seq<char>> {
    seq![
        "<quantum-mechanics>"@,
        "<statistical-mechanics>"@,
        "<thermodynamics>"@,
        "<electromagnetism>"@,
        "<electrodynamics>"@,
    ]
}

} // verus!
