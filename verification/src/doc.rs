//! The in-memory, format-agnostic document tree that schema construction
//! consumes.  A boundary layer turns whatever serialized form it loads into
//! this shape; the library itself only reads it.

use vstd::prelude::*;
use crate::text::str_eq;

verus! {

/// One node of the declarative document tree.
///
/// A `Number` node carries its value only when it is a non-negative integer
/// that fits 64 bits; any other numeric literal carries `None` and is
/// treated as unusable wherever an integer is required.
#[derive(Debug, PartialEq)]
pub enum DocValue {
    Null,
    Bool(bool),
    Number(Option<u64>),
    Text(String),
    List(Vec<DocValue>),
    Object(Vec<(String, DocValue)>),
}

/// The value under the first entry of `entries` carrying the key `k`, or
/// `Null` when no entry does.
pub open spec fn spec_entries_field(entries: Seq<(String, DocValue)>, k: Seq<char>) -> DocValue
    decreases entries.len(),
{
    if entries.len() == 0 {
        DocValue::Null
    } else if entries[0].0@ == k {
        entries[0].1
    } else {
        spec_entries_field(entries.drop_first(), k)
    }
}

impl DocValue {
    /// The value under key `k`: reading a missing key, or any node that is
    /// not an object, yields `Null`.
    pub open spec fn spec_field(self, k: Seq<char>) -> DocValue {
        match self {
            DocValue::Object(entries) => spec_entries_field(entries@, k),
            _ => DocValue::Null,
        }
    }

    /// The text this node carries, if it is a text node.
    pub open spec fn spec_text(self) -> Option<String> {
        match self {
            DocValue::Text(s) => Some(s),
            _ => None,
        }
    }

    /// The unsigned integer this node carries, if it is a numeric node
    /// holding one.
    pub open spec fn spec_number(self) -> Option<u64> {
        match self {
            DocValue::Number(o) => o,
            _ => None,
        }
    }

    /// The element list this node carries, if it is a list node.
    pub open spec fn spec_list(self) -> Option<Vec<DocValue>> {
        match self {
            DocValue::List(l) => Some(l),
            _ => None,
        }
    }

    /// The value under key `k`, or `None` where that value reads as `Null`.
    pub fn field(&self, k: &str) -> (r: Option<&DocValue>)
        ensures
            match r {
                Some(v) => *v == self.spec_field(k@),
                None => self.spec_field(k@) == DocValue::Null,
            },
    {
        match self {
            DocValue::Object(entries) => {
                let ghost all = entries@;
                proof {
                    assert(self.spec_field(k@) == spec_entries_field(all, k@));
                    assert(all.skip(0) =~= all);
                }
                let mut i: usize = 0;
                while i < entries.len()
                    invariant
                        0 <= i <= entries.len(),
                        all == entries@,
                        self.spec_field(k@) == spec_entries_field(all, k@),
                        spec_entries_field(all.skip(i as int), k@) == spec_entries_field(all, k@),
                    decreases entries.len() - i,
                {
                    if str_eq(entries[i].0.as_str(), k) {
                        proof {
                            assert(all.skip(i as int)[0] == all[i as int]);
                            assert(all.skip(i as int).len() > 0);
                            assert(spec_entries_field(all.skip(i as int), k@) == all[i as int].1);
                        }
                        return Some(&entries[i].1);
                    }
                    proof {
                        assert(all.skip(i as int)[0] == all[i as int]);
                        assert(all.skip(i as int).drop_first() =~= all.skip(i as int + 1));
                    }
                    i += 1;
                }
                proof {
                    assert(all.skip(entries.len() as int) =~= Seq::<(String, DocValue)>::empty());
                    assert(self.spec_field(k@) == DocValue::Null);
                }
                None
            },
            _ => None,
        }
    }

    /// The text under key `k`, copied out, or `None` where the key is
    /// absent or not text.
    pub fn text_field(&self, k: &str) -> (r: Option<String>)
        ensures
            r == self.spec_field(k@).spec_text(),
    {
        match self.field(k) {
            Some(DocValue::Text(s)) => Some(s.clone()),
            _ => None,
        }
    }

    /// The unsigned integer under key `k`, or `None` where the key is
    /// absent, not numeric, or numeric but no unsigned 64-bit integer.
    pub fn nat_field(&self, k: &str) -> (r: Option<u64>)
        ensures
            r == self.spec_field(k@).spec_number(),
    {
        match self.field(k) {
            Some(DocValue::Number(o)) => *o,
            _ => None,
        }
    }

    /// The list under key `k`, or `None` where the key is absent or not a
    /// list.
    pub fn list_field(&self, k: &str) -> (r: Option<&Vec<DocValue>>)
        ensures
            match r {
                Some(l) => self.spec_field(k@).spec_list() == Some(*l),
                None => self.spec_field(k@).spec_list() is None,
            },
    {
        match self.field(k) {
            Some(DocValue::List(l)) => Some(l),
            _ => None,
        }
    }
}

} // verus!
