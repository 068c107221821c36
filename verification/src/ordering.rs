//! `PartialOrd` for paths, from the order of their components.
use core::cmp::Ordering;
use vstd::prelude::*;
use vstd::std_specs::cmp::PartialOrdSpecImpl;

use crate::order::{chars_order, compare_paths, path_order, str_order};
use crate::resource::ResourceId;
use crate::spath::{SPath, SPathBuf};

verus! {

/// The `Ordering` that a sign stands for.
pub open spec fn ordering_of(o: int) -> Ordering {
    if o < 0 {
        Ordering::Less
    } else if o == 0 {
        Ordering::Equal
    } else {
        Ordering::Greater
    }
}

/// The order of two paths, as an `Ordering`.
pub fn path_ordering(left: SPath, right: SPath) -> (r: Ordering)
    ensures
        r == ordering_of(path_order(left@, right@)),
{
    let c = compare_paths(left, right);
    if c < 0 {
        Ordering::Less
    } else if c == 0 {
        Ordering::Equal
    } else {
        Ordering::Greater
    }
}

impl<'a> PartialOrd for SPath<'a> {
    fn partial_cmp(&self, other: &Self) -> (r: Option<Ordering>) {
        Some(path_ordering(*self, *other))
    }
}

impl<'a> PartialOrdSpecImpl for SPath<'a> {
    open spec fn obeys_partial_cmp_spec() -> bool {
        true
    }

    open spec fn partial_cmp_spec(&self, other: &Self) -> Option<Ordering> {
        Some(ordering_of(path_order(self@, other@)))
    }
}

impl PartialOrd for SPathBuf {
    fn partial_cmp(&self, other: &Self) -> (r: Option<Ordering>) {
        Some(path_ordering(self.as_spath(), other.as_spath()))
    }
}

impl PartialOrdSpecImpl for SPathBuf {
    open spec fn obeys_partial_cmp_spec() -> bool {
        true
    }

    open spec fn partial_cmp_spec(&self, other: &Self) -> Option<Ordering> {
        Some(ordering_of(path_order(self@, other@)))
    }
}

/// The order of two resource identifiers: by namespace, then by path.
pub open spec fn resource_order(a: (Seq<char>, Seq<char>), b: (Seq<char>, Seq<char>)) -> int {
    if chars_order(a.0, b.0) != 0 {
        chars_order(a.0, b.0)
    } else {
        path_order(a.1, b.1)
    }
}

/// The order of two resource identifiers, as -1, 0 or 1.
pub fn compare_resources(a: &ResourceId, b: &ResourceId) -> (r: i8)
    ensures
        r == resource_order(a@, b@),
{
    let n = str_order(a.get_namespace(), b.get_namespace());
    if n != 0 {
        n
    } else {
        compare_paths(a.get_path(), b.get_path())
    }
}

impl PartialOrd for ResourceId {
    fn partial_cmp(&self, other: &Self) -> (r: Option<Ordering>) {
        let c = compare_resources(self, other);
        if c < 0 {
            Some(Ordering::Less)
        } else if c == 0 {
            Some(Ordering::Equal)
        } else {
            Some(Ordering::Greater)
        }
    }
}

impl PartialOrdSpecImpl for ResourceId {
    open spec fn obeys_partial_cmp_spec() -> bool {
        true
    }

    open spec fn partial_cmp_spec(&self, other: &Self) -> Option<Ordering> {
        Some(ordering_of(resource_order(self@, other@)))
    }
}

} // verus!
