//! `==` and `<` on identifiers: two identifiers are equal where their segments
//! are, and one is less than another where it comes before it.

use std::cmp::Ordering;
use vstd::prelude::*;
use vstd::std_specs::cmp::{PartialEqSpecImpl, PartialOrdSpecImpl};
use crate::id::{ident_before, Ident};

verus! {

impl<'a> PartialEq for Ident<'a> {
    fn eq(&self, other: &Ident<'a>) -> (r: bool) {
        self.same(other)
    }
}

impl<'a> PartialEqSpecImpl for Ident<'a> {
    open spec fn obeys_eq_spec() -> bool {
        true
    }

    open spec fn eq_spec(&self, other: &Ident<'a>) -> bool {
        self@ == other@
    }
}

impl<'a> PartialOrd for Ident<'a> {
    fn partial_cmp(&self, other: &Ident<'a>) -> (r: Option<Ordering>) {
        if self.same(other) {
            Some(Ordering::Equal)
        } else if self.before(other) {
            Some(Ordering::Less)
        } else {
            Some(Ordering::Greater)
        }
    }
}

impl<'a> PartialOrdSpecImpl for Ident<'a> {
    open spec fn obeys_partial_cmp_spec() -> bool {
        true
    }

    open spec fn partial_cmp_spec(&self, other: &Ident<'a>) -> Option<Ordering> {
        if self@ == other@ {
            Some(Ordering::Equal)
        } else if ident_before(self@, other@) {
            Some(Ordering::Less)
        } else {
            Some(Ordering::Greater)
        }
    }
}

} // verus!
