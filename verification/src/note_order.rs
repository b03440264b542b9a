use crate::note::Note;
use std::cmp::Ordering;
use vstd::prelude::*;
use vstd::std_specs::cmp::PartialEqSpecImpl;
use vstd::std_specs::cmp::PartialOrdSpecImpl;

verus! {

/// Two notes are the same when they were entered as the same frequency, whatever
/// pitch they round to.
impl PartialEq for Note {
    fn eq(&self, other: &Note) -> (same: bool) {
        self.from_freq == other.from_freq
    }
}

impl PartialEqSpecImpl for Note {
    open spec fn obeys_eq_spec() -> bool {
        true
    }

    open spec fn eq_spec(&self, other: &Note) -> bool {
        self.from_freq == other.from_freq
    }
}

/// Notes are ordered by the frequency that was entered, ascending.
impl PartialOrd for Note {
    fn partial_cmp(&self, other: &Note) -> (order: Option<Ordering>) {
        if self.from_freq < other.from_freq {
            Some(Ordering::Less)
        } else if self.from_freq == other.from_freq {
            Some(Ordering::Equal)
        } else {
            Some(Ordering::Greater)
        }
    }
}

impl PartialOrdSpecImpl for Note {
    open spec fn obeys_partial_cmp_spec() -> bool {
        true
    }

    open spec fn partial_cmp_spec(&self, other: &Note) -> Option<Ordering> {
        if self.from_freq < other.from_freq {
            Some(Ordering::Less)
        } else if self.from_freq == other.from_freq {
            Some(Ordering::Equal)
        } else {
            Some(Ordering::Greater)
        }
    }
}

} // verus!
