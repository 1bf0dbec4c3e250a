//! Groups: named partitions of storage, each with its first-seen time.

use vstd::prelude::*;

use crate::bytes::copy_bytes;

verus! {

/// Mathematical form of a group record.
pub ghost struct GroupView {
    pub id: Seq<u8>,
    pub timestamp: u64,
}

/// A group record: its identifier and the Unix time it was first seen.
/// Two groups are equal exactly when their identifiers are.
pub struct Group {
    pub id: Vec<u8>,
    pub timestamp: u64,
}

impl View for Group {
    type V = GroupView;

    open spec fn view(&self) -> GroupView {
        GroupView { id: self.id@, timestamp: self.timestamp }
    }
}

/// Relies on web_time::SystemTime::now and duration_since: the seconds of
/// the wall clock since the Unix epoch.  The clock is outside the program,
/// so nothing is said of the value; a clock before the epoch reads as zero.
#[verifier::external_body]
fn now_unix_seconds() -> u64 {
    match web_time::SystemTime::now().duration_since(web_time::UNIX_EPOCH) {
        Ok(d) => d.as_secs(),
        Err(_) => 0,
    }
}

impl Group {
    /// A group record stamped with the current time.
    pub fn new(id: Vec<u8>) -> (r: Self)
        ensures
            r@.id == id@,
    {
        Group { id, timestamp: now_unix_seconds() }
    }

    /// Fresh copy.
    pub fn duplicate(&self) -> (r: Self)
        ensures
            r@ == self@,
    {
        Group { id: copy_bytes(&self.id), timestamp: self.timestamp }
    }
}

impl PartialEq for Group {
    fn eq(&self, other: &Self) -> (r: bool) {
        crate::bytes::bytes_eq(&self.id, &other.id)
    }
}

impl vstd::std_specs::cmp::PartialEqSpecImpl for Group {
    open spec fn obeys_eq_spec() -> bool {
        true
    }

    open spec fn eq_spec(&self, other: &Group) -> bool {
        self@.id == other@.id
    }
}

} // verus!
