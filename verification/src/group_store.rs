//! The group registry: an add-only list of known groups.

use vstd::prelude::*;

use crate::bytes::bytes_eq;
use crate::codec::{decode_groups, decode_groups_spec, encode_groups, groups_view, ser_groups};
use crate::group::{Group, GroupView};
use crate::storage::{build_groups_key, groups_key, Storage};

verus! {

/// The group list as the map holds it: decodable, or empty.
pub open spec fn stored_groups(m: Map<Seq<u8>, Seq<u8>>) -> Seq<GroupView> {
    if m.contains_key(groups_key()) {
        match decode_groups_spec(m[groups_key()]) {
            Option::Some(gs) => gs,
            Option::None => Seq::empty(),
        }
    } else {
        Seq::empty()
    }
}

/// Some stored group carries this identifier.
pub open spec fn groups_has_id(gs: Seq<GroupView>, id: Seq<u8>) -> bool {
    exists|i: int| 0 <= i < gs.len() && gs[i].id == id
}

/// The map after registering group `id` at time `ts`: unchanged when the
/// identifier is already listed, else the list grows by one record.
pub open spec fn registered_map(m: Map<Seq<u8>, Seq<u8>>, id: Seq<u8>, ts: u64) -> Map<
    Seq<u8>,
    Seq<u8>,
> {
    if groups_has_id(stored_groups(m), id) {
        m
    } else {
        m.insert(groups_key(), ser_groups(stored_groups(m).push(GroupView { id: id, timestamp: ts })))
    }
}

/// Storage of the known groups.
pub struct GroupStore {}

impl GroupStore {
    /// The stored groups, in insertion order.
    pub fn groups(&self, store: &Storage) -> (r: Vec<Group>)
        requires
            store.inv(),
        ensures
            groups_view(r@) == stored_groups(store@),
    {
        let key = build_groups_key();
        match store.read(&key) {
            Option::None => {
                let r: Vec<Group> = Vec::new();
                assert(groups_view(r@) =~= stored_groups(store@));
                r
            },
            Option::Some(v) => match decode_groups(&v) {
                Option::Some(gs) => gs,
                Option::None => {
                    let r: Vec<Group> = Vec::new();
                    assert(groups_view(r@) =~= stored_groups(store@));
                    r
                },
            },
        }
    }

    /// Appends `group` to the list, unless one with the same identifier is
    /// already there.
    pub fn add_group(&self, store: &mut Storage, group: Group)
        requires
            old(store).inv(),
        ensures
            final(store).inv(),
            final(store)@ == registered_map(old(store)@, group@.id, group@.timestamp),
    {
        let mut gs = self.groups(store);
        let mut i: usize = 0;
        let ghost stored = stored_groups(store@);
        while i < gs.len()
            invariant
                i <= gs.len(),
                store.inv(),
                store@ == old(store)@,
                stored == stored_groups(old(store)@),
                groups_view(gs@) == stored,
                forall|j: int| 0 <= j < i ==> stored[j].id != group@.id,
            decreases gs.len() - i,
        {
            if bytes_eq(&gs[i].id, &group.id) {
                proof {
                    assert(stored[i as int].id == group@.id);
                    assert(groups_has_id(stored, group@.id));
                }
                return;
            }
            proof {
                assert(stored[i as int].id == gs@[i as int]@.id);
            }
            i = i + 1;
        }
        proof {
            assert(!groups_has_id(stored, group@.id));
        }
        let ghost gv = group@;
        gs.push(group);
        proof {
            assert(groups_view(gs@) =~= stored.push(gv)) by {
                assert forall|x: int| 0 <= x < gs@.len() implies groups_view(gs@)[x] == stored.push(
                    gv,
                )[x] by {
                    if x < gs@.len() - 1 {
                        assert(groups_view(gs@)[x] == gs@[x]@);
                    }
                }
            }
        }
        let value = encode_groups(&gs);
        let key = build_groups_key();
        store.write(key, value);
    }
}

} // verus!
