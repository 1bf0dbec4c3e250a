//! The persistence port: a mapping from byte-string keys to byte-string
//! values, and the keying convention the stores use.
//!
//! The host owns the durable copy; it hands the current mapping in and
//! carries writes back out.  Everything the library proves about
//! persistence is stated over the `Map` view of this type.

use vstd::prelude::*;

use crate::bytes::{bytes_eq, copy_bytes, push_all};
use crate::json::hex_digit;

verus! {

/// The mapping, keyed uniquely.
pub struct Storage {
    entries: Vec<(Vec<u8>, Vec<u8>)>,
}

/// The map an association list denotes: later entries win, though the
/// store keeps keys unique.
pub closed spec fn entries_map(s: Seq<(Vec<u8>, Vec<u8>)>) -> Map<Seq<u8>, Seq<u8>>
    decreases s.len(),
{
    if s.len() == 0 {
        Map::empty()
    } else {
        entries_map(s.drop_last()).insert(s.last().0@, s.last().1@)
    }
}

impl View for Storage {
    type V = Map<Seq<u8>, Seq<u8>>;

    closed spec fn view(&self) -> Map<Seq<u8>, Seq<u8>> {
        entries_map(self.entries@)
    }
}

/// No two entries share a key.
spec fn unique_keys(s: Seq<(Vec<u8>, Vec<u8>)>) -> bool {
    forall|i: int, j: int| 0 <= i < j < s.len() ==> s[i].0@ != s[j].0@
}

/// A key none of the entries holds is not in the map.
proof fn lemma_entries_map_absent(s: Seq<(Vec<u8>, Vec<u8>)>, k: Seq<u8>)
    requires
        forall|i: int| 0 <= i < s.len() ==> s[i].0@ != k,
    ensures
        !entries_map(s).contains_key(k),
    decreases s.len(),
{
    if s.len() > 0 {
        lemma_entries_map_absent(s.drop_last(), k);
    }
}

/// Each entry of a uniquely-keyed list is in the map.
proof fn lemma_entries_map_index(s: Seq<(Vec<u8>, Vec<u8>)>, i: int)
    requires
        unique_keys(s),
        0 <= i < s.len(),
    ensures
        entries_map(s).contains_key(s[i].0@),
        entries_map(s)[s[i].0@] == s[i].1@,
    decreases s.len(),
{
    if i == s.len() - 1 {
    } else {
        lemma_entries_map_index(s.drop_last(), i);
    }
}

/// Updating the entry that holds a key is inserting into the map.
proof fn lemma_entries_map_update(s: Seq<(Vec<u8>, Vec<u8>)>, i: int, e: (Vec<u8>, Vec<u8>))
    requires
        unique_keys(s),
        0 <= i < s.len(),
        s[i].0@ == e.0@,
    ensures
        entries_map(s.update(i, e)) == entries_map(s).insert(e.0@, e.1@),
    decreases s.len(),
{
    let t = s.update(i, e);
    if i == s.len() - 1 {
        assert(t.drop_last() =~= s.drop_last());
        assert(entries_map(t) =~= entries_map(s).insert(e.0@, e.1@));
    } else {
        assert(t.drop_last() =~= s.drop_last().update(i, e));
        lemma_entries_map_update(s.drop_last(), i, e);
        // the untouched last entry has a different key, so the two inserts
        // commute
        assert(s.last().0@ != e.0@);
        assert(t.last() == s.last());
        assert(entries_map(t) =~= entries_map(s).insert(e.0@, e.1@));
    }
}

impl Storage {
    /// The store keeps its keys unique.
    pub closed spec fn inv(&self) -> bool {
        unique_keys(self.entries@)
    }

    /// An empty store.
    pub fn new() -> (r: Storage)
        ensures
            r.inv(),
            r@ == Map::<Seq<u8>, Seq<u8>>::empty(),
    {
        Storage { entries: Vec::new() }
    }

    /// The value under `key`, if present.
    pub fn read(&self, key: &Vec<u8>) -> (r: Option<Vec<u8>>)
        requires
            self.inv(),
        ensures
            r is None ==> !self@.contains_key(key@),
            r matches Some(v) ==> self@.contains_key(key@) && self@[key@] == v@,
    {
        let mut i: usize = 0;
        while i < self.entries.len()
            invariant
                i <= self.entries@.len(),
                self.inv(),
                forall|j: int| 0 <= j < i ==> self.entries@[j].0@ != key@,
            decreases self.entries@.len() - i,
        {
            if bytes_eq(&self.entries[i].0, key) {
                proof {
                    lemma_entries_map_index(self.entries@, i as int);
                }
                return Some(copy_bytes(&self.entries[i].1));
            }
            i = i + 1;
        }
        proof {
            lemma_entries_map_absent(self.entries@, key@);
        }
        None
    }

    /// Binds `key` to `value`, overwriting unconditionally.
    pub fn write(&mut self, key: Vec<u8>, value: Vec<u8>)
        requires
            old(self).inv(),
        ensures
            final(self).inv(),
            final(self)@ == old(self)@.insert(key@, value@),
    {
        let mut i: usize = 0;
        while i < self.entries.len()
            invariant
                i <= self.entries@.len(),
                self.inv(),
                self@ == old(self)@,
                self.entries@ == old(self).entries@,
                forall|j: int| 0 <= j < i ==> self.entries@[j].0@ != key@,
            decreases self.entries@.len() - i,
        {
            if bytes_eq(&self.entries[i].0, &key) {
                proof {
                    lemma_entries_map_update(self.entries@, i as int, (key, value));
                }
                self.entries.set(i, (key, value));
                return;
            }
            i = i + 1;
        }
        proof {
            let ghost s = self.entries@;
            assert(s.push((key, value)).drop_last() =~= s);
        }
        self.entries.push((key, value));
    }

    /// Forgets everything.
    pub fn clear(&mut self)
        ensures
            final(self).inv(),
            final(self)@ == Map::<Seq<u8>, Seq<u8>>::empty(),
    {
        self.entries = Vec::new();
    }

    /// The keys and values currently held, for the host to persist.
    /// Ordering carries no meaning.
    pub fn entries(&self) -> (r: &Vec<(Vec<u8>, Vec<u8>)>)
        ensures
            entries_map(r@) == self@,
    {
        &self.entries
    }
}

// ---------------------------------------------------------------------------
// the keying convention
// ---------------------------------------------------------------------------

/// Lowercase hex rendering of a byte string.
pub open spec fn hex_of(h: Seq<u8>) -> Seq<u8>
    decreases h.len(),
{
    if h.len() == 0 {
        Seq::empty()
    } else {
        seq![hex_digit(h[0] / 16), hex_digit(h[0] % 16)] + hex_of(h.skip(1))
    }
}

/// Hex rendering is injective on strings of one length.
pub proof fn lemma_hex_of_injective(a: Seq<u8>, b: Seq<u8>)
    requires
        a.len() == b.len(),
        hex_of(a) == hex_of(b),
    ensures
        a == b,
    decreases a.len(),
{
    if a.len() > 0 {
        let ha = seq![hex_digit(a[0] / 16), hex_digit(a[0] % 16)];
        let hb = seq![hex_digit(b[0] / 16), hex_digit(b[0] % 16)];
        assert(hex_of(a)[0] == ha[0] && hex_of(a)[1] == ha[1]);
        assert(hex_of(b)[0] == hb[0] && hex_of(b)[1] == hb[1]);
        assert(a[0] / 16 == b[0] / 16 && a[0] % 16 == b[0] % 16);
        assert(a[0] == b[0]);
        assert(hex_of(a).skip(2) =~= hex_of(a.skip(1)));
        assert(hex_of(b).skip(2) =~= hex_of(b.skip(1)));
        lemma_hex_of_injective(a.skip(1), b.skip(1));
        assert(a =~= seq![a[0]] + a.skip(1));
        assert(b =~= seq![b[0]] + b.skip(1));
    } else {
        assert(a =~= b);
    }
}

/// The text `msg_`.
pub open spec fn lit_msg_key() -> Seq<u8> {
    seq![109u8, 115, 103, 95]
}

/// The text `latest_msghash_`.
pub open spec fn lit_latest_key() -> Seq<u8> {
    seq![108u8, 97, 116, 101, 115, 116, 95, 109, 115, 103, 104, 97, 115, 104, 95]
}

/// The key of the message stored under hash `h` in group `g`.
pub open spec fn msg_key(g: Seq<u8>, h: Seq<u8>) -> Seq<u8> {
    lit_msg_key() + g + seq![95u8] + hex_of(h)
}

/// The key of the tip pointer of group `g`.
pub open spec fn latest_key(g: Seq<u8>) -> Seq<u8> {
    lit_latest_key() + g
}

/// The key of the account list: `accs`.
pub open spec fn accounts_key() -> Seq<u8> {
    seq![97u8, 99, 99, 115]
}

/// The key of the current account index: `accidx`.
pub open spec fn index_key() -> Seq<u8> {
    seq![97u8, 99, 99, 105, 100, 120]
}

/// The key of the group list: `groups`.
pub open spec fn groups_key() -> Seq<u8> {
    seq![103u8, 114, 111, 117, 112, 115]
}

/// For one group, message keys differ exactly where the hashes do.
pub proof fn lemma_msg_key_injective(g: Seq<u8>, h1: Seq<u8>, h2: Seq<u8>)
    requires
        h1.len() == h2.len(),
        msg_key(g, h1) == msg_key(g, h2),
    ensures
        h1 == h2,
{
    let p = lit_msg_key() + g + seq![95u8];
    assert(msg_key(g, h1) =~= p + hex_of(h1));
    assert(msg_key(g, h2) =~= p + hex_of(h2));
    assert(hex_of(h1).len() == hex_of(h2).len()) by {
        lemma_hex_of_len(h1);
        lemma_hex_of_len(h2);
    }
    assert(hex_of(h1) =~= (p + hex_of(h1)).skip(p.len() as int));
    assert(hex_of(h2) =~= (p + hex_of(h2)).skip(p.len() as int));
    lemma_hex_of_injective(h1, h2);
}

/// Hex rendering doubles the length.
pub proof fn lemma_hex_of_len(h: Seq<u8>)
    ensures
        hex_of(h).len() == 2 * h.len(),
    decreases h.len(),
{
    if h.len() > 0 {
        lemma_hex_of_len(h.skip(1));
    }
}

/// A tip-pointer key is never a message key: the first byte differs.
pub proof fn lemma_latest_key_not_msg_key(g1: Seq<u8>, g2: Seq<u8>, h: Seq<u8>)
    ensures
        latest_key(g1) != msg_key(g2, h),
{
    assert(latest_key(g1)[0] == 108);
    assert(msg_key(g2, h)[0] == 109);
}

/// The group-list key is neither a message key nor a tip-pointer key.
pub proof fn lemma_groups_key_distinct(g: Seq<u8>, h: Seq<u8>)
    ensures
        groups_key() != msg_key(g, h),
        groups_key() != latest_key(g),
{
    assert(groups_key()[0] == 103);
    assert(msg_key(g, h)[0] == 109);
    assert(latest_key(g)[0] == 108);
}

/// Appends hex digits of `h` to `out`.
fn write_hex(out: &mut Vec<u8>, h: &Vec<u8>)
    ensures
        final(out)@ == old(out)@ + hex_of(h@),
{
    let mut i: usize = 0;
    while i < h.len()
        invariant
            i <= h.len(),
            out@ =~= old(out)@ + hex_of(h@.take(i as int)),
        decreases h.len() - i,
    {
        let b = h[i];
        proof {
            lemma_hex_of_append(h@.take(i as int), b);
            assert(h@.take(i + 1) =~= h@.take(i as int).push(b));
        }
        let hi = b / 16;
        let lo = b % 16;
        out.push(if hi < 10 { 48 + hi } else { 87 + hi });
        out.push(if lo < 10 { 48 + lo } else { 87 + lo });
        assert(out@ =~= old(out)@ + hex_of(h@.take(i + 1)));
        i = i + 1;
    }
    assert(h@.take(h@.len() as int) =~= h@);
}

/// Hex rendering grows two digits per byte at the back.
proof fn lemma_hex_of_append(h: Seq<u8>, b: u8)
    ensures
        hex_of(h.push(b)) == hex_of(h) + seq![hex_digit(b / 16), hex_digit(b % 16)],
    decreases h.len(),
{
    if h.len() == 0 {
        assert(h.push(b) =~= seq![b]);
        assert(seq![b].skip(1) =~= Seq::<u8>::empty());
        assert(hex_of(Seq::<u8>::empty()) =~= Seq::<u8>::empty());
        assert(hex_of(h.push(b)) == seq![hex_digit(b / 16), hex_digit(b % 16)] + hex_of(
            seq![b].skip(1),
        ));
        assert(hex_of(h.push(b)) =~= hex_of(h) + seq![hex_digit(b / 16), hex_digit(b % 16)]);
    } else {
        assert(h.push(b)[0] == h[0]);
        assert(h.push(b).skip(1) =~= h.skip(1).push(b));
        lemma_hex_of_append(h.skip(1), b);
        assert(hex_of(h.push(b)) == seq![hex_digit(h[0] / 16), hex_digit(h[0] % 16)] + hex_of(
            h.skip(1).push(b),
        ));
        assert(hex_of(h) == seq![hex_digit(h[0] / 16), hex_digit(h[0] % 16)] + hex_of(h.skip(1)));
        assert(hex_of(h.push(b)) =~= hex_of(h) + seq![hex_digit(b / 16), hex_digit(b % 16)]);
    }
}

/// The key of the message stored under hash `h` in group `g`, as bytes.
pub fn build_msg_key(group_id: &Vec<u8>, h: &crate::hash::MessageHash) -> (r: Vec<u8>)
    ensures
        r@ == msg_key(group_id@, h@),
{
    let mut out: Vec<u8> = Vec::new();
    out.push(109);
    out.push(115);
    out.push(103);
    out.push(95);
    assert(out@ =~= lit_msg_key());
    push_all(&mut out, group_id);
    out.push(95);
    write_hex(&mut out, &h.bytes);
    assert(out@ =~= msg_key(group_id@, h@));
    out
}

/// The key of the tip pointer of group `g`, as bytes.
pub fn build_latest_key(group_id: &Vec<u8>) -> (r: Vec<u8>)
    ensures
        r@ == latest_key(group_id@),
{
    let mut out: Vec<u8> = Vec::new();
    out.push(108);
    out.push(97);
    out.push(116);
    out.push(101);
    out.push(115);
    out.push(116);
    out.push(95);
    out.push(109);
    out.push(115);
    out.push(103);
    out.push(104);
    out.push(97);
    out.push(115);
    out.push(104);
    out.push(95);
    assert(out@ =~= lit_latest_key());
    push_all(&mut out, group_id);
    out
}

/// The key of the account list, as bytes.
pub fn build_accounts_key() -> (r: Vec<u8>)
    ensures
        r@ == accounts_key(),
{
    let mut out: Vec<u8> = Vec::new();
    out.push(97);
    out.push(99);
    out.push(99);
    out.push(115);
    assert(out@ =~= accounts_key());
    out
}

/// The key of the current account index, as bytes.
pub fn build_index_key() -> (r: Vec<u8>)
    ensures
        r@ == index_key(),
{
    let mut out: Vec<u8> = Vec::new();
    out.push(97);
    out.push(99);
    out.push(99);
    out.push(105);
    out.push(100);
    out.push(120);
    assert(out@ =~= index_key());
    out
}

/// The key of the group list, as bytes.
pub fn build_groups_key() -> (r: Vec<u8>)
    ensures
        r@ == groups_key(),
{
    let mut out: Vec<u8> = Vec::new();
    out.push(103);
    out.push(114);
    out.push(111);
    out.push(117);
    out.push(112);
    out.push(115);
    assert(out@ =~= groups_key());
    out
}

} // verus!
