//! Maps: entries from text keys to frames, kept in the order of their keys.

use crate::resp::buffer::as_slice;
use crate::resp::decode::{consume, decode_map, read_entries, RespDecode};
use crate::resp::encode::{write_entries, BUF_CAP, RespEncode};
use crate::resp::error::RespError;
use crate::resp::frame::{clone_entries, entries_of, frame_of, RespFrame};
use crate::resp::length::{aggregate_len, aggregate_length};
use crate::resp::marker::RESP_MAP;
use crate::resp::model::{frame_bytes, Frame, RespValue};
use crate::resp::text::{
    key_lt, lemma_key_lt_irreflexive, lemma_key_lt_total, lemma_key_lt_transitive, str_lt,
};
use bytes::BytesMut;
use vstd::prelude::*;

verus! {

/// The first index at or after `i` whose entry has a key that does not come
/// before `k`; the number of entries where there is none.
pub open spec fn entry_rank(m: Seq<(Seq<char>, Frame)>, k: Seq<char>, i: int) -> int
    decreases m.len() - i,
{
    if 0 <= i < m.len() && key_lt(m[i].0, k) {
        entry_rank(m, k, i + 1)
    } else {
        i
    }
}

/// The entries after `k` has been given the value `v`: an entry with that key
/// is replaced, and a new key takes its place in the order of keys.
pub open spec fn map_insert(m: Seq<(Seq<char>, Frame)>, k: Seq<char>, v: Frame) -> Seq<
    (Seq<char>, Frame),
> {
    let i = entry_rank(m, k, 0);
    if i < m.len() && m[i].0 == k {
        m.update(i, (k, v))
    } else {
        m.insert(i, (k, v))
    }
}

/// The entries of the map that results from inserting `pairs` one after the
/// other, first pair first: a later pair replaces an earlier one with the
/// same key.
#[verifier::opaque]
pub open spec fn map_of(pairs: Seq<(Seq<char>, Frame)>) -> Seq<(Seq<char>, Frame)>
    decreases pairs.len(),
{
    if pairs.len() == 0 {
        Seq::empty()
    } else {
        map_insert(map_of(pairs.drop_last()), pairs.last().0, pairs.last().1)
    }
}

/// The keys stand in strictly rising order, so that no key occurs twice.
pub open spec fn keys_sorted(m: Seq<(Seq<char>, Frame)>) -> bool {
    forall|i: int, j: int| 0 <= i < j < m.len() ==> key_lt(#[trigger] m[i].0, #[trigger] m[j].0)
}

/// A mapping from text keys to frames. The entries are kept in the order of
/// their keys, each key once.
#[derive(Debug, PartialEq, PartialOrd)]
pub struct RespMap(pub Vec<(String, RespFrame)>);

impl View for RespMap {
    type V = Seq<(Seq<char>, Frame)>;

    open spec fn view(&self) -> Seq<(Seq<char>, Frame)> {
        entries_of(self.0@)
    }
}

impl RespValue for RespMap {
    open spec fn frame(&self) -> Frame {
        Frame::RespMap(self@)
    }
}

/// The value that the entries give to the key `k`, if they hold it.
pub open spec fn map_get(m: Seq<(Seq<char>, Frame)>, k: Seq<char>) -> Option<Frame> {
    let i = entry_rank(m, k, 0);
    if i < m.len() && m[i].0 == k {
        Some(m[i].1)
    } else {
        None
    }
}

/// Where `entry_rank` stops: behind the entries whose keys come before `k`,
/// and in front of one whose key does not.
pub proof fn lemma_entry_rank(m: Seq<(Seq<char>, Frame)>, k: Seq<char>, i: int)
    requires
        0 <= i <= m.len(),
    ensures
        i <= entry_rank(m, k, i) <= m.len(),
        forall|j: int| i <= j < entry_rank(m, k, i) ==> key_lt(#[trigger] m[j].0, k),
        entry_rank(m, k, i) < m.len() ==> !key_lt(m[entry_rank(m, k, i)].0, k),
    decreases m.len() - i,
{
    if i < m.len() && key_lt(m[i].0, k) {
        lemma_entry_rank(m, k, i + 1);
    }
}

/// Inserting into entries that are in the order of their keys leaves them
/// in that order.
pub proof fn lemma_map_insert_sorted(m: Seq<(Seq<char>, Frame)>, k: Seq<char>, v: Frame)
    requires
        keys_sorted(m),
    ensures
        keys_sorted(map_insert(m, k, v)),
{
    let i = entry_rank(m, k, 0);
    let r = map_insert(m, k, v);
    lemma_entry_rank(m, k, 0);
    if i < m.len() && m[i].0 == k {
        assert forall|a: int, b: int| 0 <= a < b < r.len() implies key_lt(
            #[trigger] r[a].0,
            #[trigger] r[b].0,
        ) by {
            assert(r[a].0 == m[a].0);
            assert(r[b].0 == m[b].0);
        }
    } else {
        assert forall|a: int, b: int| 0 <= a < b < r.len() implies key_lt(
            #[trigger] r[a].0,
            #[trigger] r[b].0,
        ) by {
            if b < i {
                assert(r[a] == m[a] && r[b] == m[b]);
            } else if b == i {
                assert(r[a] == m[a]);
                assert(key_lt(m[a].0, k));
            } else if a == i {
                assert(r[b] == m[b - 1]);
                if !key_lt(k, m[i].0) {
                    lemma_key_lt_total(k, m[i].0);
                }
                if b - 1 > i {
                    assert(key_lt(m[i].0, m[b - 1].0));
                    lemma_key_lt_transitive(k, m[i].0, m[b - 1].0);
                }
            } else if a < i {
                assert(r[a] == m[a] && r[b] == m[b - 1]);
            } else {
                assert(r[a] == m[a - 1] && r[b] == m[b - 1]);
            }
        }
    }
}

impl RespMap {
    /// The entries are in the order of their keys, each key once.
    pub open spec fn wf(&self) -> bool {
        keys_sorted(self@)
    }

    /// A map without entries.
    pub fn new() -> (r: RespMap)
        ensures
            r@ == Seq::<(Seq<char>, Frame)>::empty(),
            r@ == map_of(Seq::empty()),
            r.wf(),
    {
        reveal(map_of);
        let r = RespMap(Vec::new());
        assert(r@ =~= Seq::<(Seq<char>, Frame)>::empty());
        r
    }

    /// The number of entries.
    pub fn len(&self) -> (n: usize)
        ensures
            n == self@.len(),
    {
        self.0.len()
    }

    /// Where the key `key` stands, or would stand, among the entries.
    fn rank(&self, key: &str) -> (i: usize)
        ensures
            i == entry_rank(self@, key@, 0),
            i <= self.0@.len(),
    {
        let mut i: usize = 0;
        proof {
            lemma_entry_rank(self@, key@, 0);
        }
        while i < self.0.len()
            invariant
                i <= self.0@.len(),
                entry_rank(self@, key@, 0) == entry_rank(self@, key@, i as int),
                entry_rank(self@, key@, 0) <= self.0@.len(),
            decreases self.0@.len() - i,
        {
            if !str_lt(self.0[i].0.as_str(), key) {
                return i;
            }
            i += 1;
        }
        i
    }

    /// Gives the key `key` the value `value`. An entry with that key is
    /// replaced, and its former value is returned; a new key takes its place
    /// in the order of keys.
    pub fn insert(&mut self, key: String, value: RespFrame) -> (former: Option<RespFrame>)
        ensures
            final(self)@ == map_insert(old(self)@, key@, frame_of(value)),
            old(self).wf() ==> final(self).wf(),
            match former {
                Some(f) => map_get(old(self)@, key@) == Some(frame_of(f)),
                None => map_get(old(self)@, key@) is None,
            },
    {
        let i = self.rank(key.as_str());
        proof {
            lemma_entry_rank(self@, key@, 0);
            if self.wf() {
                lemma_map_insert_sorted(self@, key@, frame_of(value));
            }
        }
        let ghost before = self.0@;
        let replace = i < self.0.len() && !str_lt(key.as_str(), self.0[i].0.as_str());
        proof {
            if i < self.0@.len() {
                if replace {
                    lemma_key_lt_total(key@, self@[i as int].0);
                } else {
                    lemma_key_lt_irreflexive(key@);
                }
            }
        }
        if replace {
            let former = self.0.remove(i);
            self.0.insert(i, (key, value));
            assert(self@ =~= entries_of(before).update(i as int, (key@, frame_of(value))));
            Some(former.1)
        } else {
            self.0.insert(i, (key, value));
            assert(self@ =~= entries_of(before).insert(i as int, (key@, frame_of(value))));
            None
        }
    }

    /// The value of the key `key`, if the map holds it.
    pub fn get(&self, key: &str) -> (r: Option<&RespFrame>)
        ensures
            match r {
                Some(f) => map_get(self@, key@) == Some(frame_of(*f)),
                None => map_get(self@, key@) is None,
            },
    {
        let i = self.rank(key);
        proof {
            lemma_entry_rank(self@, key@, 0);
            if i < self.0@.len() {
                if !key_lt(key@, self@[i as int].0) {
                    lemma_key_lt_total(key@, self@[i as int].0);
                } else {
                    lemma_key_lt_irreflexive(key@);
                }
            }
        }
        if i < self.0.len() && !str_lt(key, self.0[i].0.as_str()) {
            Some(&self.0[i].1)
        } else {
            None
        }
    }
}

impl RespEncode for RespMap {
    fn encode(self) -> (out: Vec<u8>) {
        let mut out = Vec::with_capacity(BUF_CAP);
        write_entries(&self.0, &mut out);
        assert(out@ =~= frame_bytes(self.frame()));
        out
    }
}

impl RespDecode for RespMap {
    const PREFIX: &'static str = "%";

    open spec fn decoded(buf: Seq<u8>) -> Result<(Frame, nat), RespError> {
        decode_map(buf)
    }

    open spec fn expected_length(buf: Seq<u8>) -> Result<nat, RespError> {
        aggregate_len(buf, seq![RESP_MAP])
    }

    fn decode(buf: &mut BytesMut) -> (r: Result<Self, RespError>) {
        let r = read_entries(as_slice(buf));
        consume(buf, r)
    }

    fn expect_length(buf: &[u8]) -> (r: Result<usize, RespError>) {
        aggregate_length(buf, RESP_MAP)
    }
}

impl Default for RespMap {
    fn default() -> (r: RespMap)
        ensures
            r@ == Seq::<(Seq<char>, Frame)>::empty(),
            r.wf(),
    {
        RespMap::new()
    }
}

impl Clone for RespMap {
    fn clone(&self) -> (r: RespMap)
        ensures
            r@ == self@,
    {
        RespMap(clone_entries(&self.0))
    }
}

} // verus!
