//! Segment-structured item storage with TTL buckets and eager expiration.
//! Items are appended into fixed-size segments grouped by the endpoint of
//! their TTL bucket; an index table maps each key to the segment and slot of its
//! newest item. Expiring a bucket recycles its segments whole and removes
//! every table entry that pointed into them.

use vstd::prelude::*;
use crate::session::append_bytes;
use crate::text::{bytes_eq, canonical, decimal, digits_value, parse_decimal, push_decimal};

verus! {

/// Bytes of per-item overhead counted against a segment besides key and value.
pub const ITEM_HEADER_SIZE: usize = 8;

/// Width of a TTL bucket, in seconds.
pub const TTL_BUCKET_WIDTH: u64 = 8;

/// Why a write was not stored.
#[derive(Debug, Clone, Copy, PartialEq, Eq, Structural)]
pub enum SetError {
    /// The item does not fit in one segment.
    ValueTooLarge,
    /// Every segment is in use.
    NoFreeSegment,
    /// Every cas token has been handed out.
    CasExhausted,
}

/// Outcome of a conditional write, as the protocol reports it.
#[derive(Debug, Clone, Copy, PartialEq, Eq, Structural)]
pub enum StoreResult {
    /// Written, with this cas token.
    Stored(u64),
    /// The condition on the key's presence failed.
    NotStored,
    /// The cas token is stale.
    Exists,
    /// The key holds nothing.
    NotFound,
    /// The write itself failed.
    Failed(SetError),
}

/// Outcome of `incr` and `decr`.
#[derive(Debug, Clone, Copy, PartialEq, Eq, Structural)]
pub enum IncrResult {
    /// The new value, stored with this cas token.
    Value { value: u64, cas: u64 },
    /// The key holds nothing.
    NotFound,
    /// The key's value is not a decimal number that fits in 64 bits.
    NotNumeric,
    /// The write of the new value failed.
    Failed(SetError),
}

/// The write's result of `incr` or `decr` as a plain `set` would give it.
pub open spec fn incr_as_set_result(r: IncrResult) -> Result<u64, SetError> {
    match r {
        IncrResult::Value { value, cas } => Ok(cas),
        IncrResult::Failed(e) => Err(e),
        _ => Err(SetError::ValueTooLarge),
    }
}

/// The write's result as a plain `set` would give it.
pub open spec fn as_set_result(r: StoreResult) -> Result<u64, SetError> {
    match r {
        StoreResult::Stored(c) => Ok(c),
        StoreResult::Failed(e) => Err(e),
        _ => Err(SetError::ValueTooLarge),
    }
}

/// A stored item.
pub struct Item {
    key: Vec<u8>,
    value: Vec<u8>,
    flags: u32,
    cas: u64,
    /// Time at which the item expires; zero for never.
    expiry: u64,
}

/// Whether a segment can take an item of `size` bytes in the bucket ending at
/// `bucket`.
spec fn fits(seg: Segment, bucket: u64, size: nat, segment_size: nat) -> bool {
    seg.free || (seg.expiry == bucket && seg.used + size <= segment_size)
}

/// A segment whose whole bucket has expired at `now`.
spec fn expiring(seg: Segment, now: u64) -> bool {
    !seg.free && seg.expiry != 0 && seg.expiry <= now
}

struct Segment {
    items: Vec<Item>,
    /// Endpoint of the segment's TTL bucket; zero for the never-expiring one.
    expiry: u64,
    used: usize,
    free: bool,
}

struct Entry {
    key: Vec<u8>,
    segment: usize,
    slot: usize,
}

/// What a key holds, as a client sees it.
pub ghost struct ItemView {
    pub value: Seq<u8>,
    pub flags: u32,
    pub cas: u64,
    pub expiry: u64,
}

/// An item read out of the storage.
#[derive(Debug, PartialEq, Eq)]
pub struct Found {
    pub value: Vec<u8>,
    pub flags: u32,
    pub cas: u64,
}

/// Whether an item with this expiry is live at time `now`.
pub open spec fn live_at(expiry: u64, now: u64) -> bool {
    expiry == 0 || now < expiry
}

/// Bytes an item takes in a segment.
pub open spec fn item_size(key_len: nat, value_len: nat) -> nat {
    ITEM_HEADER_SIZE as nat + key_len + value_len
}

/// When an item written at `now` with `ttl` seconds to live expires.
pub open spec fn expiry_of(now: u64, ttl: u64) -> u64 {
    if ttl == 0 {
        0
    } else if now as nat + ttl as nat > u64::MAX as nat {
        u64::MAX
    } else {
        (now + ttl) as u64
    }
}

/// Endpoint of the TTL bucket of an item that expires at `expiry`: the next
/// multiple of the bucket width, zero for the never-expiring bucket.
pub open spec fn bucket_end(expiry: u64) -> u64 {
    if expiry == 0 || expiry % TTL_BUCKET_WIDTH == 0 {
        expiry
    } else if expiry > u64::MAX - TTL_BUCKET_WIDTH {
        u64::MAX
    } else {
        (expiry - expiry % TTL_BUCKET_WIDTH + TTL_BUCKET_WIDTH) as u64
    }
}

fn bucket_of(expiry: u64) -> (r: u64)
    ensures
        r == bucket_end(expiry),
        expiry <= r,
        r == 0 <==> expiry == 0,
{
    if expiry == 0 || expiry % TTL_BUCKET_WIDTH == 0 {
        expiry
    } else if expiry > u64::MAX - TTL_BUCKET_WIDTH {
        u64::MAX
    } else {
        expiry - expiry % TTL_BUCKET_WIDTH + TTL_BUCKET_WIDTH
    }
}

fn expiry_at(now: u64, ttl: u64) -> (r: u64)
    ensures
        r == expiry_of(now, ttl),
{
    if ttl == 0 {
        0
    } else if ttl > u64::MAX - now {
        u64::MAX
    } else {
        now + ttl
    }
}

fn copy_bytes(b: &[u8]) -> (r: Vec<u8>)
    ensures
        r@ == b@,
{
    let mut r: Vec<u8> = Vec::new();
    append_bytes(&mut r, b);
    assert(r@ =~= b@);
    r
}

pub struct Seg {
    segments: Vec<Segment>,
    table: Vec<Entry>,
    segment_size: usize,
    max_segments: usize,
    next_cas: u64,
}

impl Seg {
    pub closed spec fn item_at(&self, i: int) -> Item {
        self.segments@[self.table@[i].segment as int].items@[self.table@[i].slot as int]
    }

    pub closed spec fn has_key(&self, key: Seq<u8>) -> bool {
        exists|i: int| 0 <= i < self.table@.len() && self.table@[i].key@ == key
    }

    pub closed spec fn index_of(&self, key: Seq<u8>) -> int {
        choose|i: int| 0 <= i < self.table@.len() && self.table@[i].key@ == key
    }

    /// The item that `key` holds at time `now`, if any.
    pub closed spec fn lookup(&self, key: Seq<u8>, now: u64) -> Option<ItemView> {
        if self.has_key(key) {
            let it = self.item_at(self.index_of(key));
            if live_at(it.expiry, now) {
                Some(ItemView { value: it.value@, flags: it.flags, cas: it.cas, expiry: it.expiry })
            } else {
                None
            }
        } else {
            None
        }
    }

    pub closed spec fn segment_size_spec(&self) -> nat {
        self.segment_size as nat
    }

    /// No key's items change at any time.
    pub open spec fn unchanged(&self, other: Seg) -> bool {
        forall|k: Seq<u8>, t: u64| #[trigger] other.lookup(k, t) == self.lookup(k, t)
    }

    /// No other key's items change at any time.
    pub open spec fn same_except(&self, other: Seg, key: Seq<u8>) -> bool {
        forall|k: Seq<u8>, t: u64| k != key ==> #[trigger] other.lookup(k, t) == self.lookup(k, t)
    }

    /// `key` holds this item from now on, until it expires.
    pub open spec fn holds(&self, key: Seq<u8>, value: Seq<u8>, flags: u32, cas: u64, expiry: u64) -> bool {
        forall|t: u64| #[trigger] self.lookup(key, t) == if live_at(expiry, t) {
            Some(ItemView { value, flags, cas, expiry })
        } else {
            None
        }
    }

    /// What a `set` of `key` to an item with an absolute expiry does, taking
    /// `self` to `new` with result `r`.
    pub open spec fn set_post(&self, new: Seg, key: Seq<u8>, value: Seq<u8>, flags: u32, expiry: u64, r: Result<u64, SetError>) -> bool {
        let too_large = item_size(key.len(), value.len()) > self.segment_size_spec();
        &&& new.segment_size_spec() == self.segment_size_spec()
        &&& (r == Err::<u64, SetError>(SetError::ValueTooLarge) <==> too_large)
        &&& (r == Err::<u64, SetError>(SetError::CasExhausted) <==> !too_large && self.cas_exhausted())
        &&& (r == Err::<u64, SetError>(SetError::NoFreeSegment) <==> !too_large && !self.cas_exhausted()
            && !self.has_room(bucket_end(expiry), item_size(key.len(), value.len())))
        &&& (r is Err ==> self.unchanged(new))
        &&& (r is Ok ==> self.same_except(new, key))
        &&& (r matches Ok(c) ==> new.holds(key, value, flags, c, expiry))
        &&& (r matches Ok(c) ==> forall|k: Seq<u8>, t: u64| (#[trigger] self.lookup(k, t)) is Some ==> self.lookup(k, t)->Some_0.cas < c)
    }

    /// The table holds an entry for `key` that points into a segment whose
    /// bucket has expired at `now`.
    pub closed spec fn in_expired_segment(&self, key: Seq<u8>, now: u64) -> bool {
        self.has_key(key) && expiring(self.segments@[self.table@[self.index_of(key)].segment as int], now)
    }

    /// What an expiration tick at `now` does, taking `self` to `new`: no item
    /// appears or changes, every item live at `now` stays, and every key whose
    /// entry pointed into an expired segment is gone from the table.
    pub open spec fn expire_post(&self, new: Seg, now: u64) -> bool {
        &&& new.segment_size_spec() == self.segment_size_spec()
        &&& forall|k: Seq<u8>, t: u64| (#[trigger] new.lookup(k, t)) is Some ==> new.lookup(k, t) == self.lookup(k, t)
        &&& forall|k: Seq<u8>, t: u64| (#[trigger] self.lookup(k, t)) is Some && live_at(self.lookup(k, t)->Some_0.expiry, now)
            ==> new.lookup(k, t) == self.lookup(k, t)
        &&& forall|k: Seq<u8>| #[trigger] self.in_expired_segment(k, now) ==> !new.has_key(k)
        &&& forall|k: Seq<u8>, t: u64| self.in_expired_segment(k, now) ==> (#[trigger] new.lookup(k, t)) is None
        &&& forall|k: Seq<u8>| self.has_key(k) && !self.in_expired_segment(k, now) ==> #[trigger] new.has_key(k)
    }

    pub closed spec fn cas_exhausted(&self) -> bool {
        self.next_cas == u64::MAX
    }

    /// Whether an item of `size` bytes in the bucket ending at `bucket` has a
    /// place: an open segment of that bucket with room, a free segment, or
    /// room for one more segment.
    pub closed spec fn has_room(&self, bucket: u64, size: nat) -> bool {
        ||| self.segments@.len() < self.max_segments
        ||| exists|s: int| 0 <= s < self.segments@.len() && #[trigger] fits(self.segments@[s], bucket, size, self.segment_size as nat)
    }

    pub closed spec fn wf(&self) -> bool {
        &&& self.segments@.len() <= self.max_segments
        &&& forall|s: int| #![trigger self.segments@[s]] 0 <= s < self.segments@.len() ==> {
            &&& self.segments@[s].used <= self.segment_size
            &&& (self.segments@[s].free ==> self.segments@[s].items@.len() == 0 && self.segments@[s].used == 0)
        }
        &&& forall|s: int, k: int| #![trigger self.segments@[s].items@[k]]
            0 <= s < self.segments@.len() && 0 <= k < self.segments@[s].items@.len()
            ==> self.segments@[s].items@[k].cas < self.next_cas
        &&& forall|i: int| #![trigger self.table@[i]] 0 <= i < self.table@.len() ==> {
            &&& self.table@[i].segment < self.segments@.len()
            &&& !self.segments@[self.table@[i].segment as int].free
            &&& self.table@[i].slot < self.segments@[self.table@[i].segment as int].items@.len()
            &&& self.item_at(i).key@ == self.table@[i].key@
        }
        &&& forall|i: int, j: int| 0 <= i < j < self.table@.len()
            ==> #[trigger] self.table@[i].key@ != #[trigger] self.table@[j].key@
        &&& forall|s: int, k: int| #![trigger self.segments@[s].items@[k]]
            0 <= s < self.segments@.len() && 0 <= k < self.segments@[s].items@.len() ==> {
                let seg = self.segments@[s];
                let it = seg.items@[k];
                if seg.expiry == 0 {
                    it.expiry == 0
                } else {
                    it.expiry != 0 && it.expiry <= seg.expiry
                }
            }
    }

    /// The entry at `i` is the one that its key finds.
    proof fn lemma_index_of(&self, i: int)
        requires
            self.wf(),
            0 <= i < self.table@.len(),
        ensures
            self.has_key(self.table@[i].key@),
            self.index_of(self.table@[i].key@) == i,
    {
        let k = self.table@[i].key@;
        assert(self.table@[i].key@ == k);
        let j = self.index_of(k);
        if j != i {
            if j < i {
                assert(self.table@[j].key@ != self.table@[i].key@);
            } else {
                assert(self.table@[i].key@ != self.table@[j].key@);
            }
        }
    }

    /// An empty storage of at most `max_segments` segments of `segment_size`
    /// bytes each.
    pub fn new(segment_size: usize, max_segments: usize) -> (r: Seg)
        ensures
            r.wf(),
            r.segment_size_spec() == segment_size,
            forall|k: Seq<u8>, t: u64| r.lookup(k, t) is None,
            !r.cas_exhausted(),
            max_segments > 0 ==> forall|b: u64, size: nat| #[trigger] r.has_room(b, size),
    {
        Seg { segments: Vec::new(), table: Vec::new(), segment_size, max_segments, next_cas: 1 }
    }

    fn find(&self, key: &[u8]) -> (r: Option<usize>)
        requires
            self.wf(),
        ensures
            r matches Some(i) ==> i < self.table@.len() && self.table@[i as int].key@ == key@
                && self.has_key(key@) && self.index_of(key@) == i,
            r is None ==> !self.has_key(key@),
    {
        let mut i: usize = 0;
        while i < self.table.len()
            invariant
                self.wf(),
                i <= self.table@.len(),
                forall|j: int| 0 <= j < i ==> self.table@[j].key@ != key@,
            decreases self.table@.len() - i,
        {
            if bytes_eq(self.table[i].key.as_slice(), key) {
                proof {
                    self.lemma_index_of(i as int);
                }
                return Some(i);
            }
            i = i + 1;
        }
        None
    }

    /// The item that `key` holds at time `now`.
    pub fn get(&self, key: &[u8], now: u64) -> (r: Option<Found>)
        requires
            self.wf(),
        ensures
            r is None <==> self.lookup(key@, now) is None,
            r matches Some(f) ==> self.lookup(key@, now) == Some(
                ItemView { value: f.value@, flags: f.flags, cas: f.cas, expiry: self.lookup(key@, now)->Some_0.expiry },
            ),
    {
        match self.find(key) {
            None => None,
            Some(i) => {
                let e = &self.table[i];
                let it = &self.segments[e.segment].items[e.slot];
                if it.expiry == 0 || now < it.expiry {
                    let mut value: Vec<u8> = Vec::new();
                    append_bytes(&mut value, it.value.as_slice());
                    assert(value@ =~= it.value@);
                    Some(Found { value, flags: it.flags, cas: it.cas })
                } else {
                    None
                }
            },
        }
    }

    /// A segment that can take an item of `size` bytes in the bucket ending
    /// at `bucket`: a free one, or an open one of that bucket with room.
    fn find_segment(&self, bucket: u64, size: usize) -> (r: Option<usize>)
        requires
            size <= self.segment_size,
        ensures
            r matches Some(s) ==> s < self.segments@.len() && fits(self.segments@[s as int], bucket, size as nat, self.segment_size as nat),
            r is None ==> forall|j: int| 0 <= j < self.segments@.len() ==> !(#[trigger] fits(self.segments@[j], bucket, size as nat, self.segment_size as nat)),
    {
        let mut s: usize = 0;
        while s < self.segments.len()
            invariant
                s <= self.segments@.len(),
                size <= self.segment_size,
                forall|j: int| 0 <= j < s ==> !(#[trigger] fits(self.segments@[j], bucket, size as nat, self.segment_size as nat)),
            decreases self.segments@.len() - s,
        {
            let seg = &self.segments[s];
            if seg.free || (seg.expiry == bucket && seg.used <= self.segment_size - size) {
                return Some(s);
            }
            assert(!fits(self.segments@[s as int], bucket, size as nat, self.segment_size as nat));
            s = s + 1;
        }
        None
    }

    /// Appends an item with an absolute expiry and points its key at it.
    fn store(&mut self, key: &[u8], value: &[u8], flags: u32, expiry: u64) -> (r: Result<u64, SetError>)
        requires
            old(self).wf(),
            item_size(key@.len(), value@.len()) <= old(self).segment_size_spec(),
        ensures
            final(self).wf(),
            final(self).segment_size_spec() == old(self).segment_size_spec(),
            r is Ok || r == Err::<u64, SetError>(SetError::CasExhausted) || r == Err::<u64, SetError>(SetError::NoFreeSegment),
            r == Err::<u64, SetError>(SetError::CasExhausted) <==> old(self).cas_exhausted(),
            r == Err::<u64, SetError>(SetError::NoFreeSegment) <==> !old(self).cas_exhausted()
                && !old(self).has_room(bucket_end(expiry), item_size(key@.len(), value@.len())),
            r is Err ==> forall|k: Seq<u8>, t: u64| final(self).lookup(k, t) == old(self).lookup(k, t),
            r is Ok ==> forall|k: Seq<u8>, t: u64| k != key@ ==> final(self).lookup(k, t) == old(self).lookup(k, t),
            r matches Ok(c) ==> forall|t: u64| final(self).lookup(key@, t) == if live_at(expiry, t) {
                Some(ItemView { value: value@, flags, cas: c, expiry })
            } else {
                None
            },
            r matches Ok(c) ==> forall|k: Seq<u8>, t: u64| (#[trigger] old(self).lookup(k, t)) is Some ==> old(self).lookup(k, t)->Some_0.cas < c,
    {
        if self.next_cas == u64::MAX {
            return Err(SetError::CasExhausted);
        }
        let size: usize = ITEM_HEADER_SIZE + key.len() + value.len();
        let bucket = bucket_of(expiry);
        let found = self.find(key);
        let mut s: usize = 0;
        let mut chosen = false;
        match self.find_segment(bucket, size) {
            Some(i) => {
                s = i;
                chosen = true;
            },
            None => {
                s = self.segments.len();
            },
        }
        if !chosen {
            if self.segments.len() < self.max_segments {
                self.segments.push(Segment { items: Vec::new(), expiry: bucket, used: 0, free: false });
            } else {
                return Err(SetError::NoFreeSegment);
            }
        }
        let ghost old_self = *old(self);
        let ghost segs1 = self.segments@;
        let mut seg = Segment { items: Vec::new(), expiry: 0, used: 0, free: true };
        self.segments.set_and_swap(s, &mut seg);
        if seg.free {
            seg.expiry = bucket;
            seg.free = false;
            seg.used = 0;
        }
        let cas = self.next_cas;
        let slot = seg.items.len();
        seg.items.push(Item { key: copy_bytes(key), value: copy_bytes(value), flags, cas, expiry });
        seg.used = seg.used + size;
        self.segments.set(s, seg);
        self.next_cas = self.next_cas + 1;
        let entry = Entry { key: copy_bytes(key), segment: s, slot };
        let ghost table0 = self.table@;
        let idx: usize = match found {
            Some(i) => {
                self.table.set(i, entry);
                i
            },
            None => {
                self.table.push(entry);
                self.table.len() - 1
            },
        };
        proof {
            assert(segs1.len() <= self.max_segments);
            assert forall|j: int| 0 <= j < segs1.len() && j != s implies #[trigger] self.segments@[j] == segs1[j] by {}
            assert forall|i: int| 0 <= i < self.table@.len() && i != idx implies #[trigger] self.table@[i] == table0[i] by {}
            assert forall|i: int| 0 <= i < self.table@.len() && i != idx implies self.item_at(i) == old_self.item_at(i) by {
                assert(self.table@[i] == table0[i]);
                assert(old_self.table@[i] == table0[i]);
                let sg = table0[i].segment as int;
                if sg == s {
                    assert(self.segments@[sg].items@[table0[i].slot as int] == segs1[sg].items@[table0[i].slot as int]);
                }
            }
            assert(self.item_at(idx as int).key@ == key@);
            assert(self.wf());
            self.lemma_index_of(idx as int);
            assert forall|k: Seq<u8>, t: u64| k != key@ implies self.lookup(k, t) == old_self.lookup(k, t) by {
                if old_self.has_key(k) {
                    let i = old_self.index_of(k);
                    old_self.lemma_index_of(i);
                    assert(i != idx);
                    self.lemma_index_of(i);
                } else if self.has_key(k) {
                    let i = self.index_of(k);
                    self.lemma_index_of(i);
                    assert(i != idx);
                    assert(old_self.table@[i].key@ == k);
                }
            }
            assert forall|k: Seq<u8>, t: u64| (#[trigger] old_self.lookup(k, t)) is Some implies old_self.lookup(k, t)->Some_0.cas < cas by {
                let i = old_self.index_of(k);
                assert(old_self.table@[i].segment < old_self.segments@.len());
            }
        }
        Ok(cas)
    }

    /// Removing one entry drops its key and keeps every other key's item.
    proof fn lemma_remove(&self, new: Seg, i: int)
        requires
            self.wf(),
            0 <= i < self.table@.len(),
            new.table@ == self.table@.remove(i),
            new.segments@ == self.segments@,
            new.segment_size == self.segment_size,
            new.max_segments == self.max_segments,
            new.next_cas == self.next_cas,
        ensures
            new.wf(),
            !new.has_key(self.table@[i].key@),
            forall|k: Seq<u8>| k != self.table@[i].key@ ==> (new.has_key(k) == self.has_key(k)),
            forall|k: Seq<u8>| #[trigger] new.has_key(k) ==> new.item_at(new.index_of(k)) == self.item_at(self.index_of(k))
                && new.table@[new.index_of(k)].segment == self.table@[self.index_of(k)].segment,
            self.same_except(new, self.table@[i].key@),
    {
        let key = self.table@[i].key@;
        assert forall|j: int| 0 <= j < new.table@.len() implies #[trigger] new.table@[j] == self.table@[if j < i { j } else { j + 1 }] by {}
        assert forall|j: int| 0 <= j < new.table@.len() implies new.item_at(j) == self.item_at(if j < i { j } else { j + 1 }) by {
            assert(new.table@[j] == self.table@[if j < i { j } else { j + 1 }]);
        }
        assert forall|a: int, b: int| 0 <= a < b < new.table@.len() implies #[trigger] new.table@[a].key@ != #[trigger] new.table@[b].key@ by {
            assert(new.table@[a] == self.table@[if a < i { a } else { a + 1 }]);
            assert(new.table@[b] == self.table@[if b < i { b } else { b + 1 }]);
        }
        assert(new.wf());
        assert forall|k: Seq<u8>| #[trigger] new.has_key(k) implies self.has_key(k) && k != key
            && new.item_at(new.index_of(k)) == self.item_at(self.index_of(k))
            && new.table@[new.index_of(k)].segment == self.table@[self.index_of(k)].segment by {
            let j = new.index_of(k);
            let oj = if j < i { j } else { j + 1 };
            assert(new.table@[j] == self.table@[oj]);
            self.lemma_index_of(oj);
            if k == key {
                assert(self.table@[oj].key@ == self.table@[i].key@);
            }
        }
        assert forall|k: Seq<u8>| k != key && self.has_key(k) implies new.has_key(k) by {
            let j = self.index_of(k);
            assert(j != i);
            let nj = if j < i { j } else { j - 1 };
            assert(new.table@[nj] == self.table@[j]);
        }
        assert forall|k: Seq<u8>, t: u64| k != key implies #[trigger] new.lookup(k, t) == self.lookup(k, t) by {
            if new.has_key(k) {
            }
        }
    }

    /// Writes `key` with an absolute expiry.
    fn write(&mut self, key: &[u8], value: &[u8], flags: u32, expiry: u64) -> (r: Result<u64, SetError>)
        requires
            old(self).wf(),
        ensures
            final(self).wf(),
            old(self).set_post(*final(self), key@, value@, flags, expiry, r),
    {
        if self.segment_size < ITEM_HEADER_SIZE || key.len() > self.segment_size - ITEM_HEADER_SIZE
            || value.len() > self.segment_size - ITEM_HEADER_SIZE - key.len() {
            return Err(SetError::ValueTooLarge);
        }
        self.store(key, value, flags, expiry)
    }

    /// Writes `key` unconditionally. Fails when the item is larger than a
    /// segment, when no segment has room, or when every cas token is used.
    pub fn set(&mut self, key: &[u8], value: &[u8], flags: u32, ttl: u64, now: u64) -> (r: Result<u64, SetError>)
        requires
            old(self).wf(),
        ensures
            final(self).wf(),
            old(self).set_post(*final(self), key@, value@, flags, expiry_of(now, ttl), r),
    {
        let expiry = expiry_at(now, ttl);
        self.write(key, value, flags, expiry)
    }

    /// Writes `key` only when it holds nothing at `now`.
    pub fn add(&mut self, key: &[u8], value: &[u8], flags: u32, ttl: u64, now: u64) -> (r: StoreResult)
        requires
            old(self).wf(),
        ensures
            final(self).wf(),
            old(self).lookup(key@, now) is Some ==> r == StoreResult::NotStored && old(self).unchanged(*final(self)),
            old(self).lookup(key@, now) is None ==> (r is Stored || r is Failed)
                && old(self).set_post(*final(self), key@, value@, flags, expiry_of(now, ttl), as_set_result(r)),
    {
        if self.get(key, now).is_some() {
            return StoreResult::NotStored;
        }
        match self.set(key, value, flags, ttl, now) {
            Ok(c) => StoreResult::Stored(c),
            Err(e) => StoreResult::Failed(e),
        }
    }

    /// Writes `key` only when it holds an item at `now`.
    pub fn replace(&mut self, key: &[u8], value: &[u8], flags: u32, ttl: u64, now: u64) -> (r: StoreResult)
        requires
            old(self).wf(),
        ensures
            final(self).wf(),
            old(self).lookup(key@, now) is None ==> r == StoreResult::NotStored && old(self).unchanged(*final(self)),
            old(self).lookup(key@, now) is Some ==> (r is Stored || r is Failed)
                && old(self).set_post(*final(self), key@, value@, flags, expiry_of(now, ttl), as_set_result(r)),
    {
        if self.get(key, now).is_none() {
            return StoreResult::NotStored;
        }
        match self.set(key, value, flags, ttl, now) {
            Ok(c) => StoreResult::Stored(c),
            Err(e) => StoreResult::Failed(e),
        }
    }

    /// Writes `key` only when its item at `now` still carries `token`.
    pub fn cas(&mut self, key: &[u8], value: &[u8], flags: u32, ttl: u64, token: u64, now: u64) -> (r: StoreResult)
        requires
            old(self).wf(),
        ensures
            final(self).wf(),
            old(self).lookup(key@, now) is None ==> r == StoreResult::NotFound && old(self).unchanged(*final(self)),
            old(self).lookup(key@, now) matches Some(v) && v.cas != token ==> r == StoreResult::Exists
                && old(self).unchanged(*final(self)),
            old(self).lookup(key@, now) matches Some(v) && v.cas == token ==> (r is Stored || r is Failed)
                && old(self).set_post(*final(self), key@, value@, flags, expiry_of(now, ttl), as_set_result(r)),
    {
        match self.get(key, now) {
            None => StoreResult::NotFound,
            Some(f) => {
                if f.cas != token {
                    return StoreResult::Exists;
                }
                match self.set(key, value, flags, ttl, now) {
                    Ok(c) => StoreResult::Stored(c),
                    Err(e) => StoreResult::Failed(e),
                }
            },
        }
    }

    /// Adds `delta` to the number that `key` holds at `now` (wrapping at 64
    /// bits), or subtracts it (stopping at zero), and writes back the decimal
    /// text of the result with the item's flags and expiry.
    fn add_delta(&mut self, key: &[u8], delta: u64, up: bool, now: u64) -> (r: IncrResult)
        requires
            old(self).wf(),
        ensures
            final(self).wf(),
            old(self).lookup(key@, now) is None ==> r == IncrResult::NotFound && old(self).unchanged(*final(self)),
            old(self).lookup(key@, now) is Some ==> {
                let v = old(self).lookup(key@, now)->Some_0;
                !(canonical(v.value) && digits_value(v.value) <= u64::MAX) ==> r == IncrResult::NotNumeric
                    && old(self).unchanged(*final(self))
            },
            old(self).lookup(key@, now) is Some ==> {
                let v = old(self).lookup(key@, now)->Some_0;
                canonical(v.value) && digits_value(v.value) <= u64::MAX ==> {
                let n = digits_value(v.value);
                let m = if up {
                    ((n + delta) % 0x1_0000_0000_0000_0000) as u64
                } else if n >= delta {
                    (n - delta) as u64
                } else {
                    0u64
                };
                &&& (r is Value || r is Failed)
                &&& (r matches IncrResult::Value { value, cas } ==> value == m)
                &&& old(self).set_post(*final(self), key@, decimal(m as nat), v.flags, v.expiry, incr_as_set_result(r))
                }
            },
    {
        let found = self.get(key, now);
        let f = match found {
            None => {
                return IncrResult::NotFound;
            },
            Some(f) => f,
        };
        let n = match parse_decimal(f.value.as_slice()) {
            None => {
                return IncrResult::NotNumeric;
            },
            Some(n) => n,
        };
        let m: u64 = if up {
            if n > u64::MAX - delta {
                (n as u128 + delta as u128 - 0x1_0000_0000_0000_0000u128) as u64
            } else {
                n + delta
            }
        } else if n >= delta {
            n - delta
        } else {
            0
        };
        let expiry = self.expiry_of_key(key, now);
        let mut text: Vec<u8> = Vec::new();
        push_decimal(&mut text, m);
        assert(text@ =~= decimal(m as nat));
        match self.write(key, text.as_slice(), f.flags, expiry) {
            Ok(cas) => IncrResult::Value { value: m, cas },
            Err(e) => IncrResult::Failed(e),
        }
    }

    /// The expiry of the item that `key` holds at `now`.
    fn expiry_of_key(&self, key: &[u8], now: u64) -> (r: u64)
        requires
            self.wf(),
            self.lookup(key@, now) is Some,
        ensures
            r == self.lookup(key@, now)->Some_0.expiry,
    {
        match self.find(key) {
            Some(i) => {
                let e = &self.table[i];
                self.segments[e.segment].items[e.slot].expiry
            },
            None => 0,
        }
    }

    /// `incr`: adds `delta`, wrapping at 64 bits.
    pub fn incr(&mut self, key: &[u8], delta: u64, now: u64) -> (r: IncrResult)
        requires
            old(self).wf(),
        ensures
            final(self).wf(),
            old(self).lookup(key@, now) is None ==> r == IncrResult::NotFound && old(self).unchanged(*final(self)),
            old(self).lookup(key@, now) is Some ==> {
                let v = old(self).lookup(key@, now)->Some_0;
                !(canonical(v.value) && digits_value(v.value) <= u64::MAX) ==> r == IncrResult::NotNumeric
                    && old(self).unchanged(*final(self))
            },
            old(self).lookup(key@, now) is Some ==> {
                let v = old(self).lookup(key@, now)->Some_0;
                canonical(v.value) && digits_value(v.value) <= u64::MAX ==> {
                let m = ((digits_value(v.value) + delta) % 0x1_0000_0000_0000_0000) as u64;
                &&& (r is Value || r is Failed)
                &&& (r matches IncrResult::Value { value, cas } ==> value == m)
                &&& old(self).set_post(*final(self), key@, decimal(m as nat), v.flags, v.expiry, incr_as_set_result(r))
                }
            },
    {
        self.add_delta(key, delta, true, now)
    }

    /// `decr`: subtracts `delta`, stopping at zero.
    pub fn decr(&mut self, key: &[u8], delta: u64, now: u64) -> (r: IncrResult)
        requires
            old(self).wf(),
        ensures
            final(self).wf(),
            old(self).lookup(key@, now) is None ==> r == IncrResult::NotFound && old(self).unchanged(*final(self)),
            old(self).lookup(key@, now) is Some ==> {
                let v = old(self).lookup(key@, now)->Some_0;
                !(canonical(v.value) && digits_value(v.value) <= u64::MAX) ==> r == IncrResult::NotNumeric
                    && old(self).unchanged(*final(self))
            },
            old(self).lookup(key@, now) is Some ==> {
                let v = old(self).lookup(key@, now)->Some_0;
                canonical(v.value) && digits_value(v.value) <= u64::MAX ==> {
                let n = digits_value(v.value);
                let m = if n >= delta { (n - delta) as u64 } else { 0u64 };
                &&& (r is Value || r is Failed)
                &&& (r matches IncrResult::Value { value, cas } ==> value == m)
                &&& old(self).set_post(*final(self), key@, decimal(m as nat), v.flags, v.expiry, incr_as_set_result(r))
                }
            },
    {
        self.add_delta(key, delta, false, now)
    }

    /// Removes `key`. Returns whether it held an item at `now`.
    pub fn delete(&mut self, key: &[u8], now: u64) -> (r: bool)
        requires
            old(self).wf(),
        ensures
            final(self).wf(),
            final(self).segment_size_spec() == old(self).segment_size_spec(),
            r == old(self).lookup(key@, now) is Some,
            forall|t: u64| final(self).lookup(key@, t) is None,
            old(self).same_except(*final(self), key@),
    {
        let live = self.get(key, now).is_some();
        match self.find(key) {
            None => {},
            Some(i) => {
                let ghost before = *self;
                self.table.remove(i);
                proof {
                    before.lemma_remove(*self, i as int);
                }
            },
        }
        live
    }

    /// Recycles every segment whose bucket has expired at `now`, and removes
    /// every table entry that pointed into one of them.
    pub fn expire(&mut self, now: u64)
        requires
            old(self).wf(),
        ensures
            final(self).wf(),
            old(self).expire_post(*final(self), now),
    {
        let ghost s0 = *self;
        let mut i: usize = self.table.len();
        while i > 0
            invariant
                self.wf(),
                s0.wf(),
                self.table@.len() <= s0.table@.len(),
                self.segments@ == s0.segments@,
                self.segment_size == s0.segment_size,
                self.max_segments == s0.max_segments,
                self.next_cas == s0.next_cas,
                i <= self.table@.len(),
                forall|j: int| 0 <= j < i ==> #[trigger] self.table@[j] == s0.table@[j],
                forall|j: int| i <= j < self.table@.len() ==> !expiring(self.segments@[#[trigger] self.table@[j].segment as int], now),
                forall|k: Seq<u8>| #[trigger] self.has_key(k) ==> s0.has_key(k)
                    && self.item_at(self.index_of(k)) == s0.item_at(s0.index_of(k))
                    && self.table@[self.index_of(k)].segment == s0.table@[s0.index_of(k)].segment,
                forall|k: Seq<u8>| s0.has_key(k) && !s0.in_expired_segment(k, now) ==> #[trigger] self.has_key(k),
                forall|k: Seq<u8>| #[trigger] s0.in_expired_segment(k, now) && s0.index_of(k) >= i ==> !self.has_key(k),
            decreases i,
        {
            i = i - 1;
            let sg = self.table[i].segment;
            let seg = &self.segments[sg];
            if !seg.free && seg.expiry != 0 && seg.expiry <= now {
                let ghost before = *self;
                self.table.remove(i);
                proof {
                    before.lemma_remove(*self, i as int);
                    let key = before.table@[i as int].key@;
                    assert(before.table@[i as int] == s0.table@[i as int]);
                    s0.lemma_index_of(i as int);
                    assert(s0.in_expired_segment(key, now));
                    assert forall|j: int| i <= j < self.table@.len() implies !expiring(self.segments@[#[trigger] self.table@[j].segment as int], now) by {
                        assert(self.table@[j] == before.table@[j + 1]);
                    }
                    assert forall|j: int| 0 <= j < i implies #[trigger] self.table@[j] == s0.table@[j] by {
                        assert(self.table@[j] == before.table@[j]);
                    }
                    assert forall|k: Seq<u8>| #[trigger] s0.in_expired_segment(k, now) && s0.index_of(k) >= i implies !self.has_key(k) by {
                        if k != key && s0.index_of(k) == i {
                            assert(s0.table@[s0.index_of(k)].key@ == k);
                        }
                    }
                    assert forall|k: Seq<u8>| s0.has_key(k) && !s0.in_expired_segment(k, now) implies #[trigger] self.has_key(k) by {
                        assert(before.has_key(k));
                        if k == key {
                            assert(s0.in_expired_segment(k, now));
                        }
                    }
                }
            } else {
                proof {
                    assert forall|k: Seq<u8>| #[trigger] s0.in_expired_segment(k, now) && s0.index_of(k) >= i implies !self.has_key(k) by {
                        if s0.index_of(k) == i {
                            s0.lemma_index_of(i as int);
                            assert(self.table@[i as int] == s0.table@[i as int]);
                        }
                    }
                }
            }
        }
        let ghost s1 = *self;
        let mut s: usize = 0;
        while s < self.segments.len()
            invariant
                s1.wf(),
                self.table@ == s1.table@,
                self.segment_size == s1.segment_size,
                self.max_segments == s1.max_segments,
                self.next_cas == s1.next_cas,
                self.segments@.len() == s1.segments@.len(),
                s <= self.segments@.len(),
                forall|j: int| 0 <= j < self.table@.len() ==> !expiring(s1.segments@[#[trigger] self.table@[j].segment as int], now),
                forall|j: int| s <= j < self.segments@.len() ==> #[trigger] self.segments@[j] == s1.segments@[j],
                forall|j: int| 0 <= j < s ==> !expiring(s1.segments@[j], now) ==> #[trigger] self.segments@[j] == s1.segments@[j],
                forall|j: int| 0 <= j < s ==> expiring(s1.segments@[j], now) ==> (#[trigger] self.segments@[j]).free
                    && self.segments@[j].items@.len() == 0 && self.segments@[j].used == 0,
            decreases self.segments@.len() - s,
        {
            let seg = &self.segments[s];
            if !seg.free && seg.expiry != 0 && seg.expiry <= now {
                self.segments.set(s, Segment { items: Vec::new(), expiry: 0, used: 0, free: true });
            }
            s = s + 1;
        }
        proof {
            assert forall|j: int| 0 <= j < self.table@.len() implies #[trigger] self.item_at(j) == s1.item_at(j) by {
                let sg = self.table@[j].segment as int;
                assert(!expiring(s1.segments@[sg], now));
                assert(self.segments@[sg] == s1.segments@[sg]);
            }
            assert(self.wf());
            assert forall|k: Seq<u8>| #[trigger] self.has_key(k) implies s1.has_key(k) && self.index_of(k) == s1.index_of(k) by {
                let j = self.index_of(k);
                s1.lemma_index_of(j);
            }
            assert forall|k: Seq<u8>| #[trigger] s1.has_key(k) implies self.has_key(k) by {
                let j = s1.index_of(k);
                assert(self.table@[j].key@ == k);
            }
            assert forall|k: Seq<u8>, t: u64| #[trigger] self.lookup(k, t) == s1.lookup(k, t) by {
                if self.has_key(k) {
                    assert(self.item_at(self.index_of(k)) == s1.item_at(s1.index_of(k)));
                }
            }
            assert forall|k: Seq<u8>, t: u64| (#[trigger] s0.lookup(k, t)) is Some && live_at(s0.lookup(k, t)->Some_0.expiry, now)
                implies self.lookup(k, t) == s0.lookup(k, t) by {
                let j = s0.index_of(k);
                let sg = s0.table@[j].segment as int;
                assert(s0.segments@[sg].items@[s0.table@[j].slot as int] == s0.item_at(j));
                assert(!s0.in_expired_segment(k, now));
                assert(s1.has_key(k));
            }
            assert forall|k: Seq<u8>, t: u64| (#[trigger] self.lookup(k, t)) is Some implies self.lookup(k, t) == s0.lookup(k, t) by {
                assert(s1.has_key(k));
            }
            assert forall|k: Seq<u8>| s0.has_key(k) && !s0.in_expired_segment(k, now) implies #[trigger] self.has_key(k) by {
                assert(s1.has_key(k));
            }
        }
    }

    /// Drops every item.
    pub fn flush_all(&mut self)
        requires
            old(self).wf(),
        ensures
            final(self).wf(),
            final(self).segment_size_spec() == old(self).segment_size_spec(),
            forall|k: Seq<u8>, t: u64| final(self).lookup(k, t) is None,
    {
        self.table = Vec::new();
        self.segments = Vec::new();
    }
}


/// A `set` with no time to live is read back at every later time, whatever
/// other keys are written, and survives every expiration tick.
pub proof fn lemma_set_never_expires(
    s0: Seg,
    s1: Seg,
    s2: Seg,
    key: Seq<u8>,
    value: Seq<u8>,
    flags: u32,
    now: u64,
    cas: u64,
    tick: u64,
)
    requires
        s0.set_post(s1, key, value, flags, expiry_of(now, 0), Ok::<u64, SetError>(cas)),
        s1.expire_post(s2, tick),
    ensures
        forall|t: u64| #[trigger] s1.lookup(key, t) == Some(ItemView { value, flags, cas, expiry: 0 }),
        forall|t: u64| #[trigger] s2.lookup(key, t) == Some(ItemView { value, flags, cas, expiry: 0 }),
{
    assert forall|t: u64| #[trigger] s2.lookup(key, t) == Some(ItemView { value, flags, cas, expiry: 0 }) by {
        assert(s1.lookup(key, t) == Some(ItemView { value, flags, cas, expiry: 0 }));
    }
}

/// An item that fills a segment exactly is stored; one byte more is refused
/// as too large.
pub proof fn lemma_largest_item(
    s0: Seg,
    s1: Seg,
    key: Seq<u8>,
    value: Seq<u8>,
    flags: u32,
    expiry: u64,
    r: Result<u64, SetError>,
)
    requires
        s0.set_post(s1, key, value, flags, expiry, r),
    ensures
        ITEM_HEADER_SIZE + key.len() + value.len() == s0.segment_size_spec() ==> r != Err::<u64, SetError>(SetError::ValueTooLarge),
        ITEM_HEADER_SIZE + key.len() + value.len() == s0.segment_size_spec() && !s0.cas_exhausted()
            && s0.has_room(bucket_end(expiry), item_size(key.len(), value.len())) ==> r is Ok,
        ITEM_HEADER_SIZE + key.len() + value.len() == s0.segment_size_spec() + 1 ==> r == Err::<u64, SetError>(SetError::ValueTooLarge),
{
    if r is Err {
        match r->Err_0 {
            SetError::ValueTooLarge => {},
            SetError::NoFreeSegment => {},
            SetError::CasExhausted => {},
        }
    }
}

/// A cas token read before a later successful write of the same key is
/// stale: the key's item now carries another token, so a `cas` with it
/// answers `EXISTS`.
pub proof fn lemma_stale_token(
    s0: Seg,
    s1: Seg,
    key: Seq<u8>,
    value: Seq<u8>,
    flags: u32,
    expiry: u64,
    cas: u64,
    read_at: u64,
    t: u64,
)
    requires
        s0.lookup(key, read_at) is Some,
        s0.set_post(s1, key, value, flags, expiry, Ok::<u64, SetError>(cas)),
        s1.lookup(key, t) is Some,
    ensures
        s1.lookup(key, t)->Some_0.cas != s0.lookup(key, read_at)->Some_0.cas,
{
    assert(s1.lookup(key, t) == Some(ItemView { value, flags, cas, expiry }));
}

} // verus!
