//! A read-mostly cache of byte objects with time-to-live eviction.
//!
//! The cache is logically a map from identifier to `(last_touched, bytes)`.
//! Mutations travel as [`CacheOp`] values through a bounded operation
//! channel to a single writer, which absorbs them into a write-side copy
//! of the map and from time to time *publishes*: it brings the read-side
//! copy up to date with the operation log, after which both copies hold
//! the same map. Readers only ever see published snapshots.
//!
//! Here the protocol is modelled sequentially: the channel is a queue, the
//! two copies are two [`CacheMap`] values, and the well-formedness
//! invariant states that the write copy always equals the read copy with
//! the pending operation log applied — the fact that makes the publish
//! swap of a double-buffered map sound.

use vstd::prelude::*;
use vstd::map::*;
use crate::bytes::clone_bytes;
use crate::ident::ImageId;

verus! {

/// Time-to-live of a cache entry, in milliseconds: an entry untouched for
/// longer than this is removed by the next sweep.
pub const TTL_MILLIS: u64 = 3000;

/// Capacity of the operation channel; operations offered to a full
/// channel are dropped (the disk stays authoritative).
pub const CHANNEL_CAPACITY: usize = 128;

/// One stored entry: the instant (in milliseconds of a monotonic clock)
/// of its last touch, and its payload.
pub struct CacheSlot {
    pub key: u128,
    pub touched: u64,
    pub data: Vec<u8>,
}

/// The mathematical value of one entry.
#[verifier::ext_equal]
pub struct EntrySnap {
    pub touched: u64,
    pub data: Seq<u8>,
}

impl CacheSlot {
    /// The mathematical value of this slot.
    pub open spec fn snap(self) -> EntrySnap {
        EntrySnap { touched: self.touched, data: self.data@ }
    }
}

/// Whether an entry last touched at `touched` is out of its time-to-live
/// at instant `now`.
pub open spec fn expired(touched: u64, now: u64) -> bool {
    now > touched && now - touched > TTL_MILLIS
}

/// Exec mirror of [`expired`].
pub fn is_expired(touched: u64, now: u64) -> (r: bool)
    ensures
        r == expired(touched, now),
{
    now > touched && now - touched > TTL_MILLIS
}

/// The map a sequence of slots denotes; a later slot with the same key
/// would win, though well-formed maps keep keys unique.
pub open spec fn map_of(s: Seq<CacheSlot>) -> Map<u128, EntrySnap>
    decreases s.len(),
{
    if s.len() == 0 {
        Map::empty()
    } else {
        map_of(s.drop_last()).insert(s.last().key, s.last().snap())
    }
}

/// No two slots share a key.
pub open spec fn unique_keys(s: Seq<CacheSlot>) -> bool {
    forall|i: int, j: int| 0 <= i < j < s.len() ==> s[i].key != s[j].key
}

proof fn lemma_map_of_push(s: Seq<CacheSlot>, x: CacheSlot)
    ensures
        map_of(s.push(x)) == map_of(s).insert(x.key, x.snap()),
{
    assert(s.push(x).drop_last() =~= s);
    assert(s.push(x).last() == x);
}

proof fn lemma_map_of_absent(s: Seq<CacheSlot>, k: u128)
    requires
        forall|i: int| 0 <= i < s.len() ==> s[i].key != k,
    ensures
        !map_of(s).contains_key(k),
    decreases s.len(),
{
    if s.len() > 0 {
        assert(forall|i: int| 0 <= i < s.drop_last().len() ==> s.drop_last()[i].key != k);
        lemma_map_of_absent(s.drop_last(), k);
    }
}

proof fn lemma_map_of_index(s: Seq<CacheSlot>, i: int)
    requires
        unique_keys(s),
        0 <= i < s.len(),
    ensures
        map_of(s).contains_key(s[i].key),
        map_of(s)[s[i].key] == s[i].snap(),
    decreases s.len(),
{
    if i == s.len() - 1 {
    } else {
        assert(unique_keys(s.drop_last()));
        lemma_map_of_index(s.drop_last(), i);
        assert(s.last().key != s[i].key);
    }
}

proof fn lemma_map_of_remove_at(s: Seq<CacheSlot>, i: int)
    requires
        unique_keys(s),
        0 <= i < s.len(),
    ensures
        map_of(s.remove(i)) == map_of(s).remove(s[i].key),
    decreases s.len(),
{
    let k = s[i].key;
    if i == s.len() - 1 {
        assert(s.remove(i) =~= s.drop_last());
        assert(forall|j: int| 0 <= j < s.drop_last().len() ==> s.drop_last()[j].key != k);
        lemma_map_of_absent(s.drop_last(), k);
        assert_maps_equal!(map_of(s.drop_last()).insert(k, s[i].snap()).remove(k),
            map_of(s.drop_last()));
    } else {
        assert(unique_keys(s.drop_last()));
        lemma_map_of_remove_at(s.drop_last(), i);
        assert(s.remove(i).drop_last() =~= s.drop_last().remove(i));
        assert(s.remove(i).last() == s.last());
        assert(s.last().key != k);
        assert_maps_equal!(map_of(s.drop_last()).remove(k).insert(s.last().key, s.last().snap()),
            map_of(s.drop_last()).insert(s.last().key, s.last().snap()).remove(k));
    }
}

proof fn lemma_unique_remove(s: Seq<CacheSlot>, i: int)
    requires
        unique_keys(s),
        0 <= i < s.len(),
    ensures
        unique_keys(s.remove(i)),
{
    assert forall|a: int, b: int| 0 <= a < b < s.remove(i).len() implies s.remove(i)[a].key
        != s.remove(i)[b].key by {
        let a2 = if a < i { a } else { a + 1 };
        let b2 = if b < i { b } else { b + 1 };
        assert(s.remove(i)[a] == s[a2]);
        assert(s.remove(i)[b] == s[b2]);
    }
}

/// One copy of the cache map, stored as a vector of slots with unique
/// keys. Its mathematical value is a `Map` from key to entry.
pub struct CacheMap {
    pub slots: Vec<CacheSlot>,
}

impl View for CacheMap {
    type V = Map<u128, EntrySnap>;

    open spec fn view(&self) -> Map<u128, EntrySnap> {
        map_of(self.slots@)
    }
}

impl CacheMap {
    /// Keys are unique, so the vector and its map agree.
    pub open spec fn wf(self) -> bool {
        unique_keys(self.slots@)
    }

    /// An empty map.
    pub fn empty() -> (r: CacheMap)
        ensures
            r.wf(),
            r@ == Map::<u128, EntrySnap>::empty(),
    {
        CacheMap { slots: Vec::new() }
    }

    /// The index of the slot holding `key`, if any.
    fn find(&self, key: u128) -> (r: Option<usize>)
        ensures
            match r {
                Some(i) => i < self.slots@.len() && self.slots@[i as int].key == key,
                None => forall|j: int| 0 <= j < self.slots@.len() ==> self.slots@[j].key != key,
            },
    {
        let mut i: usize = 0;
        while i < self.slots.len()
            invariant
                i <= self.slots@.len(),
                forall|j: int| 0 <= j < i ==> self.slots@[j].key != key,
            decreases self.slots@.len() - i,
        {
            if self.slots[i].key == key {
                return Some(i);
            }
            i += 1;
        }
        None
    }

    /// The payload stored under `key`, copied out, or `None`.
    pub fn get(&self, key: u128) -> (r: Option<Vec<u8>>)
        requires
            self.wf(),
        ensures
            match r {
                Some(d) => self@.contains_key(key) && d@ == self@[key].data,
                None => !self@.contains_key(key),
            },
    {
        match self.find(key) {
            Some(i) => {
                proof {
                    lemma_map_of_index(self.slots@, i as int);
                }
                Some(clone_bytes(&self.slots[i].data))
            },
            None => {
                proof {
                    lemma_map_of_absent(self.slots@, key);
                }
                None
            },
        }
    }

    /// Whether `key` is present.
    pub fn contains(&self, key: u128) -> (r: bool)
        requires
            self.wf(),
        ensures
            r == self@.contains_key(key),
    {
        match self.find(key) {
            Some(i) => {
                proof {
                    lemma_map_of_index(self.slots@, i as int);
                }
                true
            },
            None => {
                proof {
                    lemma_map_of_absent(self.slots@, key);
                }
                false
            },
        }
    }

    /// Removes `key` if present.
    pub fn remove(&mut self, key: u128)
        requires
            old(self).wf(),
        ensures
            final(self).wf(),
            final(self)@ == old(self)@.remove(key),
    {
        match self.find(key) {
            Some(i) => {
                proof {
                    lemma_map_of_remove_at(self.slots@, i as int);
                    lemma_unique_remove(self.slots@, i as int);
                }
                self.slots.remove(i);
            },
            None => {
                proof {
                    lemma_map_of_absent(self.slots@, key);
                    assert_maps_equal!(old(self)@.remove(key), old(self)@);
                }
            },
        }
    }

    /// After removal, `key` appears in no slot.
    proof fn lemma_removed_key_absent(s: Seq<CacheSlot>, i: int)
        requires
            unique_keys(s),
            0 <= i < s.len(),
        ensures
            forall|j: int| 0 <= j < s.remove(i).len() ==> s.remove(i)[j].key != s[i].key,
    {
        assert forall|j: int| 0 <= j < s.remove(i).len() implies s.remove(i)[j].key
            != s[i].key by {
            if j < i {
                assert(s.remove(i)[j] == s[j]);
            } else {
                assert(s.remove(i)[j] == s[j + 1]);
            }
        }
    }

    /// Binds `key` to a payload touched at `touched`, replacing any
    /// earlier binding.
    pub fn insert(&mut self, key: u128, touched: u64, data: Vec<u8>)
        requires
            old(self).wf(),
        ensures
            final(self).wf(),
            final(self)@ == old(self)@.insert(key, (EntrySnap { touched, data: data@ })),
    {
        match self.find(key) {
            Some(i) => {
                proof {
                    lemma_map_of_remove_at(self.slots@, i as int);
                    Self::lemma_removed_key_absent(self.slots@, i as int);
                    lemma_unique_remove(self.slots@, i as int);
                }
                self.slots.remove(i);
            },
            None => {
                proof {
                    lemma_map_of_absent(self.slots@, key);
                    assert_maps_equal!(old(self)@.remove(key), old(self)@);
                }
            },
        }
        let slot = CacheSlot { key, touched, data };
        proof {
            lemma_map_of_push(self.slots@, slot);
        }
        self.slots.push(slot);
        proof {
            assert_maps_equal!(self@,
                old(self)@.insert(key, (EntrySnap { touched, data: data@ })));
        }
    }

    /// Sets the touch instant of `key` to `now` if present; the payload
    /// and all other entries stay as they were.
    pub fn touch(&mut self, key: u128, now: u64)
        requires
            old(self).wf(),
        ensures
            final(self).wf(),
            final(self)@ == if old(self)@.contains_key(key) {
                old(self)@.insert(
                    key,
                    (EntrySnap { touched: now, data: old(self)@[key].data }),
                )
            } else {
                old(self)@
            },
    {
        match self.find(key) {
            Some(i) => {
                proof {
                    lemma_map_of_index(self.slots@, i as int);
                    lemma_map_of_remove_at(self.slots@, i as int);
                    Self::lemma_removed_key_absent(self.slots@, i as int);
                    lemma_unique_remove(self.slots@, i as int);
                }
                let mut slot = self.slots.remove(i);
                slot.touched = now;
                proof {
                    lemma_map_of_push(self.slots@, slot);
                }
                self.slots.push(slot);
                proof {
                    assert_maps_equal!(self@,
                        old(self)@.insert(key,
                            (EntrySnap { touched: now, data: old(self)@[key].data })));
                }
            },
            None => {
                proof {
                    lemma_map_of_absent(self.slots@, key);
                }
            },
        }
    }

    /// Removes every entry that is expired at `now`.
    pub fn sweep(&mut self, now: u64)
        requires
            old(self).wf(),
        ensures
            final(self).wf(),
            final(self)@ == sweep_spec(old(self)@, now),
    {
        let mut i: usize = 0;
        while i < self.slots.len()
            invariant
                self.wf(),
                i <= self.slots@.len(),
                forall|j: int| 0 <= j < i ==> !expired(self.slots@[j].touched, now),
                sweep_spec(self@, now) == sweep_spec(old(self)@, now),
            decreases self.slots@.len() - i,
        {
            if is_expired(self.slots[i].touched, now) {
                proof {
                    let s = self.slots@;
                    lemma_map_of_index(s, i as int);
                    lemma_map_of_remove_at(s, i as int);
                    Self::lemma_removed_key_absent(s, i as int);
                    lemma_unique_remove(s, i as int);
                    assert_maps_equal!(sweep_spec(map_of(s).remove(s[i as int].key), now),
                        sweep_spec(map_of(s), now));
                }
                self.slots.remove(i);
            } else {
                i += 1;
            }
        }
        proof {
            assert forall|k: u128| self@.contains_key(k) implies !expired(
                self@[k].touched,
                now,
            ) by {
                let s = self.slots@;
                lemma_map_of_absent_converse(s, k);
                let i = choose|i: int| 0 <= i < s.len() && s[i].key == k;
                lemma_map_of_index(s, i);
            }
            assert_maps_equal!(sweep_spec(self@, now), self@);
        }
    }
}

proof fn lemma_map_of_absent_converse(s: Seq<CacheSlot>, k: u128)
    requires
        map_of(s).contains_key(k),
    ensures
        exists|i: int| 0 <= i < s.len() && s[i].key == k,
{
    if forall|i: int| 0 <= i < s.len() ==> s[i].key != k {
        lemma_map_of_absent(s, k);
    }
}

/// The map a sweep at `now` leaves behind: the unexpired entries,
/// unchanged.
pub open spec fn sweep_spec(m: Map<u128, EntrySnap>, now: u64) -> Map<u128, EntrySnap> {
    Map::new(|k: u128| m.contains_key(k) && !expired(m[k].touched, now), |k: u128| m[k])
}

/// One mutation of the cache map, as carried by the operation channel.
pub enum CacheOp {
    /// Bind an identifier to a payload, touching it now.
    Insert(ImageId, Vec<u8>),
    /// Renew the touch instant of an identifier, if present.
    Refresh(ImageId),
    /// Drop an identifier, if present.
    Remove(ImageId),
    /// Sweep: drop every entry out of its time-to-live.
    Periodic,
    /// Publish immediately, outside the periodic schedule.
    ForceUpdate,
}

/// An operation together with the instant at which the writer absorbed
/// it; replaying the log with the recorded instants is deterministic, so
/// both copies of the map converge.
pub struct LoggedOp {
    pub op: CacheOp,
    pub at: u64,
}

/// The effect of absorbing one operation at instant `at`.
pub open spec fn apply_one(m: Map<u128, EntrySnap>, op: CacheOp, at: u64) -> Map<
    u128,
    EntrySnap,
> {
    match op {
        CacheOp::Insert(id, data) => m.insert(id.0, EntrySnap { touched: at, data: data@ }),
        CacheOp::Refresh(id) => if m.contains_key(id.0) {
            m.insert(id.0, EntrySnap { touched: at, data: m[id.0].data })
        } else {
            m
        },
        CacheOp::Remove(id) => m.remove(id.0),
        CacheOp::Periodic => sweep_spec(m, at),
        CacheOp::ForceUpdate => m,
    }
}

/// The effect of absorbing a whole log, oldest first.
pub open spec fn apply_ops(m: Map<u128, EntrySnap>, ops: Seq<LoggedOp>) -> Map<u128, EntrySnap>
    decreases ops.len(),
{
    if ops.len() == 0 {
        m
    } else {
        apply_ops(apply_one(m, ops[0].op, ops[0].at), ops.drop_first())
    }
}

/// Absorbing a log and then one more operation is absorbing the log
/// extended by that operation.
pub proof fn lemma_apply_ops_push(m: Map<u128, EntrySnap>, ops: Seq<LoggedOp>, x: LoggedOp)
    ensures
        apply_ops(m, ops.push(x)) == apply_one(apply_ops(m, ops), x.op, x.at),
    decreases ops.len(),
{
    let e = ops.push(x);
    assert(e.len() > 0);
    assert(apply_ops(m, e) == apply_ops(apply_one(m, e[0].op, e[0].at), e.drop_first()));
    if ops.len() == 0 {
        assert(e[0] == x);
        assert(e.drop_first() =~= Seq::<LoggedOp>::empty());
        assert(apply_ops(apply_one(m, x.op, x.at), e.drop_first()) == apply_one(m, x.op, x.at));
        assert(apply_ops(m, ops) == m);
    } else {
        assert(e[0] == ops[0]);
        assert(e.drop_first() =~= ops.drop_first().push(x));
        lemma_apply_ops_push(apply_one(m, ops[0].op, ops[0].at), ops.drop_first(), x);
    }
}

/// Absorbs one operation into one copy of the map.
pub fn absorb(map: &mut CacheMap, op: &CacheOp, at: u64)
    requires
        old(map).wf(),
    ensures
        final(map).wf(),
        final(map)@ == apply_one(old(map)@, *op, at),
{
    match op {
        CacheOp::Insert(id, data) => {
            map.insert(id.0, at, clone_bytes(data));
        },
        CacheOp::Refresh(id) => {
            map.touch(id.0, at);
        },
        CacheOp::Remove(id) => {
            map.remove(id.0);
        },
        CacheOp::Periodic => {
            map.sweep(at);
        },
        CacheOp::ForceUpdate => {
        },
    }
}

/// The state owned by the cache writer: the published read copy, the
/// write copy, and the log of operations absorbed into the write copy but
/// not yet published.
pub struct CacheState {
    pub read_map: CacheMap,
    pub write_map: CacheMap,
    pub oplog: Vec<LoggedOp>,
    pub last_update: u64,
}

/// The mathematical value of the writer state.
#[verifier::ext_equal]
pub struct CacheSnap {
    pub read: Map<u128, EntrySnap>,
    pub write: Map<u128, EntrySnap>,
    pub log: Seq<LoggedOp>,
    pub last_update: u64,
}

/// The double-buffer invariant: the write copy is the read copy with the
/// pending log applied, so a publish makes the two copies converge.
pub open spec fn wf_snap(s: CacheSnap) -> bool {
    s.write == apply_ops(s.read, s.log)
}

/// The effect of absorbing one operation into the write copy and logging
/// it.
pub open spec fn append_snap(s: CacheSnap, op: CacheOp, at: u64) -> CacheSnap {
    CacheSnap {
        write: apply_one(s.write, op, at),
        log: s.log.push(LoggedOp { op, at }),
        ..s
    }
}

/// The effect of a publish: the read copy catches up with the log, which
/// empties. Under [`wf_snap`] the read copy then equals the write copy.
pub open spec fn publish_snap(s: CacheSnap) -> CacheSnap {
    CacheSnap { read: apply_ops(s.read, s.log), log: Seq::empty(), ..s }
}

/// One turn of the writer loop: a forced update publishes at once; any
/// other operation is absorbed, and if the publish interval has passed, a
/// sweep is absorbed and the batch is published.
pub open spec fn writer_step_snap(s: CacheSnap, op: CacheOp, now: u64, every: u64) -> CacheSnap {
    if op is ForceUpdate {
        CacheSnap { last_update: now, ..publish_snap(s) }
    } else {
        let s1 = append_snap(s, op, now);
        if now - s.last_update > every {
            CacheSnap {
                last_update: now,
                ..publish_snap(append_snap(s1, CacheOp::Periodic, now))
            }
        } else {
            s1
        }
    }
}

/// The writer state after a whole queue of operations is absorbed, oldest
/// first, all at instant `now`.
pub open spec fn run_ops(s: CacheSnap, ops: Seq<CacheOp>, now: u64, every: u64) -> CacheSnap
    decreases ops.len(),
{
    if ops.len() == 0 {
        s
    } else {
        run_ops(writer_step_snap(s, ops[0], now, every), ops.drop_first(), now, every)
    }
}

impl CacheState {
    /// The mathematical value of this state.
    pub open spec fn snap(self) -> CacheSnap {
        CacheSnap {
            read: self.read_map@,
            write: self.write_map@,
            log: self.oplog@,
            last_update: self.last_update,
        }
    }

    /// Both copies are well-formed maps and the double-buffer invariant
    /// holds.
    pub open spec fn wf(self) -> bool {
        self.read_map.wf() && self.write_map.wf() && wf_snap(self.snap())
    }

    /// A fresh writer state: both copies empty, nothing pending.
    pub fn new() -> (r: CacheState)
        ensures
            r.wf(),
            r.snap().read == Map::<u128, EntrySnap>::empty(),
            r.snap().write == Map::<u128, EntrySnap>::empty(),
            r.snap().log == Seq::<LoggedOp>::empty(),
            r.snap().last_update == 0,
    {
        let r = CacheState {
            read_map: CacheMap::empty(),
            write_map: CacheMap::empty(),
            oplog: Vec::new(),
            last_update: 0,
        };
        proof {
            assert(r.oplog@ =~= Seq::<LoggedOp>::empty());
        }
        r
    }

    /// Absorbs one operation into the write copy and logs it.
    pub fn append(&mut self, op: CacheOp, at: u64)
        requires
            old(self).wf(),
        ensures
            final(self).wf(),
            final(self).snap() == append_snap(old(self).snap(), op, at),
    {
        absorb(&mut self.write_map, &op, at);
        proof {
            lemma_apply_ops_push(
                old(self).read_map@,
                old(self).oplog@,
                (LoggedOp { op, at }),
            );
        }
        self.oplog.push(LoggedOp { op, at });
        proof {
            assert(self.snap() =~= append_snap(old(self).snap(), op, at));
        }
    }

    /// Publishes: replays the pending log into the read copy, after which
    /// both copies hold the same map — the published snapshot is exactly
    /// the write copy.
    pub fn publish(&mut self)
        requires
            old(self).wf(),
        ensures
            final(self).wf(),
            final(self).snap() == publish_snap(old(self).snap()),
            final(self).read_map@ == old(self).write_map@,
            final(self).read_map@ == final(self).write_map@,
    {
        while !self.oplog.is_empty()
            invariant
                self.read_map.wf(),
                self.write_map == old(self).write_map,
                self.last_update == old(self).last_update,
                apply_ops(self.read_map@, self.oplog@) == apply_ops(
                    old(self).read_map@,
                    old(self).oplog@,
                ),
            decreases self.oplog@.len(),
        {
            let ghost pre_log = self.oplog@;
            let ghost pre_read = self.read_map@;
            let item = self.oplog.remove(0);
            absorb(&mut self.read_map, &item.op, item.at);
            proof {
                assert(pre_log.remove(0) =~= pre_log.drop_first());
                assert(apply_ops(pre_read, pre_log) == apply_ops(
                    apply_one(pre_read, pre_log[0].op, pre_log[0].at),
                    pre_log.drop_first(),
                ));
            }
        }
        proof {
            assert(self.oplog@ =~= Seq::<LoggedOp>::empty());
            assert(self.snap() =~= publish_snap(old(self).snap()));
        }
    }

    /// One turn of the writer loop, mirroring [`writer_step_snap`].
    pub fn writer_step(&mut self, op: CacheOp, now: u64, every: u64)
        requires
            old(self).wf(),
            now >= old(self).last_update,
        ensures
            final(self).wf(),
            final(self).snap() == writer_step_snap(old(self).snap(), op, now, every),
            now >= final(self).last_update,
    {
        match op {
            CacheOp::ForceUpdate => {
                self.publish();
                self.last_update = now;
                proof {
                    assert(self.snap() =~= writer_step_snap(
                        old(self).snap(),
                        CacheOp::ForceUpdate,
                        now,
                        every,
                    ));
                }
            },
            _ => {
                let is_tick = now - self.last_update > every;
                self.append(op, now);
                if is_tick {
                    self.append(CacheOp::Periodic, now);
                    self.publish();
                    self.last_update = now;
                }
                proof {
                    assert(self.snap() =~= writer_step_snap(old(self).snap(), op, now, every));
                }
            },
        }
    }
}

/// The cache as its users hold it: the writer state, the operation
/// channel (modelled as a bounded queue), and the publish interval.
pub struct Cache {
    pub state: CacheState,
    pub queue: Vec<CacheOp>,
    pub update_every: u64,
}

/// What offering an operation to the bounded channel leaves in it: the
/// operation is appended when there is room and dropped otherwise.
pub open spec fn enqueue_snap(q: Seq<CacheOp>, op: CacheOp) -> Seq<CacheOp> {
    if q.len() < CHANNEL_CAPACITY {
        q.push(op)
    } else {
        q
    }
}

impl Cache {
    /// The writer state is well-formed.
    pub open spec fn wf(self) -> bool {
        self.state.wf()
    }

    /// The snapshot readers currently see.
    pub open spec fn published(self) -> Map<u128, EntrySnap> {
        self.state.read_map@
    }

    /// A fresh cache that publishes at most every `update_every`
    /// milliseconds.
    pub fn new(update_every: u64) -> (r: Cache)
        ensures
            r.wf(),
            r.published() == Map::<u128, EntrySnap>::empty(),
            r.queue@ == Seq::<CacheOp>::empty(),
            r.update_every == update_every,
            r.state.last_update == 0,
    {
        let r = Cache { state: CacheState::new(), queue: Vec::new(), update_every };
        proof {
            assert(r.queue@ =~= Seq::<CacheOp>::empty());
        }
        r
    }

    /// Offers an operation to the channel; a full channel drops it.
    fn enqueue(&mut self, op: CacheOp)
        ensures
            final(self).state == old(self).state,
            final(self).update_every == old(self).update_every,
            final(self).queue@ == enqueue_snap(old(self).queue@, op),
    {
        if self.queue.len() < CHANNEL_CAPACITY {
            self.queue.push(op);
        }
    }

    /// A non-blocking read of the published snapshot. A hit hands back a
    /// copy of the payload and offers a refresh of the entry's touch
    /// instant to the channel; the refresh is best-effort and becomes
    /// visible only after a later publish.
    pub fn get(&mut self, id: ImageId) -> (r: Option<Vec<u8>>)
        requires
            old(self).wf(),
        ensures
            final(self).wf(),
            match r {
                Some(d) => old(self).published().contains_key(id.0) && d@ == old(
                    self,
                ).published()[id.0].data,
                None => !old(self).published().contains_key(id.0),
            },
            final(self).state == old(self).state,
            final(self).update_every == old(self).update_every,
            final(self).queue@ == if old(self).published().contains_key(id.0) {
                enqueue_snap(old(self).queue@, CacheOp::Refresh(id))
            } else {
                old(self).queue@
            },
    {
        let r = self.state.read_map.get(id.0);
        match r {
            Some(d) => {
                self.enqueue(CacheOp::Refresh(id));
                Some(d)
            },
            None => None,
        }
    }

    /// Fire-and-forget insert: offers the binding to the channel; it
    /// becomes visible to readers only after the next publish.
    pub fn insert(&mut self, id: ImageId, data: Vec<u8>)
        ensures
            final(self).state == old(self).state,
            final(self).update_every == old(self).update_every,
            final(self).queue@ == enqueue_snap(old(self).queue@, CacheOp::Insert(id, data)),
    {
        self.enqueue(CacheOp::Insert(id, data));
    }

    /// Asks the writer to publish at once, outside the periodic schedule.
    pub fn force_update(&mut self)
        ensures
            final(self).state == old(self).state,
            final(self).update_every == old(self).update_every,
            final(self).queue@ == enqueue_snap(old(self).queue@, CacheOp::ForceUpdate),
    {
        self.enqueue(CacheOp::ForceUpdate);
    }

    /// Runs the writer until the channel is drained, absorbing every
    /// queued operation at instant `now`. This is the writer task's work,
    /// taken in one sequential gulp.
    pub fn pump(&mut self, now: u64)
        requires
            old(self).wf(),
            now >= old(self).state.last_update,
        ensures
            final(self).wf(),
            final(self).queue@ == Seq::<CacheOp>::empty(),
            final(self).state.snap() == run_ops(
                old(self).state.snap(),
                old(self).queue@,
                now,
                old(self).update_every,
            ),
            final(self).update_every == old(self).update_every,
            now >= final(self).state.last_update,
    {
        while !self.queue.is_empty()
            invariant
                self.state.wf(),
                now >= self.state.last_update,
                self.update_every == old(self).update_every,
                run_ops(self.state.snap(), self.queue@, now, self.update_every) == run_ops(
                    old(self).state.snap(),
                    old(self).queue@,
                    now,
                    old(self).update_every,
                ),
            decreases self.queue@.len(),
        {
            let ghost pre_queue = self.queue@;
            let op = self.queue.remove(0);
            self.state.writer_step(op, now, self.update_every);
            proof {
                assert(pre_queue.remove(0) =~= pre_queue.drop_first());
            }
        }
        proof {
            assert(self.queue@ =~= Seq::<CacheOp>::empty());
        }
    }
}

/// The publish of a well-formed writer state makes the snapshot readers
/// see exactly the write copy — the two halves of the double buffer
/// converge, and the invariant holds again with an empty log.
pub proof fn lemma_publish_converges(s: CacheSnap)
    requires
        wf_snap(s),
    ensures
        publish_snap(s).read == s.write,
        publish_snap(s).write == publish_snap(s).read,
        wf_snap(publish_snap(s)),
{
}

/// A sweep removes every entry that is out of its time-to-live, and no
/// other.
pub proof fn lemma_sweep_removes_expired(m: Map<u128, EntrySnap>, k: u128, now: u64)
    requires
        m.contains_key(k) ==> expired(m[k].touched, now),
    ensures
        !sweep_spec(m, now).contains_key(k),
{
}

/// An entry out of its time-to-live once the tick's own operation is
/// absorbed is not in the snapshot a periodic publish tick hands to
/// readers.
pub proof fn lemma_tick_expels_expired(
    s: CacheSnap,
    op: CacheOp,
    now: u64,
    every: u64,
    k: u128,
)
    requires
        wf_snap(s),
        !(op is ForceUpdate),
        now - s.last_update > every,
        ({
            let w = apply_one(s.write, op, now);
            w.contains_key(k) ==> expired(w[k].touched, now)
        }),
    ensures
        !writer_step_snap(s, op, now, every).read.contains_key(k),
{
    let s1 = append_snap(s, op, now);
    lemma_apply_ops_push(s.read, s.log, (LoggedOp { op, at: now }));
    lemma_apply_ops_push(s.read, s1.log, (LoggedOp { op: CacheOp::Periodic, at: now }));
    assert(writer_step_snap(s, op, now, every).read == sweep_spec(
        apply_one(s.write, op, now),
        now,
    ));
}

/// Refreshing an entry at instant `t` keeps it, payload unchanged, across
/// any sweep up to `t + TTL_MILLIS`; repeated sub-TTL refreshes therefore
/// keep an entry live indefinitely.
pub proof fn lemma_refresh_keeps_live(m: Map<u128, EntrySnap>, id: ImageId, t: u64, now: u64)
    requires
        m.contains_key(id.0),
        t <= now,
        now <= t + TTL_MILLIS,
    ensures
        ({
            let m2 = apply_one(m, CacheOp::Refresh(id), t);
            sweep_spec(m2, now).contains_key(id.0) && sweep_spec(m2, now)[id.0].data
                == m[id.0].data
        }),
{
}

/// An insert absorbed by the writer and followed by a forced update is in
/// the published snapshot with exactly the inserted bytes, whether or not
/// the insert itself fell on a periodic tick.
pub proof fn lemma_insert_then_publish_visible(
    s: CacheSnap,
    id: ImageId,
    data: Vec<u8>,
    now: u64,
    every: u64,
)
    requires
        wf_snap(s),
    ensures
        ({
            let s1 = writer_step_snap(s, CacheOp::Insert(id, data), now, every);
            let s2 = writer_step_snap(s1, CacheOp::ForceUpdate, now, every);
            s2.read.contains_key(id.0) && s2.read[id.0].data == data@
        }),
{
    let ins = CacheOp::Insert(id, data);
    let s1 = writer_step_snap(s, ins, now, every);
    let a1 = append_snap(s, ins, now);
    lemma_apply_ops_push(s.read, s.log, (LoggedOp { op: ins, at: now }));
    if now - s.last_update > every {
        lemma_apply_ops_push(s.read, a1.log, (LoggedOp { op: CacheOp::Periodic, at: now }));
        assert(s1.read == sweep_spec(apply_one(s.write, ins, now), now));
        assert(!expired(now, now));
        assert(s1.log =~= Seq::<LoggedOp>::empty());
        assert(writer_step_snap(s1, CacheOp::ForceUpdate, now, every).read == s1.read);
    } else {
        assert(s1.log == s.log.push(LoggedOp { op: ins, at: now }));
        assert(apply_ops(s1.read, s1.log) == apply_one(s.write, ins, now));
    }
}

/// The mathematical value of one channel operation: the payload of an
/// insert is read as its byte sequence.
pub enum OpSnap {
    Insert(u128, Seq<u8>),
    Refresh(u128),
    Remove(u128),
    Periodic,
    ForceUpdate,
}

/// The mathematical value of a channel operation.
pub open spec fn op_snap(op: CacheOp) -> OpSnap {
    match op {
        CacheOp::Insert(id, d) => OpSnap::Insert(id.0, d@),
        CacheOp::Refresh(id) => OpSnap::Refresh(id.0),
        CacheOp::Remove(id) => OpSnap::Remove(id.0),
        CacheOp::Periodic => OpSnap::Periodic,
        CacheOp::ForceUpdate => OpSnap::ForceUpdate,
    }
}

/// The mathematical value of the whole channel.
pub open spec fn queue_snap(q: Seq<CacheOp>) -> Seq<OpSnap> {
    q.map_values(|op: CacheOp| op_snap(op))
}

/// [`enqueue_snap`] at the level of operation values.
pub open spec fn enqueue_snap_v(q: Seq<OpSnap>, op: OpSnap) -> Seq<OpSnap> {
    if q.len() < CHANNEL_CAPACITY {
        q.push(op)
    } else {
        q
    }
}

/// Offering one operation commutes with taking the channel's value.
pub proof fn lemma_queue_snap_enqueue(q: Seq<CacheOp>, op: CacheOp)
    ensures
        queue_snap(enqueue_snap(q, op)) == enqueue_snap_v(queue_snap(q), op_snap(op)),
{
    if q.len() < CHANNEL_CAPACITY {
        assert(queue_snap(q.push(op)) =~= queue_snap(q).push(op_snap(op)));
    }
}

/// A refresh never changes which entries a map holds nor their payloads,
/// only a touch instant: preloading identifiers that are already cached
/// is a no-op with respect to contents.
pub proof fn lemma_refresh_preserves_content(m: Map<u128, EntrySnap>, op: CacheOp, t: u64)
    requires
        op_snap(op) is Refresh,
    ensures
        forall|k: u128| apply_one(m, op, t).contains_key(k) == m.contains_key(k),
        forall|k: u128| m.contains_key(k) ==> apply_one(m, op, t)[k].data == m[k].data,
{
}

} // verus!
