//! A model of the object store on disk.
//!
//! The store maps an address — identifier, extension, and whether the
//! file is the temporary sibling of the final path — to a complete byte
//! sequence. The asynchronous shell performs the real filesystem calls;
//! the write protocol of [`crate::fs_manager::atomic_file`] is proved
//! against this model, whose mathematical value is a `Map` from address
//! to contents.

use vstd::prelude::*;
use vstd::map::*;
use crate::bytes::clone_bytes;

verus! {

/// The address of one stored file. `temp` distinguishes the temporary
/// sibling written by an in-flight insert from the final path readers
/// observe.
pub struct FileKey {
    pub id: u128,
    pub ext: String,
    pub temp: bool,
}

/// The mathematical address: identifier, extension characters, and the
/// temporary flag.
pub type Address = (u128, Seq<char>, bool);

impl FileKey {
    /// The mathematical address of this key.
    pub open spec fn addr(self) -> Address {
        (self.id, self.ext@, self.temp)
    }

    /// Whether two keys name the same file.
    pub fn same_addr(&self, other: &FileKey) -> (r: bool)
        ensures
            r == (self.addr() == other.addr()),
    {
        self.id == other.id && self.ext == other.ext && self.temp == other.temp
    }

    /// A copy of this key.
    pub fn duplicate(&self) -> (r: FileKey)
        ensures
            r.addr() == self.addr(),
            r == *self,
    {
        FileKey { id: self.id, ext: self.ext.clone(), temp: self.temp }
    }
}

/// One stored file: its address and its complete contents.
pub struct DiskSlot {
    pub key: FileKey,
    pub data: Vec<u8>,
}

/// The map a sequence of slots denotes.
pub open spec fn disk_map_of(s: Seq<DiskSlot>) -> Map<Address, Seq<u8>>
    decreases s.len(),
{
    if s.len() == 0 {
        Map::empty()
    } else {
        disk_map_of(s.drop_last()).insert(s.last().key.addr(), s.last().data@)
    }
}

/// No two slots share an address.
pub open spec fn unique_addrs(s: Seq<DiskSlot>) -> bool {
    forall|i: int, j: int| 0 <= i < j < s.len() ==> s[i].key.addr() != s[j].key.addr()
}

proof fn lemma_disk_map_of_push(s: Seq<DiskSlot>, x: DiskSlot)
    ensures
        disk_map_of(s.push(x)) == disk_map_of(s).insert(x.key.addr(), x.data@),
{
    assert(s.push(x).drop_last() =~= s);
    assert(s.push(x).last() == x);
}

proof fn lemma_disk_map_of_absent(s: Seq<DiskSlot>, a: Address)
    requires
        forall|i: int| 0 <= i < s.len() ==> s[i].key.addr() != a,
    ensures
        !disk_map_of(s).contains_key(a),
    decreases s.len(),
{
    if s.len() > 0 {
        assert(forall|i: int|
            0 <= i < s.drop_last().len() ==> s.drop_last()[i].key.addr() != a);
        lemma_disk_map_of_absent(s.drop_last(), a);
    }
}

proof fn lemma_disk_map_of_index(s: Seq<DiskSlot>, i: int)
    requires
        unique_addrs(s),
        0 <= i < s.len(),
    ensures
        disk_map_of(s).contains_key(s[i].key.addr()),
        disk_map_of(s)[s[i].key.addr()] == s[i].data@,
    decreases s.len(),
{
    if i == s.len() - 1 {
    } else {
        assert(unique_addrs(s.drop_last()));
        lemma_disk_map_of_index(s.drop_last(), i);
        assert(s.last().key.addr() != s[i].key.addr());
    }
}

proof fn lemma_disk_map_of_remove_at(s: Seq<DiskSlot>, i: int)
    requires
        unique_addrs(s),
        0 <= i < s.len(),
    ensures
        disk_map_of(s.remove(i)) == disk_map_of(s).remove(s[i].key.addr()),
    decreases s.len(),
{
    let a = s[i].key.addr();
    if i == s.len() - 1 {
        assert(s.remove(i) =~= s.drop_last());
        assert(forall|j: int|
            0 <= j < s.drop_last().len() ==> s.drop_last()[j].key.addr() != a);
        lemma_disk_map_of_absent(s.drop_last(), a);
        assert_maps_equal!(disk_map_of(s.drop_last()).insert(a, s[i].data@).remove(a),
            disk_map_of(s.drop_last()));
    } else {
        assert(unique_addrs(s.drop_last()));
        lemma_disk_map_of_remove_at(s.drop_last(), i);
        assert(s.remove(i).drop_last() =~= s.drop_last().remove(i));
        assert(s.remove(i).last() == s.last());
        assert(s.last().key.addr() != a);
        assert_maps_equal!(
            disk_map_of(s.drop_last()).remove(a)
                .insert(s.last().key.addr(), s.last().data@),
            disk_map_of(s.drop_last())
                .insert(s.last().key.addr(), s.last().data@).remove(a));
    }
}

proof fn lemma_unique_addrs_remove(s: Seq<DiskSlot>, i: int)
    requires
        unique_addrs(s),
        0 <= i < s.len(),
    ensures
        unique_addrs(s.remove(i)),
        forall|j: int| 0 <= j < s.remove(i).len() ==> s.remove(i)[j].key.addr() != s[i].key.addr(),
{
    assert forall|a: int, b: int| 0 <= a < b < s.remove(i).len() implies s.remove(i)[a].key.addr()
        != s.remove(i)[b].key.addr() by {
        let a2 = if a < i { a } else { a + 1 };
        let b2 = if b < i { b } else { b + 1 };
        assert(s.remove(i)[a] == s[a2]);
        assert(s.remove(i)[b] == s[b2]);
    }
    assert forall|j: int| 0 <= j < s.remove(i).len() implies s.remove(i)[j].key.addr()
        != s[i].key.addr() by {
        if j < i {
            assert(s.remove(i)[j] == s[j]);
        } else {
            assert(s.remove(i)[j] == s[j + 1]);
        }
    }
}

/// The store: a set of complete files, one per address. For every
/// address, either the whole contents are present or nothing is — the
/// write protocol never makes a half-written final file visible.
pub struct Disk {
    pub slots: Vec<DiskSlot>,
}

impl View for Disk {
    type V = Map<Address, Seq<u8>>;

    open spec fn view(&self) -> Map<Address, Seq<u8>> {
        disk_map_of(self.slots@)
    }
}

impl Disk {
    /// Addresses are unique, so the vector and its map agree.
    pub open spec fn wf(self) -> bool {
        unique_addrs(self.slots@)
    }

    /// An empty store.
    pub fn new() -> (r: Disk)
        ensures
            r.wf(),
            r@ == Map::<Address, Seq<u8>>::empty(),
    {
        Disk { slots: Vec::new() }
    }

    /// The index of the slot at `key`, if any.
    fn find(&self, key: &FileKey) -> (r: Option<usize>)
        ensures
            match r {
                Some(i) => i < self.slots@.len() && self.slots@[i as int].key.addr()
                    == key.addr(),
                None => forall|j: int|
                    0 <= j < self.slots@.len() ==> self.slots@[j].key.addr() != key.addr(),
            },
    {
        let mut i: usize = 0;
        while i < self.slots.len()
            invariant
                i <= self.slots@.len(),
                forall|j: int| 0 <= j < i ==> self.slots@[j].key.addr() != key.addr(),
            decreases self.slots@.len() - i,
        {
            if self.slots[i].key.same_addr(key) {
                return Some(i);
            }
            i += 1;
        }
        None
    }

    /// Whether a file is present at `key`.
    pub fn contains(&self, key: &FileKey) -> (r: bool)
        requires
            self.wf(),
        ensures
            r == self@.contains_key(key.addr()),
    {
        match self.find(key) {
            Some(i) => {
                proof {
                    lemma_disk_map_of_index(self.slots@, i as int);
                }
                true
            },
            None => {
                proof {
                    lemma_disk_map_of_absent(self.slots@, key.addr());
                }
                false
            },
        }
    }

    /// The complete contents at `key`, copied out, or `None`.
    pub fn read(&self, key: &FileKey) -> (r: Option<Vec<u8>>)
        requires
            self.wf(),
        ensures
            match r {
                Some(d) => self@.contains_key(key.addr()) && d@ == self@[key.addr()],
                None => !self@.contains_key(key.addr()),
            },
    {
        match self.find(key) {
            Some(i) => {
                proof {
                    lemma_disk_map_of_index(self.slots@, i as int);
                }
                Some(clone_bytes(&self.slots[i].data))
            },
            None => {
                proof {
                    lemma_disk_map_of_absent(self.slots@, key.addr());
                }
                None
            },
        }
    }

    /// Creates an empty file at `key` exclusively: fails, changing
    /// nothing, when a file is already there.
    pub fn try_create(&mut self, key: FileKey) -> (r: bool)
        requires
            old(self).wf(),
        ensures
            final(self).wf(),
            r == !old(self)@.contains_key(key.addr()),
            r ==> final(self)@ == old(self)@.insert(key.addr(), Seq::<u8>::empty()),
            !r ==> final(self)@ == old(self)@,
    {
        match self.find(&key) {
            Some(i) => {
                proof {
                    lemma_disk_map_of_index(self.slots@, i as int);
                }
                false
            },
            None => {
                let slot = DiskSlot { key, data: Vec::new() };
                proof {
                    lemma_disk_map_of_absent(self.slots@, slot.key.addr());
                    lemma_disk_map_of_push(self.slots@, slot);
                }
                self.slots.push(slot);
                true
            },
        }
    }

    /// Removes the file at `key`, if any.
    pub fn remove(&mut self, key: &FileKey)
        requires
            old(self).wf(),
        ensures
            final(self).wf(),
            final(self)@ == old(self)@.remove(key.addr()),
    {
        match self.find(key) {
            Some(i) => {
                proof {
                    lemma_disk_map_of_remove_at(self.slots@, i as int);
                    lemma_unique_addrs_remove(self.slots@, i as int);
                }
                self.slots.remove(i);
            },
            None => {
                proof {
                    lemma_disk_map_of_absent(self.slots@, key.addr());
                    assert_maps_equal!(old(self)@.remove(key.addr()), old(self)@);
                }
            },
        }
    }

    /// Appends `chunk` to the file at `key`.
    pub fn append(&mut self, key: &FileKey, chunk: &Vec<u8>)
        requires
            old(self).wf(),
            old(self)@.contains_key(key.addr()),
        ensures
            final(self).wf(),
            final(self)@ == old(self)@.insert(
                key.addr(),
                old(self)@[key.addr()] + chunk@,
            ),
    {
        let i = match self.find(key) {
            Some(i) => i,
            None => {
                proof {
                    lemma_disk_map_of_absent(self.slots@, key.addr());
                }
                unreached()
            },
        };
        proof {
            lemma_disk_map_of_index(self.slots@, i as int);
            lemma_disk_map_of_remove_at(self.slots@, i as int);
            lemma_unique_addrs_remove(self.slots@, i as int);
        }
        let mut slot = self.slots.remove(i);
        crate::bytes::extend_bytes(&mut slot.data, chunk);
        proof {
            lemma_disk_map_of_push(self.slots@, slot);
        }
        self.slots.push(slot);
        proof {
            assert_maps_equal!(self@,
                old(self)@.insert(key.addr(), old(self)@[key.addr()] + chunk@));
        }
    }

    /// Atomically renames the file at `from` to the address `to`: after
    /// it, `to` holds exactly the bytes `from` held, and `from` is gone.
    pub fn rename(&mut self, from: &FileKey, to: FileKey)
        requires
            old(self).wf(),
            old(self)@.contains_key(from.addr()),
            from.addr() != to.addr(),
        ensures
            final(self).wf(),
            final(self)@ == old(self)@.remove(from.addr()).insert(
                to.addr(),
                old(self)@[from.addr()],
            ),
    {
        let i = match self.find(from) {
            Some(i) => i,
            None => {
                proof {
                    lemma_disk_map_of_absent(self.slots@, from.addr());
                }
                unreached()
            },
        };
        proof {
            lemma_disk_map_of_index(self.slots@, i as int);
            lemma_disk_map_of_remove_at(self.slots@, i as int);
            lemma_unique_addrs_remove(self.slots@, i as int);
        }
        let slot = self.slots.remove(i);
        let ghost mid = self@;
        self.remove(&to);
        let moved = DiskSlot { key: to, data: slot.data };
        proof {
            lemma_disk_map_of_push(self.slots@, moved);
            assert forall|j: int| 0 <= j < self.slots@.len() implies self.slots@[j].key.addr()
                != moved.key.addr() by {
                lemma_disk_map_of_index(self.slots@, j);
            }
        }
        self.slots.push(moved);
        proof {
            assert_maps_equal!(self@,
                old(self)@.remove(from.addr()).insert(to.addr(), old(self)@[from.addr()]));
        }
    }
}

} // verus!
