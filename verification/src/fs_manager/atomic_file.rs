//! The atomic write protocol: write a temporary sibling, then rename.
//!
//! A fresh insert opens `<final>.temp` with exclusive create, streams
//! chunks into it, and only on a clean end of the stream renames the
//! temporary file onto the final path. The final path is never touched
//! before the rename, so a reader either finds nothing or finds the
//! complete contents — never a prefix. An aborted write removes the
//! temporary file and leaves the final path exactly as it was.

use vstd::prelude::*;
use crate::bytes::extend_bytes;
use crate::disk::{Address, Disk, FileKey};
use crate::error::Error;

verus! {

/// An in-flight atomic write of the file at `key` (the final address;
/// the temporary sibling shares its identifier and extension).
pub struct AtomicFile {
    pub key: FileKey,
    pub finalized: bool,
}

impl AtomicFile {
    /// The address of the final path.
    pub open spec fn fin_addr(self) -> Address {
        (self.key.id, self.key.ext@, false)
    }

    /// The address of the temporary sibling.
    pub open spec fn tmp_addr(self) -> Address {
        (self.key.id, self.key.ext@, true)
    }

    /// The protocol invariant: while the write is in flight, the store
    /// holds the temporary file (with the bytes written so far) and
    /// nothing at the final path. A reader therefore cannot observe a
    /// partial write.
    pub open spec fn inv(self, disk: Disk) -> bool {
        !self.key.temp && (!self.finalized ==> disk@.contains_key(self.tmp_addr())
            && !disk@.contains_key(self.fin_addr()))
    }

    /// The bytes written so far into the temporary file.
    pub open spec fn written(self, disk: Disk) -> Seq<u8> {
        disk@[self.tmp_addr()]
    }

    /// Opens a fresh atomic write of the file at `key`: creates the
    /// temporary sibling with exclusive create. Fails with
    /// `AlreadyExists`, changing nothing, when either the temporary
    /// sibling (a crashed or concurrent writer) or the final path (the
    /// object itself) is already present.
    pub fn new(disk: &mut Disk, key: FileKey) -> (r: Result<AtomicFile, Error>)
        requires
            old(disk).wf(),
            !key.temp,
        ensures
            final(disk).wf(),
            match r {
                Ok(af) => !old(disk)@.contains_key((key.id, key.ext@, true))
                    && !old(disk)@.contains_key((key.id, key.ext@, false)) && af.key == key
                    && !af.finalized && af.inv(*final(disk)) && final(disk)@ == old(
                    disk,
                )@.insert((key.id, key.ext@, true), Seq::<u8>::empty()),
                Err(e) => e == Error::AlreadyExists && final(disk)@ == old(disk)@ && (old(
                    disk,
                )@.contains_key((key.id, key.ext@, true)) || old(disk)@.contains_key(
                    (key.id, key.ext@, false),
                )),
            },
    {
        if disk.contains(&key) {
            return Err(Error::AlreadyExists);
        }
        let tmp = FileKey { id: key.id, ext: key.ext.clone(), temp: true };
        if !disk.try_create(tmp) {
            return Err(Error::AlreadyExists);
        }
        Ok(AtomicFile { key, finalized: false })
    }

    /// Streams one chunk into the temporary file. The final path stays
    /// untouched.
    pub fn write_chunk(&self, disk: &mut Disk, chunk: &Vec<u8>)
        requires
            old(disk).wf(),
            self.inv(*old(disk)),
            !self.finalized,
        ensures
            final(disk).wf(),
            self.inv(*final(disk)),
            final(disk)@ == old(disk)@.insert(
                self.tmp_addr(),
                self.written(*old(disk)) + chunk@,
            ),
    {
        let tmp = FileKey { id: self.key.id, ext: self.key.ext.clone(), temp: true };
        disk.append(&tmp, chunk);
    }

    /// Finalizes the write: atomically renames the temporary file onto
    /// the final path, which from this point on holds exactly the bytes
    /// that were streamed in.
    pub fn finalize(&mut self, disk: &mut Disk) -> (r: Result<(), Error>)
        requires
            old(disk).wf(),
            old(self).inv(*old(disk)),
            !old(self).finalized,
        ensures
            final(disk).wf(),
            final(self).finalized,
            final(self).key == old(self).key,
            r is Ok,
            final(disk)@ == old(disk)@.remove(old(self).tmp_addr()).insert(
                old(self).fin_addr(),
                old(self).written(*old(disk)),
            ),
    {
        let tmp = FileKey { id: self.key.id, ext: self.key.ext.clone(), temp: true };
        let fin = FileKey { id: self.key.id, ext: self.key.ext.clone(), temp: false };
        disk.rename(&tmp, fin);
        self.finalized = true;
        Ok(())
    }

    /// Abandons the write: removes the temporary file (best effort in
    /// the real store, certain in the model) and leaves the final path
    /// exactly as it was. A finalized write is left alone.
    pub fn abort(self, disk: &mut Disk)
        requires
            old(disk).wf(),
        ensures
            final(disk).wf(),
            final(disk)@ == if self.finalized {
                old(disk)@
            } else {
                old(disk)@.remove(self.tmp_addr())
            },
    {
        if !self.finalized {
            let tmp = FileKey { id: self.key.id, ext: self.key.ext.clone(), temp: true };
            disk.remove(&tmp);
        }
    }
}

/// Atomic visibility: while a write is in flight, nothing is present at
/// its final path; the final contents appear only at the rename, whole.
/// A concurrent read of the final path thus finds either nothing or the
/// complete byte sequence, never a prefix.
pub proof fn lemma_atomic_visibility(af: AtomicFile, disk: Disk)
    requires
        af.inv(disk),
        !af.finalized,
    ensures
        !disk@.contains_key(af.fin_addr()),
{
}

/// Exclusive create: while one write of an address is in flight (its
/// temporary file exists), a second `AtomicFile::new` of the same address
/// cannot succeed — of two concurrent inserts of one object, exactly one
/// wins.
pub proof fn lemma_exclusive_create(af: AtomicFile, disk: Disk)
    requires
        af.inv(disk),
        !af.finalized,
    ensures
        disk@.contains_key((af.key.id, af.key.ext@, true)),
{
}

} // verus!
