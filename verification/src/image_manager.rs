//! A simpler image store over the same cache: whole-buffer inserts, a
//! fixed `jpeg` extension, and a read path that replays either the file
//! or the cached payload without teeing.

use vstd::prelude::*;
use vstd::map::*;
use crate::bytes::copy_range;
use crate::disk::{Address, Disk, FileKey};
use crate::fs_manager::cache::{
    enqueue_snap, enqueue_snap_v, lemma_queue_snap_enqueue, queue_snap, Cache, CacheOp,
    EntrySnap, OpSnap,
};
use crate::fs_manager::PUBLISH_INTERVAL_MILLIS;
use crate::fs_manager::path_chars;
use crate::ident::ImageId;

verus! {

/// The one error of this manager: any filesystem failure, a missing
/// file and a refused overwrite included.
#[derive(Clone, Copy, Debug, PartialEq, Eq, Structural)]
pub enum Error {
    Io,
}

/// An image replayed from memory, pulled chunk by chunk.
pub struct CachedImage {
    pub data: Vec<u8>,
    pub pos: usize,
}

impl CachedImage {
    /// The position never runs past the payload.
    pub open spec fn inv(self) -> bool {
        self.pos <= self.data@.len()
    }

    /// Wraps a payload for replay from its start.
    pub fn new(data: Vec<u8>) -> (r: CachedImage)
        ensures
            r.inv(),
            r.data == data,
            r.pos == 0,
    {
        CachedImage { data, pos: 0 }
    }

    /// One pull: up to `max` bytes from the current position, in order,
    /// with no gap.
    pub fn read_chunk(&mut self, max: usize) -> (r: Vec<u8>)
        requires
            old(self).inv(),
        ensures
            final(self).inv(),
            r@.len() == if max as int <= old(self).data@.len() - old(self).pos {
                max as int
            } else {
                old(self).data@.len() - old(self).pos
            },
            r@ == old(self).data@.subrange(old(self).pos as int, old(self).pos + r@.len()),
            final(self).pos == old(self).pos + r@.len(),
            final(self).data == old(self).data,
    {
        let remaining = self.data.len() - self.pos;
        let amt = if max < remaining {
            max
        } else {
            remaining
        };
        let chunk = copy_range(&self.data, self.pos, self.pos + amt);
        self.pos = self.pos + amt;
        chunk
    }

    /// Whether every byte has been produced.
    pub fn exhausted(&self) -> (r: bool)
        requires
            self.inv(),
        ensures
            r == (self.pos == self.data@.len()),
    {
        self.pos == self.data.len()
    }
}

/// What a read hands back: the file's bytes for a reader to stream, or
/// a cached image.
pub enum ImageData {
    File(Vec<u8>),
    Cached(CachedImage),
}

impl ImageData {
    /// The bytes the caller will stream, whichever side they came from.
    pub open spec fn bytes(self) -> Seq<u8> {
        match self {
            ImageData::File(b) => b@,
            ImageData::Cached(c) => c.data@,
        }
    }
}

/// The image store: a root directory and a cache.
pub struct ImageManager {
    pub path: String,
    pub cache: Cache,
}

/// What a preload offers to the channel, walking the identifiers in
/// order: a refresh for one already cached, nothing for one whose file
/// exists, and a stop (second component false) at the first identifier
/// with neither — the preload surfaces that as its error.
pub open spec fn img_preload(
    q: Seq<OpSnap>,
    published: Map<u128, EntrySnap>,
    dmap: Map<Address, Seq<u8>>,
    entries: Seq<ImageId>,
) -> (Seq<OpSnap>, bool)
    decreases entries.len(),
{
    if entries.len() == 0 {
        (q, true)
    } else if published.contains_key(entries[0].0) {
        img_preload(
            enqueue_snap_v(q, OpSnap::Refresh(entries[0].0)),
            published,
            dmap,
            entries.drop_first(),
        )
    } else if dmap.contains_key((entries[0].0, "jpeg"@, false)) {
        img_preload(q, published, dmap, entries.drop_first())
    } else {
        (q, false)
    }
}

impl ImageManager {
    /// The cache is well-formed.
    pub open spec fn wf(self) -> bool {
        self.cache.wf()
    }

    /// A store over the given root; its cache publishes at most once
    /// per [`PUBLISH_INTERVAL_MILLIS`].
    pub fn new(path: String) -> (r: ImageManager)
        ensures
            r.wf(),
            r.path == path,
            r.cache.published() == Map::<u128, EntrySnap>::empty(),
            r.cache.queue@ == Seq::<CacheOp>::empty(),
    {
        ImageManager { path, cache: Cache::new(PUBLISH_INTERVAL_MILLIS) }
    }

    /// The on-disk path of an image: `path/a/b/<id>.jpeg`, with the two
    /// shard directories named by identifier bytes 10 and 11.
    pub fn uuid_to_path(&self, uuid: ImageId) -> (r: String)
        ensures
            r@ == path_chars(self.path@, uuid.0, "jpeg"@),
    {
        let mut s = String::new();
        s.append(self.path.as_str());
        crate::fs_manager::push_slash(&mut s);
        let sa = crate::ident::byte_hex_short_str(uuid.shard_a());
        s.append(sa.as_str());
        crate::fs_manager::push_slash(&mut s);
        let sb = crate::ident::byte_hex_short_str(uuid.shard_b());
        s.append(sb.as_str());
        crate::fs_manager::push_slash(&mut s);
        let u = uuid.to_hyphenated();
        s.append(u.as_str());
        crate::fs_manager::push_dot(&mut s);
        s.append("jpeg");
        proof {
            assert(s@ =~= path_chars(self.path@, uuid.0, "jpeg"@));
        }
        s
    }

    /// A read: a cache hit replays the published payload (offering a
    /// refresh to the channel); otherwise the file's bytes are handed
    /// back for streaming; a missing file is an error.
    pub fn get(&mut self, disk: &Disk, uuid: ImageId) -> (r: Result<ImageData, Error>)
        requires
            old(self).wf(),
            disk.wf(),
        ensures
            final(self).wf(),
            final(self).cache.state == old(self).cache.state,
            final(self).cache.update_every == old(self).cache.update_every,
            final(self).path == old(self).path,
            old(self).cache.published().contains_key(uuid.0) ==> (r matches Ok(d)
                && d is Cached && d.bytes() == old(self).cache.published()[uuid.0].data
                && final(self).cache.queue@ == enqueue_snap(
                old(self).cache.queue@,
                CacheOp::Refresh(uuid),
            )),
            (!old(self).cache.published().contains_key(uuid.0) && disk@.contains_key(
                (uuid.0, "jpeg"@, false),
            )) ==> (r matches Ok(d) && d is File && d.bytes() == disk@[
                (uuid.0, "jpeg"@, false)
            ] && final(self).cache.queue@ == old(self).cache.queue@),
            (!old(self).cache.published().contains_key(uuid.0) && !disk@.contains_key(
                (uuid.0, "jpeg"@, false),
            )) ==> (r matches Err(e) && e == Error::Io && final(self).cache.queue@ == old(
                self,
            ).cache.queue@),
    {
        match self.cache.get(uuid) {
            Some(cached) => Ok(ImageData::Cached(CachedImage::new(cached))),
            None => {
                let key = FileKey { id: uuid.0, ext: "jpeg".to_owned(), temp: false };
                match disk.read(&key) {
                    None => Err(Error::Io),
                    Some(bytes) => Ok(ImageData::File(bytes)),
                }
            },
        }
    }

    /// An insert: creates the file at the derived path with exclusive
    /// create — an existing file refuses the overwrite — writes the
    /// whole buffer, and offers the payload to the cache.
    pub fn insert(&mut self, disk: &mut Disk, uuid: ImageId, data: Vec<u8>) -> (r: Result<
        (),
        Error,
    >)
        requires
            old(self).wf(),
            old(disk).wf(),
        ensures
            final(self).wf(),
            final(disk).wf(),
            final(self).cache.state == old(self).cache.state,
            final(self).cache.update_every == old(self).cache.update_every,
            final(self).path == old(self).path,
            old(disk)@.contains_key((uuid.0, "jpeg"@, false)) ==> (r matches Err(e) && e
                == Error::Io && final(disk)@ == old(disk)@ && final(self).cache.queue@
                == old(self).cache.queue@),
            !old(disk)@.contains_key((uuid.0, "jpeg"@, false)) ==> (r is Ok && final(disk)@
                == old(disk)@.insert((uuid.0, "jpeg"@, false), data@)
                && final(self).cache.queue@ == enqueue_snap(
                old(self).cache.queue@,
                CacheOp::Insert(uuid, data),
            )),
    {
        let key = FileKey { id: uuid.0, ext: "jpeg".to_owned(), temp: false };
        if !disk.try_create(key) {
            return Err(Error::Io);
        }
        let key2 = FileKey { id: uuid.0, ext: "jpeg".to_owned(), temp: false };
        disk.append(&key2, &data);
        proof {
            assert_maps_equal!(disk@,
                old(disk)@.insert((uuid.0, "jpeg"@, false), data@));
        }
        self.cache.insert(uuid, data);
        Ok(())
    }

    /// A preload: walks the identifiers, reading each through [`Self::get`];
    /// one already cached is refreshed, one on disk is read and dropped,
    /// and the first with neither stops the walk with its error. A
    /// forced publish follows a complete walk.
    pub fn load_cache(&mut self, disk: &Disk, uuids: &Vec<ImageId>) -> (r: Result<(), Error>)
        requires
            old(self).wf(),
            disk.wf(),
        ensures
            final(self).wf(),
            final(self).cache.state == old(self).cache.state,
            final(self).cache.update_every == old(self).cache.update_every,
            final(self).path == old(self).path,
            ({
                let folded = img_preload(
                    queue_snap(old(self).cache.queue@),
                    old(self).cache.published(),
                    disk@,
                    uuids@,
                );
                (r is Ok <==> folded.1) && (r matches Err(e) ==> e == Error::Io)
                    && queue_snap(final(self).cache.queue@) == if folded.1 {
                    enqueue_snap_v(folded.0, OpSnap::ForceUpdate)
                } else {
                    folded.0
                }
            }),
    {
        let ghost published = old(self).cache.published();
        proof {
            assert(uuids@.subrange(0, uuids@.len() as int) =~= uuids@);
        }
        let mut i: usize = 0;
        while i < uuids.len()
            invariant
                self.wf(),
                disk.wf(),
                self.cache.state == old(self).cache.state,
                self.cache.update_every == old(self).cache.update_every,
                self.path == old(self).path,
                published == old(self).cache.published(),
                i <= uuids@.len(),
                img_preload(
                    queue_snap(self.cache.queue@),
                    published,
                    disk@,
                    uuids@.subrange(i as int, uuids@.len() as int),
                ) == img_preload(
                    queue_snap(old(self).cache.queue@),
                    published,
                    disk@,
                    uuids@,
                ),
            decreases uuids@.len() - i,
        {
            let ghost rest = uuids@.subrange(i as int, uuids@.len() as int);
            let ghost q0 = self.cache.queue@;
            let uuid = uuids[i];
            proof {
                assert(rest[0] == uuids@[i as int]);
                assert(rest.drop_first() =~= uuids@.subrange(i + 1, uuids@.len() as int));
            }
            match self.get(disk, uuid) {
                Ok(_) => {
                    proof {
                        if published.contains_key(uuid.0) {
                            lemma_queue_snap_enqueue(q0, CacheOp::Refresh(uuid));
                        }
                    }
                },
                Err(e) => {
                    return Err(e);
                },
            }
            i += 1;
        }
        proof {
            assert(uuids@.subrange(uuids@.len() as int, uuids@.len() as int)
                =~= Seq::<ImageId>::empty());
        }
        let ghost qf = self.cache.queue@;
        self.cache.force_update();
        proof {
            lemma_queue_snap_enqueue(qf, CacheOp::ForceUpdate);
        }
        Ok(())
    }
}

} // verus!
