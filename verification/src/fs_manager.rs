//! The store core: the cache protocol and the atomic on-disk write
//! protocol, with the streaming read path that ties them together.

pub mod atomic_file;
pub mod cache;

use vstd::prelude::*;
use vstd::map::*;
use crate::bytes::{copy_range, extend_bytes};
use crate::disk::{Address, Disk, FileKey};
use crate::error::Error;
use crate::ident::{byte_hex_short, byte_hex_short_str, id_byte, uuid_chars, ImageId};
use crate::fs_manager::atomic_file::AtomicFile;
use crate::fs_manager::cache::{
    enqueue_snap, enqueue_snap_v, queue_snap, Cache, CacheOp, EntrySnap, OpSnap,
    CHANNEL_CAPACITY,
};

verus! {

/// Minimum interval between automatic publishes of the cache, in
/// milliseconds.
pub const PUBLISH_INTERVAL_MILLIS: u64 = 1000;

/// The characters of the path of an object: the storage root, the two
/// shard directories named by two designated identifier bytes, and the
/// hyphenated identifier with its extension.
pub open spec fn path_chars(dir: Seq<char>, u: u128, ext: Seq<char>) -> Seq<char> {
    dir + seq!['/'] + byte_hex_short(id_byte(u, 10)) + seq!['/'] + byte_hex_short(
        id_byte(u, 11),
    ) + seq!['/'] + uuid_chars(u) + seq!['.'] + ext
}

/// Appends a path separator to `s`.
pub fn push_slash(s: &mut String)
    ensures
        final(s)@ == old(s)@ + seq!['/'],
{
    proof {
        reveal_strlit("/");
        assert("/"@ =~= seq!['/']);
    }
    s.append("/");
}

/// Appends the extension separator to `s`.
pub fn push_dot(s: &mut String)
    ensures
        final(s)@ == old(s)@ + seq!['.'],
{
    proof {
        reveal_strlit(".");
        assert("."@ =~= seq!['.']);
    }
    s.append(".");
}

/// One item of an incoming byte stream: a chunk of the body, or the
/// upstream failing before its end.
pub enum StreamItem {
    Data(Vec<u8>),
    Failed,
}

/// Whether the stream reached its end cleanly.
pub open spec fn stream_clean(items: Seq<StreamItem>) -> bool {
    forall|i: int| 0 <= i < items.len() ==> items[i] is Data
}

/// The bytes of a stream, in order; a failure contributes nothing.
pub open spec fn stream_concat(items: Seq<StreamItem>) -> Seq<u8>
    decreases items.len(),
{
    if items.len() == 0 {
        Seq::empty()
    } else {
        stream_concat(items.drop_last()) + match items.last() {
            StreamItem::Data(b) => b@,
            StreamItem::Failed => Seq::<u8>::empty(),
        }
    }
}

/// A byte stream handed to a reader. It replays either a cached payload
/// or the contents of a file; a file-backed stream below the size gate
/// *tees*: every byte it produces is also appended to a pending buffer,
/// so that a fully consumed stream can hand the whole object to the
/// cache.
pub struct Data {
    /// The source bytes being replayed.
    pub file: Vec<u8>,
    /// Whether the source was the cache (a cache-fed stream never tees).
    pub from_cache: bool,
    /// Whether teeing is enabled; decided once, at creation, by the size
    /// gate, and never revisited as bytes flow.
    pub tee: bool,
    /// The pending buffer of a teeing stream: the bytes produced so far,
    /// from position zero with no gap.
    pub buf: Vec<u8>,
    /// The identifier under which a teeing stream offers its buffer.
    pub uuid: ImageId,
    /// How many bytes have been produced.
    pub pos: usize,
}

impl Data {
    /// The source bytes this stream replays.
    pub open spec fn bytes(self) -> Seq<u8> {
        self.file@
    }

    /// A teeing stream's pending buffer holds exactly what was produced:
    /// the source's prefix up to the current position.
    pub open spec fn inv(self) -> bool {
        self.pos <= self.file@.len() && (self.tee ==> self.buf@ == self.file@.subrange(
            0,
            self.pos as int,
        )) && (self.from_cache ==> !self.tee)
    }

    /// A stream that replays a cached payload. No I/O and no teeing.
    pub fn from_cached(data: Vec<u8>) -> (r: Data)
        ensures
            r.inv(),
            r.bytes() == data@,
            r.pos == 0,
            r.from_cache,
            !r.tee,
    {
        Data { file: data, from_cache: true, tee: false, buf: Vec::new(), uuid: ImageId(0), pos: 0 }
    }

    /// One pull: up to `max` bytes from the current position, in order,
    /// with no gap. A teeing stream appends the chunk to its pending
    /// buffer.
    pub fn pull(&mut self, max: usize) -> (r: Vec<u8>)
        requires
            old(self).inv(),
        ensures
            final(self).inv(),
            r@.len() == if max as int <= old(self).bytes().len() - old(self).pos {
                max as int
            } else {
                old(self).bytes().len() - old(self).pos
            },
            r@ == old(self).bytes().subrange(
                old(self).pos as int,
                old(self).pos + r@.len(),
            ),
            final(self).pos == old(self).pos + r@.len(),
            final(self).file == old(self).file,
            final(self).tee == old(self).tee,
            final(self).from_cache == old(self).from_cache,
            final(self).uuid == old(self).uuid,
    {
        let remaining = self.file.len() - self.pos;
        let amt = if max < remaining {
            max
        } else {
            remaining
        };
        let chunk = copy_range(&self.file, self.pos, self.pos + amt);
        if self.tee {
            extend_bytes(&mut self.buf, &chunk);
            proof {
                assert(self.buf@ =~= self.file@.subrange(0, self.pos + amt));
            }
        }
        self.pos = self.pos + amt;
        chunk
    }

    /// Whether every byte of the source has been produced.
    pub fn exhausted(&self) -> (r: bool)
        requires
            self.inv(),
        ensures
            r == (self.pos == self.bytes().len()),
    {
        self.pos == self.file.len()
    }

    /// The end of the stream's life, at end-of-file or on abandonment:
    /// only when teeing was enabled and every byte from position zero
    /// was produced is the pending buffer — then exactly the whole
    /// source — offered to the cache. A stream dropped early offers
    /// nothing, so a partial read never poisons the cache.
    pub fn finish(self, cache: &mut Cache)
        requires
            self.inv(),
        ensures
            final(cache).state == old(cache).state,
            final(cache).update_every == old(cache).update_every,
            (self.tee && self.pos == self.bytes().len()) ==> self.buf@ == self.bytes()
                && final(cache).queue@ == enqueue_snap(
                old(cache).queue@,
                CacheOp::Insert(self.uuid, self.buf),
            ),
            !(self.tee && self.pos == self.bytes().len()) ==> final(cache).queue@ == old(
                cache,
            ).queue@,
    {
        proof {
            if self.tee && self.pos == self.file@.len() {
                assert(self.buf@ =~= self.file@);
            }
        }
        if self.tee && self.pos == self.file.len() {
            cache.insert(self.uuid, self.buf);
        }
    }
}

/// The store core: a root directory, a cache, and the two size limits
/// from the configuration. `max_cache_size` is an aggregate ceiling
/// reserved for a future eviction policy; it is carried but not yet
/// enforced anywhere.
pub struct FsManager {
    pub dir: String,
    pub cache: Cache,
    pub max_cache_size: u64,
    pub max_cache_entry_size: u64,
}

impl FsManager {
    /// The cache is well-formed.
    pub open spec fn wf(self) -> bool {
        self.cache.wf()
    }

    /// A store over the given root with the given limits; its cache
    /// publishes at most once per [`PUBLISH_INTERVAL_MILLIS`].
    pub fn new(dir: String, max_cache_size: u64, max_cache_entry_size: u64) -> (r: FsManager)
        ensures
            r.wf(),
            r.dir == dir,
            r.max_cache_size == max_cache_size,
            r.max_cache_entry_size == max_cache_entry_size,
            r.cache.published() == Map::<u128, EntrySnap>::empty(),
            r.cache.queue@ == Seq::<CacheOp>::empty(),
            r.cache.state.last_update == 0,
            r.cache.update_every == PUBLISH_INTERVAL_MILLIS,
    {
        FsManager {
            dir,
            cache: Cache::new(PUBLISH_INTERVAL_MILLIS),
            max_cache_size,
            max_cache_entry_size,
        }
    }

    /// The on-disk path of an object: `dir/a/b/<id>.<ext>`, where `a`
    /// and `b` are the unpadded lowercase hex of identifier bytes 10 and
    /// 11, and `<id>` is the hyphenated identifier.
    pub fn uuid_to_path(&self, uuid: ImageId, file_ext: &str) -> (r: String)
        ensures
            r@ == path_chars(self.dir@, uuid.0, file_ext@),
    {
        let mut s = String::new();
        s.append(self.dir.as_str());
        push_slash(&mut s);
        let sa = byte_hex_short_str(uuid.shard_a());
        s.append(sa.as_str());
        push_slash(&mut s);
        let sb = byte_hex_short_str(uuid.shard_b());
        s.append(sb.as_str());
        push_slash(&mut s);
        let u = uuid.to_hyphenated();
        s.append(u.as_str());
        push_dot(&mut s);
        s.append(file_ext);
        proof {
            assert(s@ =~= path_chars(self.dir@, uuid.0, file_ext@));
        }
        s
    }

    /// Builds a stream over freshly read file contents; the size gate
    /// decides teeing here, once: it is enabled exactly when the file is
    /// strictly below the per-entry cap.
    pub fn new_data_from_file(&self, file: Vec<u8>, uuid: ImageId) -> (r: Data)
        ensures
            r.inv(),
            r.pos == 0,
            r.uuid == uuid,
            r.bytes() == file@,
            r.tee == (file@.len() < self.max_cache_entry_size),
            !r.from_cache,
    {
        let tee = (file.len() as u64) < self.max_cache_entry_size;
        let r = Data { file, from_cache: false, tee, buf: Vec::new(), uuid, pos: 0 };
        proof {
            if r.tee {
                assert(r.buf@ =~= r.file@.subrange(0, 0));
            }
        }
        r
    }

    /// A read: a cache hit replays the published payload (and offers a
    /// refresh to the channel); a miss reads the file at the derived
    /// address into a stream that tees exactly when the file is below
    /// the per-entry cap; a missing file is `NotFound`.
    pub fn get(&mut self, disk: &Disk, uuid: ImageId, file_ext: &str) -> (r: Result<Data, Error>)
        requires
            old(self).wf(),
            disk.wf(),
        ensures
            final(self).wf(),
            final(self).cache.state == old(self).cache.state,
            final(self).cache.update_every == old(self).cache.update_every,
            final(self).dir == old(self).dir,
            final(self).max_cache_size == old(self).max_cache_size,
            final(self).max_cache_entry_size == old(self).max_cache_entry_size,
            old(self).cache.published().contains_key(uuid.0) ==> (r matches Ok(d) && d.inv()
                && d.pos == 0 && !d.tee && d.bytes() == old(self).cache.published()[uuid.0].data
                && final(self).cache.queue@ == enqueue_snap(
                old(self).cache.queue@,
                CacheOp::Refresh(uuid),
            )),
            (!old(self).cache.published().contains_key(uuid.0) && disk@.contains_key(
                (uuid.0, file_ext@, false),
            )) ==> (r matches Ok(d) && d.inv() && d.pos == 0 && d.uuid == uuid && !d.from_cache
                && d.bytes() == disk@[(uuid.0, file_ext@, false)] && d.tee == (disk@[
                (uuid.0, file_ext@, false)
            ].len() < old(self).max_cache_entry_size) && final(self).cache.queue@ == old(
                self,
            ).cache.queue@),
            (!old(self).cache.published().contains_key(uuid.0) && !disk@.contains_key(
                (uuid.0, file_ext@, false),
            )) ==> (r matches Err(e) && e == Error::NotFound && final(self).cache.queue@ == old(
                self,
            ).cache.queue@),
    {
        match self.cache.get(uuid) {
            Some(cached) => Ok(Data::from_cached(cached)),
            None => {
                let key = FileKey { id: uuid.0, ext: file_ext.to_owned(), temp: false };
                match disk.read(&key) {
                    None => Err(Error::NotFound),
                    Some(bytes) => Ok(self.new_data_from_file(bytes, uuid)),
                }
            },
        }
    }

    /// An insert: creates the temporary sibling exclusively, streams the
    /// body into it, and renames it onto the final path only after the
    /// stream ends cleanly. It fails with `AlreadyExists`, touching
    /// nothing, when the object or a temporary sibling is already
    /// present; it fails with `StreamAborted`, removing the temporary
    /// file and leaving the final path untouched, when the stream fails.
    pub fn insert(&self, disk: &mut Disk, uuid: ImageId, items: &Vec<StreamItem>, file_ext: &str)
        -> (r: Result<(), Error>)
        requires
            old(disk).wf(),
        ensures
            final(disk).wf(),
            (old(disk)@.contains_key((uuid.0, file_ext@, true)) || old(disk)@.contains_key(
                (uuid.0, file_ext@, false),
            )) ==> (r matches Err(e) && e == Error::AlreadyExists && final(disk)@ == old(
                disk,
            )@),
            (!old(disk)@.contains_key((uuid.0, file_ext@, true)) && !old(disk)@.contains_key(
                (uuid.0, file_ext@, false),
            ) && stream_clean(items@)) ==> (r is Ok && final(disk)@ == old(disk)@.insert(
                (uuid.0, file_ext@, false),
                stream_concat(items@),
            )),
            (!old(disk)@.contains_key((uuid.0, file_ext@, true)) && !old(disk)@.contains_key(
                (uuid.0, file_ext@, false),
            ) && !stream_clean(items@)) ==> (r matches Err(e) && e == Error::StreamAborted
                && final(disk)@ == old(disk)@),
    {
        let key = FileKey { id: uuid.0, ext: file_ext.to_owned(), temp: false };
        let mut af = match AtomicFile::new(disk, key) {
            Ok(af) => af,
            Err(e) => {
                return Err(e);
            },
        };
        let ghost tmp_a: Address = (uuid.0, file_ext@, true);
        let mut i: usize = 0;
        while i < items.len()
            invariant
                disk.wf(),
                af.inv(*disk),
                !af.finalized,
                af.tmp_addr() == tmp_a,
                af.fin_addr() == (uuid.0, file_ext@, false),
                i <= items@.len(),
                forall|j: int| 0 <= j < i ==> items@[j] is Data,
                !old(disk)@.contains_key(tmp_a),
                !old(disk)@.contains_key((uuid.0, file_ext@, false)),
                disk@ == old(disk)@.insert(tmp_a, stream_concat(items@.subrange(0, i as int))),
            decreases items@.len() - i,
        {
            let ghost pre = items@.subrange(0, i as int);
            match &items[i] {
                StreamItem::Data(b) => {
                    af.write_chunk(disk, b);
                    proof {
                        assert(items@.subrange(0, i + 1).drop_last() =~= pre);
                        assert(items@.subrange(0, i + 1).last() == items@[i as int]);
                        assert_maps_equal!(
                            old(disk)@.insert(tmp_a, stream_concat(pre)).insert(
                                tmp_a,
                                stream_concat(pre) + b@,
                            ),
                            old(disk)@.insert(tmp_a, stream_concat(items@.subrange(0, i + 1))));
                    }
                },
                StreamItem::Failed => {
                    af.abort(disk);
                    proof {
                        assert_maps_equal!(
                            old(disk)@.insert(tmp_a, stream_concat(pre)).remove(tmp_a),
                            old(disk)@);
                        assert(!stream_clean(items@));
                    }
                    return Err(Error::StreamAborted);
                },
            }
            i += 1;
        }
        proof {
            assert(items@.subrange(0, items@.len() as int) =~= items@);
        }
        let r = af.finalize(disk);
        proof {
            assert_maps_equal!(
                old(disk)@.insert(tmp_a, stream_concat(items@)).remove(tmp_a).insert(
                    (uuid.0, file_ext@, false),
                    stream_concat(items@),
                ),
                old(disk)@.insert((uuid.0, file_ext@, false), stream_concat(items@)));
        }
        r
    }
}

/// What one preload entry offers to the channel: a refresh when the
/// identifier is already cached, an insert of the file's bytes when the
/// file exists below the per-entry cap, and nothing otherwise (missing
/// files are skipped silently).
pub open spec fn preload_step(
    q: Seq<OpSnap>,
    published: Map<u128, EntrySnap>,
    dmap: Map<Address, Seq<u8>>,
    id: ImageId,
    ext: Seq<char>,
    cap: u64,
) -> Seq<OpSnap> {
    if published.contains_key(id.0) {
        enqueue_snap_v(q, OpSnap::Refresh(id.0))
    } else if dmap.contains_key((id.0, ext, false)) && dmap[(id.0, ext, false)].len() < cap {
        enqueue_snap_v(q, OpSnap::Insert(id.0, dmap[(id.0, ext, false)]))
    } else {
        q
    }
}

/// What a whole preload list offers to the channel, first entry first.
pub open spec fn preload_fold(
    q: Seq<OpSnap>,
    published: Map<u128, EntrySnap>,
    dmap: Map<Address, Seq<u8>>,
    entries: Seq<(ImageId, String)>,
    cap: u64,
) -> Seq<OpSnap>
    decreases entries.len(),
{
    if entries.len() == 0 {
        q
    } else {
        preload_step(
            preload_fold(q, published, dmap, entries.drop_last(), cap),
            published,
            dmap,
            entries.last().0,
            entries.last().1@,
            cap,
        )
    }
}

impl FsManager {
    /// A bulk preload: for each listed object, an identifier already in
    /// the published snapshot is only refreshed; otherwise, if the file
    /// exists and is below the per-entry cap, its bytes are offered to
    /// the cache; missing and oversized files are skipped. A forced
    /// publish follows, so subsequent reads see the preload at once.
    pub fn load_cache(&mut self, disk: &Disk, uuids: &Vec<(ImageId, String)>) -> (r: Result<
        (),
        Error,
    >)
        requires
            old(self).wf(),
            disk.wf(),
        ensures
            final(self).wf(),
            r is Ok,
            final(self).cache.state == old(self).cache.state,
            final(self).cache.update_every == old(self).cache.update_every,
            final(self).dir == old(self).dir,
            final(self).max_cache_size == old(self).max_cache_size,
            final(self).max_cache_entry_size == old(self).max_cache_entry_size,
            queue_snap(final(self).cache.queue@) == enqueue_snap_v(
                preload_fold(
                    queue_snap(old(self).cache.queue@),
                    old(self).cache.published(),
                    disk@,
                    uuids@,
                    old(self).max_cache_entry_size,
                ),
                OpSnap::ForceUpdate,
            ),
    {
        let ghost published = old(self).cache.published();
        let ghost cap = old(self).max_cache_entry_size;
        let mut i: usize = 0;
        while i < uuids.len()
            invariant
                self.wf(),
                self.cache.state == old(self).cache.state,
                self.cache.update_every == old(self).cache.update_every,
                self.dir == old(self).dir,
                self.max_cache_size == old(self).max_cache_size,
                self.max_cache_entry_size == old(self).max_cache_entry_size,
                published == old(self).cache.published(),
                cap == old(self).max_cache_entry_size,
                disk.wf(),
                i <= uuids@.len(),
                queue_snap(self.cache.queue@) == preload_fold(
                    queue_snap(old(self).cache.queue@),
                    published,
                    disk@,
                    uuids@.subrange(0, i as int),
                    cap,
                ),
            decreases uuids@.len() - i,
        {
            let ghost pre = uuids@.subrange(0, i as int);
            let ghost q0 = self.cache.queue@;
            let entry = &uuids[i];
            let uuid = entry.0;
            match self.cache.get(uuid) {
                Some(_) => {
                    proof {
                        crate::fs_manager::cache::lemma_queue_snap_enqueue(
                            q0,
                            CacheOp::Refresh(uuid),
                        );
                    }
                },
                None => {
                    let key = FileKey { id: uuid.0, ext: entry.1.clone(), temp: false };
                    match disk.read(&key) {
                        None => {
                        },
                        Some(bytes) => {
                            if (bytes.len() as u64) < self.max_cache_entry_size {
                                proof {
                                    crate::fs_manager::cache::lemma_queue_snap_enqueue(
                                        q0,
                                        CacheOp::Insert(uuid, bytes),
                                    );
                                }
                                self.cache.insert(uuid, bytes);
                            }
                        },
                    }
                },
            }
            proof {
                assert(uuids@.subrange(0, i + 1).drop_last() =~= pre);
                assert(uuids@.subrange(0, i + 1).last() == uuids@[i as int]);
            }
            i += 1;
        }
        proof {
            assert(uuids@.subrange(0, uuids@.len() as int) =~= uuids@);
        }
        let ghost qf = self.cache.queue@;
        self.cache.force_update();
        proof {
            crate::fs_manager::cache::lemma_queue_snap_enqueue(qf, CacheOp::ForceUpdate);
        }
        Ok(())
    }
}

/// The size gate, read side: a stream over a source at least as large
/// as the per-entry cap was created with teeing disabled, so by
/// [`Data::finish`] it never offers its bytes to the cache.
pub proof fn lemma_size_gate_read(d: Data, cap: u64)
    requires
        d.inv(),
        d.tee == (d.bytes().len() < cap),
        d.bytes().len() >= cap,
    ensures
        !d.tee,
{
}

/// The size gate, preload side: an object at least as large as the
/// per-entry cap that is not already cached offers nothing to the
/// channel.
pub proof fn lemma_size_gate_preload(
    q: Seq<OpSnap>,
    published: Map<u128, EntrySnap>,
    dmap: Map<Address, Seq<u8>>,
    id: ImageId,
    ext: Seq<char>,
    cap: u64,
)
    requires
        !published.contains_key(id.0),
        dmap.contains_key((id.0, ext, false)) ==> dmap[(id.0, ext, false)].len() >= cap,
    ensures
        preload_step(q, published, dmap, id, ext, cap) == q,
{
}

/// Preload idempotence: a preload whose identifiers are all already in
/// the published snapshot offers only refreshes — and by
/// [`crate::fs_manager::cache::lemma_refresh_preserves_content`] a
/// refresh never changes which payloads the cache holds.
pub proof fn lemma_preload_cached_refresh_only(
    q: Seq<OpSnap>,
    published: Map<u128, EntrySnap>,
    dmap: Map<Address, Seq<u8>>,
    entries: Seq<(ImageId, String)>,
    cap: u64,
)
    requires
        forall|i: int| 0 <= i < entries.len() ==> published.contains_key(entries[i].0.0),
    ensures
        ({
            let r = preload_fold(q, published, dmap, entries, cap);
            q.len() <= r.len() && r.subrange(0, q.len() as int) == q && forall|j: int|
                q.len() <= j < r.len() ==> r[j] is Refresh
        }),
    decreases entries.len(),
{
    if entries.len() > 0 {
        assert(forall|i: int|
            0 <= i < entries.drop_last().len() ==> published.contains_key(
                entries.drop_last()[i].0.0,
            ));
        lemma_preload_cached_refresh_only(q, published, dmap, entries.drop_last(), cap);
        let r0 = preload_fold(q, published, dmap, entries.drop_last(), cap);
        let r = preload_fold(q, published, dmap, entries, cap);
        assert(published.contains_key(entries.last().0.0));
        if r0.len() < CHANNEL_CAPACITY {
            assert(r =~= r0.push(OpSnap::Refresh(entries.last().0.0)));
            assert(r.subrange(0, q.len() as int) =~= r0.subrange(0, q.len() as int));
        }
    } else {
        assert(preload_fold(q, published, dmap, entries, cap).subrange(0, q.len() as int)
            =~= q);
    }
}

/// Round trip at the level of the store model: after a successful
/// insert binds an address to a byte sequence, a read of that address
/// yields exactly that sequence. `FsManager::insert` ensures the bound
/// sequence is the whole clean stream, and `FsManager::get` reads the
/// bound sequence verbatim.
pub proof fn lemma_round_trip(m: Map<Address, Seq<u8>>, a: Address, b: Seq<u8>)
    ensures
        m.insert(a, b).contains_key(a),
        m.insert(a, b)[a] == b,
{
}

} // verus!
