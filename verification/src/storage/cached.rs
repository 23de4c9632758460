//! A local cache before a remote storage.

use bytes::{Bytes, BytesMut};
use vstd::prelude::*;
use crate::blob;
use crate::cache::fs;
use crate::cache::fs::FileChange;
use crate::disk_evictor;
use crate::disk_evictor::DiskEvictor;
use crate::paths;
use crate::text;

verus! {

/// A storage with a local cache before it.
pub struct CachedStorage<S> {
    pub inner: S,
    pub cache_dir: String,
    pub disk: DiskEvictor,
}

/// A character of a file name: a separator becomes an underscore.
pub open spec fn safe_char(c: char) -> char {
    if c == '/' || c == '\\' {
        '_'
    } else {
        c
    }
}

/// A key as a file name.
pub open spec fn safe_key(key: Seq<char>) -> Seq<char> {
    Seq::new(key.len(), |i: int| safe_char(key[i]))
}

/// Writes a key as a file name.
fn make_safe_key(key: &str) -> (s: String)
    ensures
        s@ == safe_key(key@),
{
    let chars: Vec<char> = text::chars_of(key);
    let mut s: String = String::new();
    let mut i: usize = 0;
    while i < chars.len()
        invariant
            i <= chars@.len(),
            chars@ == key@,
            s@ =~= safe_key(key@).take(i as int),
        decreases chars.len() - i,
    {
        let c: char = chars[i];
        text::push_char(
            &mut s,
            if c == '/' || c == '\\' {
                '_'
            } else {
                c
            },
        );
        i += 1;
    }
    proof {
        assert(s@ =~= safe_key(key@));
    }
    s
}

/// Where a blob comes from.
pub enum Source {
    /// From the local cache.
    Cached(Bytes),
    /// From the storage behind it.
    Inner,
}

/// Where a stream comes from.
pub enum StreamSource {
    /// From the local cache.
    Cached,
    /// From the storage behind it.
    Inner(StreamTee),
}

impl<S> CachedStorage<S> {
    /// Whether this is a cache in the given directory, with a limit in megabytes.
    pub open spec fn serves(self, inner: S, base: Seq<char>, max_size_mb: u64) -> bool {
        &&& self.inner == inner
        &&& self.cache_dir@ == base
        &&& self.disk.dir@ == base
        &&& self.disk.max_bytes == max_size_mb * 1048576
        &&& self.disk.skip_ext is None
        &&& self.disk.counter == 0
        &&& !self.disk.shutdown
    }

    /// Whether nothing but the counter of the evictor differs.
    pub open spec fn same_storage(self, other: CachedStorage<S>) -> bool {
        &&& self.inner == other.inner
        &&& self.cache_dir == other.cache_dir
        &&& self.disk.same_settings(other.disk)
    }

    /// A cache in `base_dir`, with a limit in megabytes that a background task keeps.
    pub fn new(inner: S, base_dir: &str, max_size_mb: u64) -> (c: CachedStorage<S>)
        requires
            max_size_mb * 1048576 <= u64::MAX,
        ensures
            c.serves(inner, base_dir@, max_size_mb),
            c.disk.has_background_task,
    {
        CachedStorage {
            inner,
            cache_dir: base_dir.to_string(),
            disk: DiskEvictor::new(base_dir.to_string(), max_size_mb * 1024 * 1024, None),
        }
    }

    /// A cache in `base_dir` without a background task.
    pub fn new_manual(inner: S, base_dir: &str, max_size_mb: u64) -> (c: CachedStorage<S>)
        requires
            max_size_mb * 1048576 <= u64::MAX,
        ensures
            c.serves(inner, base_dir@, max_size_mb),
            !c.disk.has_background_task,
    {
        CachedStorage {
            inner,
            cache_dir: base_dir.to_string(),
            disk: DiskEvictor::manual(base_dir.to_string(), max_size_mb * 1024 * 1024, None),
        }
    }

    /// The evictor of the cache.
    pub fn evictor(&self) -> (e: &DiskEvictor)
        ensures
            *e == self.disk,
    {
        &self.disk
    }

    /// The path at which a key is cached.
    pub open spec fn cached_at(self, key: Seq<char>) -> Seq<char> {
        paths::joined_path(self.cache_dir@, safe_key(key))
    }

    /// The path at which a key is cached.
    pub fn cache_path(&self, key: &str) -> (s: String)
        ensures
            s@ == self.cached_at(key@),
    {
        paths::join_path(self.cache_dir.as_str(), make_safe_key(key).as_str())
    }

    /// Decides a read by what the cache gave: bytes, or nothing.
    pub fn get(&self, cached: Option<Vec<u8>>) -> (r: Source)
        ensures
            match cached {
                Some(data) => r matches Source::Cached(b) && blob::contents(b) == data@,
                None => r is Inner,
            },
    {
        match cached {
            Some(data) => Source::Cached(blob::bytes_from_vec(data)),
            None => Source::Inner,
        }
    }

    /// Decides a streamed read by whether the cache has the key: its file is streamed, or
    /// the storage behind, with its chunks collected for the cache.
    pub fn get_stream(&self, cached: bool) -> (r: StreamSource)
        ensures
            match r {
                StreamSource::Cached => cached,
                StreamSource::Inner(tee) => !cached && tee.state() == (Seq::<u8>::empty(), true),
            },
    {
        if cached {
            StreamSource::Cached
        } else {
            StreamSource::Inner(StreamTee::new())
        }
    }

    /// Notes that a blob of `len` bytes was, or was not, written to the cache. Returns
    /// whether the background task is to evict.
    pub fn blob_written(&mut self, len: u64, written: bool) -> (evict: bool)
        requires
            old(self).disk.counter + len <= u64::MAX,
        ensures
            final(self).same_storage(*old(self)),
            final(self).disk.counter == old(self).disk.counter + if written {
                len as int
            } else {
                0
            },
            evict == (written && final(self).disk.counter > final(self).disk.max_bytes
                && final(self).disk.has_background_task),
    {
        if written {
            self.disk.track_write(len)
        } else {
            false
        }
    }

    /// Notes that a cached blob was, or was not, removed. `size` is what it was before,
    /// where that could be learned.
    pub fn blob_removed(&mut self, size: Option<u64>, removed: bool)
        ensures
            final(self).same_storage(*old(self)),
            final(self).disk.counter == if removed && size is Some {
                disk_evictor::minus(old(self).disk.counter as nat, size->Some_0 as nat)
            } else {
                old(self).disk.counter as nat
            },
    {
        if removed {
            if let Some(s) = size {
                self.disk.track_delete(s);
            }
        }
    }
}

/// Something that happens to a stream.
pub enum StreamEvent {
    /// A chunk that someone took.
    Taken(Seq<u8>),
    /// A chunk that no one took.
    Dropped(Seq<u8>),
    /// An error.
    Fault,
}

/// What a stream has given and whether it still runs, after one thing more.
pub open spec fn after_event(state: (Seq<u8>, bool), e: StreamEvent) -> (Seq<u8>, bool) {
    let (bytes, running) = state;
    match e {
        StreamEvent::Taken(data) => if running {
            (bytes + data, true)
        } else {
            state
        },
        StreamEvent::Dropped(data) => if running {
            (bytes + data, false)
        } else {
            state
        },
        StreamEvent::Fault => (bytes, false),
    }
}

/// The chunks of a stream, collected for the cache while they are handed on.
pub struct StreamTee {
    /// The bytes so far.
    pub collected: BytesMut,
    /// Whether the stream still runs: no error, and someone who listens.
    pub running: bool,
}

impl StreamTee {
    /// What the stream has given, and whether it still runs.
    pub open spec fn state(self) -> (Seq<u8>, bool) {
        (blob::gathered(self.collected), self.running)
    }

    /// A stream that has not given anything yet.
    pub fn new() -> (t: StreamTee)
        ensures
            t.state() == (Seq::<u8>::empty(), true),
    {
        StreamTee { collected: blob::gather_new(), running: true }
    }

    /// The stream gave a chunk. `delivered` is whether someone took it. What is collected has
    /// to fit an allocation.
    pub fn chunk(&mut self, data: &[u8], delivered: bool)
        requires
            old(self).running ==> blob::gathered(old(self).collected).len() + data@.len()
                <= isize::MAX / 2,
        ensures
            final(self).state() == after_event(
                old(self).state(),
                if delivered {
                    StreamEvent::Taken(data@)
                } else {
                    StreamEvent::Dropped(data@)
                },
            ),
    {
        if self.running {
            blob::gather(&mut self.collected, data);
            self.running = delivered;
        }
    }

    /// The stream gave an error.
    pub fn error(&mut self)
        ensures
            final(self).state() == after_event(old(self).state(), StreamEvent::Fault),
    {
        self.running = false;
    }

    /// The stream is over. Returns what is to be cached: the whole of a stream that ran to
    /// its end and was not empty.
    pub fn finish(self) -> (r: Option<BytesMut>)
        ensures
            match r {
                Some(v) => self.running && self.state().0.len() > 0 && v == self.collected,
                None => !self.running || self.state().0.len() == 0,
            },
    {
        if self.running && !blob::gathered_none(&self.collected) {
            Some(self.collected)
        } else {
            None
        }
    }
}

/// What a stream has given, and whether it still runs.
pub open spec fn stream_state(events: Seq<StreamEvent>) -> (Seq<u8>, bool)
    decreases events.len(),
{
    if events.len() == 0 {
        (Seq::empty(), true)
    } else {
        after_event(stream_state(events.drop_last()), events.last())
    }
}

/// The bytes that were taken from a stream, in order.
pub open spec fn taken_bytes(events: Seq<StreamEvent>) -> Seq<u8>
    decreases events.len(),
{
    if events.len() == 0 {
        Seq::empty()
    } else {
        taken_bytes(events.drop_last()) + match events.last() {
            StreamEvent::Taken(data) => data,
            _ => Seq::empty(),
        }
    }
}

/// A stream that ran to its end was taken whole, and its bytes are the ones that are
/// cached; after an error, or once no one listens, nothing is.
pub proof fn law_only_whole_streams_are_cached(events: Seq<StreamEvent>)
    ensures
        stream_state(events).1 <==> forall|i: int|
            0 <= i < events.len() ==> #[trigger] events[i] is Taken,
        stream_state(events).1 ==> stream_state(events).0 == taken_bytes(events),
    decreases events.len(),
{
    if events.len() > 0 {
        let rest = events.drop_last();
        law_only_whole_streams_are_cached(rest);
        if stream_state(events).1 {
            assert forall|i: int| 0 <= i < events.len() implies #[trigger] events[i] is Taken by {
                if i < rest.len() {
                    assert(rest[i] is Taken);
                }
            }
        } else if events.last() is Taken {
            let i = choose|i: int| 0 <= i < rest.len() && !(#[trigger] rest[i] is Taken);
            assert(events[i] == rest[i]);
        } else {
            assert(!(events[events.len() - 1] is Taken));
        }
    }
}

/// The bytes that are cached for a key, among the files of the machine.
pub open spec fn local_copy(
    files: Map<Seq<char>, Seq<u8>>,
    base: Seq<char>,
    key: Seq<char>,
) -> Option<Seq<u8>> {
    let path = paths::joined_path(base, safe_key(key));
    if files.contains_key(path) {
        Some(files[path])
    } else {
        None
    }
}

/// Once a blob is written to the cache, the next read of its key finds its bytes there;
/// once it is removed, the next read goes to the storage behind.
pub proof fn law_second_read_is_local(
    files: Map<Seq<char>, Seq<u8>>,
    base: Seq<char>,
    key: Seq<char>,
    data: Seq<u8>,
)
    ensures
        ({
            let path = paths::joined_path(base, safe_key(key));
            let written = fs::after_change(files, FileChange::Write { path, data });
            let removed = fs::after_change(written, FileChange::Remove { path });
            local_copy(written, base, key) == Some(data) && local_copy(removed, base, key) is None
        }),
{
}

/// A cached file is always directly below the cache directory, whatever the key.
pub proof fn law_cached_files_lie_in_the_directory(base: Seq<char>, key: Seq<char>)
    ensures
        !safe_key(key).contains('/'),
        !safe_key(key).contains('\\'),
        base.len() > 0 ==> paths::joined_path(base, safe_key(key)) == (if base.last() == '/' {
            base
        } else {
            base.push('/')
        }) + safe_key(key),
{
    reveal_strlit("/");
    let k = safe_key(key);
    if text::begins_with(k, "/"@) {
        assert(k.take(1)[0] == '/');
        assert(k[0] == safe_char(key[0]));
    }
}

/// Keys that are not equal up to separators and underscores are cached in different files.
pub proof fn law_different_keys_are_cached_apart(base: Seq<char>, a: Seq<char>, b: Seq<char>)
    requires
        paths::joined_path(base, safe_key(a)) == paths::joined_path(base, safe_key(b)),
    ensures
        safe_key(a) == safe_key(b),
{
    reveal_strlit("/");
    law_cached_files_lie_in_the_directory(base, a);
    law_cached_files_lie_in_the_directory(base, b);
    if text::begins_with(safe_key(a), "/"@) {
        assert(safe_key(a).take(1)[0] == '/');
        assert(safe_key(a)[0] == '/');
    }
    if text::begins_with(safe_key(b), "/"@) {
        assert(safe_key(b).take(1)[0] == '/');
        assert(safe_key(b)[0] == '/');
    }
    paths::lemma_joined_path_injective(base, safe_key(a), safe_key(b));
}

/// A key as a file name keeps its length and all of its characters but the separators, which
/// become underscores.
pub proof fn law_separators_become_underscores(key: Seq<char>, i: int)
    requires
        0 <= i < key.len(),
    ensures
        safe_key(key).len() == key.len(),
        key[i] == '/' || key[i] == '\\' ==> safe_key(key)[i] == '_',
        key[i] != '/' && key[i] != '\\' ==> safe_key(key)[i] == key[i],
{
}

/// A stream collects each chunk behind the ones before while it runs; it stops with a chunk that
/// no one takes and with an error, and what comes after that changes nothing.
pub proof fn law_stream_stops_for_good(bytes: Seq<u8>, data: Seq<u8>, e: StreamEvent)
    ensures
        after_event((bytes, true), StreamEvent::Taken(data)) == (bytes + data, true),
        !after_event((bytes, true), StreamEvent::Dropped(data)).1,
        !after_event((bytes, true), StreamEvent::Fault).1,
        after_event((bytes, false), e) == (bytes, false),
{
}

/// A new storage accounts for its cache directory, from nothing on, up to its limit in bytes.
pub proof fn law_storage_accounts_for_its_directory<S>(
    c: CachedStorage<S>,
    inner: S,
    base: Seq<char>,
    max_size_mb: u64,
)
    requires
        c.serves(inner, base, max_size_mb),
    ensures
        c.inner == inner,
        c.cache_dir@ == base,
        c.disk.dir@ == base,
        c.disk.max_bytes == 1024 * (1024 * max_size_mb),
        c.disk.skip_ext is None,
        c.disk.counter == 0,
        !c.disk.shutdown,
        forall|key: Seq<char>| #[trigger]
            c.cached_at(key) == paths::joined_path(base, safe_key(key)),
{
}

/// Where nothing but the counter of the evictor differs, everything else is the same.
pub proof fn law_storage_stays<S>(a: CachedStorage<S>, b: CachedStorage<S>)
    ensures
        a.same_storage(b) ==> a.inner == b.inner && a.cache_dir == b.cache_dir && a.disk == (
        DiskEvictor { counter: a.disk.counter, ..b.disk }),
{
}

/// The state of a stream is what was collected and whether it runs.
pub proof fn law_stream_state(t: StreamTee)
    ensures
        t.state().0 == blob::gathered(t.collected),
        t.state().1 == t.running,
{
}

} // verus!
