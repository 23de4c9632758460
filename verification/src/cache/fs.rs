//! The response cache in a directory.
//!
//! An entry is a file. One that expires has a sidecar `.meta` that holds the second of
//! its expiry.

use bytes::Bytes;
use vstd::prelude::*;
use vstd::utf8::*;
use crate::blob;
use crate::disk_evictor;
use crate::disk_evictor::DiskEvictor;
use crate::paths;
use crate::text;

verus! {

/// A cache in a directory.
pub struct FileSystemCache {
    pub base_path: String,
    pub evictor: DiskEvictor,
}

/// Why an operation of the cache fails, apart from the file system.
#[derive(Clone, Copy, PartialEq, Eq, Structural, Debug)]
pub enum CacheError {
    /// The clock shows a time before the Unix epoch.
    ClockBeforeEpoch,
}

/// What a look into the cache finds.
#[derive(Clone, Copy, PartialEq, Eq, Structural, Debug)]
pub enum Lookup {
    /// No entry.
    Miss,
    /// An entry that has expired: it is to be removed, with its sidecar.
    Expired,
    /// An entry to be read.
    Fresh,
}

/// How far the setting of an entry came.
#[derive(Clone, Copy, PartialEq, Eq, Structural, Debug)]
pub enum SetOutcome {
    /// Its file could not be written.
    EntryFailed,
    /// Its file was written, and the clock shows no time to reckon its expiry from.
    ClockFailed,
    /// Its file was written, and its sidecar could not be.
    SidecarFailed,
    /// All was written.
    Complete,
}

impl SetOutcome {
    /// Whether the entry is counted: its file was written, and its expiry could be reckoned
    /// where it has one.
    pub open spec fn counts_entry(self) -> bool {
        self == SetOutcome::SidecarFailed || self == SetOutcome::Complete
    }
}

/// A change of a file.
pub enum FileOp {
    /// The file is written.
    Write { path: String, data: Bytes },
    /// The file is removed.
    Remove { path: String },
}

/// A change of a file, as the specification sees it.
pub enum FileChange {
    Write { path: Seq<char>, data: Seq<u8> },
    Remove { path: Seq<char> },
}

impl FileOp {
    /// The change, as the specification sees it.
    pub open spec fn change(self) -> FileChange {
        match self {
            FileOp::Write { path, data } => FileChange::Write {
                path: path@,
                data: blob::contents(data),
            },
            FileOp::Remove { path } => FileChange::Remove { path: path@ },
        }
    }
}

/// Changes of files, as the specification sees them.
pub open spec fn changes(ops: Seq<FileOp>) -> Seq<FileChange> {
    Seq::new(ops.len(), |i: int| ops[i].change())
}

/// The second of expiry that a sidecar holds.
pub open spec fn expiry_of(sidecar: Seq<char>) -> Option<nat> {
    text::bounded_value(encode_utf8(sidecar), u64::MAX as nat)
}

/// Whether an entry with the given sidecar has expired at `now`. Without a sidecar, or
/// with one that holds no number, it has not.
pub open spec fn has_expired(sidecar: Option<Seq<char>>, now: u64) -> bool {
    match sidecar {
        Some(s) => match expiry_of(s) {
            Some(e) => now > e,
            None => false,
        },
        None => false,
    }
}

/// The text of a sidecar, as the specification sees it.
pub open spec fn sidecar_view(sidecar: Option<&str>) -> Option<Seq<char>> {
    match sidecar {
        Some(s) => Some(s@),
        None => None,
    }
}

/// Whether the time is needed: the sidecar holds a number.
pub open spec fn needs_time(sidecar: Option<Seq<char>>) -> bool {
    sidecar is Some && expiry_of(sidecar->Some_0) is Some
}

/// What a look into the cache finds at `now`, by whether the file of the entry is there
/// and by what its sidecar holds.
pub open spec fn looked_up(exists: bool, sidecar: Option<Seq<char>>, now: u64) -> Lookup {
    if !exists {
        Lookup::Miss
    } else if has_expired(sidecar, now) {
        Lookup::Expired
    } else {
        Lookup::Fresh
    }
}

/// The path of an entry.
pub open spec fn entry_path(base: Seq<char>, key: Seq<char>) -> Seq<char> {
    paths::joined_path(base, key)
}

/// The path of the sidecar of an entry.
pub open spec fn sidecar_path(base: Seq<char>, key: Seq<char>) -> Seq<char> {
    paths::joined_path(base, key + ".meta"@)
}

/// Whether an entry with the given sidecar has expired. `now` is in seconds after the
/// epoch, and is missing where the clock shows an earlier time.
pub fn is_expired(sidecar: Option<&str>, now: Option<u64>) -> (r: Result<bool, CacheError>)
    ensures
        match r {
            Ok(b) => (needs_time(sidecar_view(sidecar)) ==> now is Some) && b == has_expired(
                sidecar_view(sidecar),
                now->Some_0,
            ),
            Err(e) => needs_time(sidecar_view(sidecar)) && now is None,
        },
{
    match sidecar {
        None => Ok(false),
        Some(s) => match text::parse_u64(s.as_bytes()) {
            Some(expiry) => match now {
                Some(t) => Ok(t > expiry),
                None => Err(CacheError::ClockBeforeEpoch),
            },
            None => Ok(false),
        },
    }
}

impl FileSystemCache {
    /// Whether this is the cache in the given directory, with a limit in megabytes.
    pub open spec fn serves(self, base: Seq<char>, max_size_mb: u64) -> bool {
        &&& self.base_path@ == base
        &&& self.evictor.dir@ == base
        &&& self.evictor.max_bytes == max_size_mb * 1048576
        &&& self.evictor.skips() == Some("meta"@)
        &&& self.evictor.counter == 0
        &&& self.evictor.has_background_task
        &&& !self.evictor.shutdown
    }

    /// A cache in `base_path`, with a limit in megabytes. Sidecars are left out of the
    /// accounting.
    pub fn new(base_path: &str, max_size_mb: u64) -> (c: FileSystemCache)
        requires
            max_size_mb * 1048576 <= u64::MAX,
        ensures
            c.serves(base_path@, max_size_mb),
    {
        FileSystemCache {
            base_path: base_path.to_string(),
            evictor: DiskEvictor::new(
                base_path.to_string(),
                max_size_mb * 1024 * 1024,
                Some("meta".to_string()),
            ),
        }
    }

    /// The path of an entry.
    pub fn get_file_path(&self, key: &str) -> (s: String)
        ensures
            s@ == entry_path(self.base_path@, key@),
    {
        paths::join_path(self.base_path.as_str(), key)
    }

    /// The path of the sidecar of an entry.
    pub fn get_meta_path(&self, key: &str) -> (s: String)
        ensures
            s@ == sidecar_path(self.base_path@, key@),
    {
        let name: String = text::cat(key, ".meta");
        paths::join_path(self.base_path.as_str(), name.as_str())
    }

    /// Looks an entry up: whether its file is there, what its sidecar holds where it has
    /// one, and the time.
    pub fn get(&self, exists: bool, sidecar: Option<&str>, now: Option<u64>) -> (r: Result<
        Lookup,
        CacheError,
    >)
        ensures
            match r {
                Ok(found) => {
                    &&& exists && needs_time(sidecar_view(sidecar)) ==> now is Some
                    &&& found == looked_up(exists, sidecar_view(sidecar), now->Some_0)
                },
                Err(e) => exists && needs_time(sidecar_view(sidecar)) && now is None,
            },
    {
        if !exists {
            return Ok(Lookup::Miss);
        }
        match is_expired(sidecar, now) {
            Ok(expired) => if expired {
                Ok(Lookup::Expired)
            } else {
                Ok(Lookup::Fresh)
            },
            Err(e) => Err(e),
        }
    }

    /// Notes that the file of an entry was, or was not, removed. `size` is what it was
    /// before, where that could be learned.
    pub fn entry_removed(&mut self, size: Option<u64>, removed: bool)
        ensures
            final(self).base_path == old(self).base_path,
            final(self).evictor.same_settings(old(self).evictor),
            final(self).evictor.counter == if removed && size is Some {
                disk_evictor::minus(old(self).evictor.counter as nat, size->Some_0 as nat)
            } else {
                old(self).evictor.counter as nat
            },
    {
        if removed {
            if let Some(s) = size {
                self.evictor.track_delete(s);
            }
        }
    }

    /// The text of the sidecar of an entry that is written at `now` and lives for `ttl`
    /// seconds; none for an entry that lives for good.
    pub fn expiry_text(now: Option<u64>, ttl: Option<u64>) -> (r: Result<
        Option<String>,
        CacheError,
    >)
        requires
            now is Some && ttl is Some ==> now->Some_0 + ttl->Some_0 <= u64::MAX,
        ensures
            match ttl {
                None => r is Ok && r->Ok_0 is None,
                Some(t) => match now {
                    Some(n) => r is Ok && r->Ok_0 is Some && r->Ok_0->Some_0@ == text::decimal(
                        (n + t) as nat,
                    ),
                    None => r is Err,
                },
            },
    {
        match ttl {
            None => Ok(None),
            Some(t) => match now {
                Some(n) => Ok(Some(text::decimal_text(n + t))),
                None => Err(CacheError::ClockBeforeEpoch),
            },
        }
    }

    /// The changes that set an entry: its file, then its sidecar where it expires.
    pub fn set(&self, key: &str, value: Bytes, expiry: Option<String>) -> (ops: Vec<FileOp>)
        ensures
            changes(ops@) == set_changes(
                self.base_path@,
                key@,
                blob::contents(value),
                match expiry {
                    Some(s) => Some(s@),
                    None => None,
                },
            ),
    {
        let mut ops: Vec<FileOp> = Vec::new();
        let ghost data = blob::contents(value);
        ops.push(FileOp::Write { path: self.get_file_path(key), data: value });
        if let Some(s) = &expiry {
            ops.push(
                FileOp::Write {
                    path: self.get_meta_path(key),
                    data: blob::bytes_from_slice(s.as_str().as_bytes()),
                },
            );
        }
        proof {
            assert(changes(ops@) =~= set_changes(
                self.base_path@,
                key@,
                data,
                match expiry {
                    Some(s) => Some(s@),
                    None => None,
                },
            ));
        }
        ops
    }

    /// Notes how far the setting of an entry of `len` bytes came. The counter follows the
    /// file of the entry, even where its sidecar could not be written; `old_size` is what
    /// the file held before. Returns whether the background task is to evict.
    pub fn entry_set(&mut self, outcome: SetOutcome, old_size: Option<u64>, len: u64) -> (evict:
        bool)
        requires
            old(self).evictor.counter + len <= u64::MAX,
        ensures
            final(self).base_path == old(self).base_path,
            final(self).evictor.same_settings(old(self).evictor),
            final(self).evictor.counter == if outcome.counts_entry() {
                len + match old_size {
                    Some(s) => disk_evictor::minus(old(self).evictor.counter as nat, s as nat),
                    None => old(self).evictor.counter as nat,
                }
            } else {
                old(self).evictor.counter as int
            },
            evict == (outcome.counts_entry() && final(self).evictor.counter
                > final(self).evictor.max_bytes && final(self).evictor.has_background_task),
    {
        match outcome {
            SetOutcome::EntryFailed => false,
            SetOutcome::ClockFailed => false,
            _ => {
                if let Some(old) = old_size {
                    self.evictor.track_delete(old);
                }
                self.evictor.track_write(len)
            },
        }
    }

    /// The changes that delete an entry: its file and its sidecar, as far as they are
    /// there.
    pub fn delete(&self, key: &str, exists: bool, has_sidecar: bool) -> (ops: Vec<FileOp>)
        ensures
            changes(ops@) == delete_changes(self.base_path@, key@, exists, has_sidecar),
    {
        let mut ops: Vec<FileOp> = Vec::new();
        if exists {
            ops.push(FileOp::Remove { path: self.get_file_path(key) });
        }
        if has_sidecar {
            ops.push(FileOp::Remove { path: self.get_meta_path(key) });
        }
        proof {
            assert(changes(ops@) =~= delete_changes(
                self.base_path@,
                key@,
                exists,
                has_sidecar,
            ));
        }
        ops
    }
}

/// The changes that set an entry.
pub open spec fn set_changes(
    base: Seq<char>,
    key: Seq<char>,
    value: Seq<u8>,
    expiry: Option<Seq<char>>,
) -> Seq<FileChange> {
    let entry = seq![FileChange::Write { path: entry_path(base, key), data: value }];
    match expiry {
        Some(s) => entry.push(
            FileChange::Write { path: sidecar_path(base, key), data: encode_utf8(s) },
        ),
        None => entry,
    }
}

/// The changes that delete an entry.
pub open spec fn delete_changes(
    base: Seq<char>,
    key: Seq<char>,
    exists: bool,
    has_sidecar: bool,
) -> Seq<FileChange> {
    let entry = if exists {
        seq![FileChange::Remove { path: entry_path(base, key) }]
    } else {
        Seq::empty()
    };
    if has_sidecar {
        entry.push(FileChange::Remove { path: sidecar_path(base, key) })
    } else {
        entry
    }
}

/// The files of a directory tree: their bytes by their paths.
pub open spec fn after_change(files: Map<Seq<char>, Seq<u8>>, c: FileChange) -> Map<
    Seq<char>,
    Seq<u8>,
> {
    match c {
        FileChange::Write { path, data } => files.insert(path, data),
        FileChange::Remove { path } => files.remove(path),
    }
}

/// The files after some changes.
pub open spec fn after_changes(files: Map<Seq<char>, Seq<u8>>, cs: Seq<FileChange>) -> Map<
    Seq<char>,
    Seq<u8>,
>
    decreases cs.len(),
{
    if cs.len() == 0 {
        files
    } else {
        after_change(after_changes(files, cs.drop_last()), cs.last())
    }
}

/// What the sidecar of an entry holds, where it has one.
pub open spec fn sidecar_text(
    files: Map<Seq<char>, Seq<u8>>,
    base: Seq<char>,
    key: Seq<char>,
) -> Option<Seq<char>> {
    if files.contains_key(sidecar_path(base, key)) {
        Some(decode_utf8(files[sidecar_path(base, key)]))
    } else {
        None
    }
}

/// What the cache gives for `key` at `now`: the bytes of the file, where the look finds an
/// entry to be read.
pub open spec fn stored(
    files: Map<Seq<char>, Seq<u8>>,
    base: Seq<char>,
    key: Seq<char>,
    now: u64,
) -> Option<Seq<u8>> {
    let exists = files.contains_key(entry_path(base, key));
    match looked_up(exists, sidecar_text(files, base, key), now) {
        Lookup::Fresh => Some(files[entry_path(base, key)]),
        _ => None,
    }
}

/// An entry and its sidecar are different files.
proof fn lemma_sidecar_is_another_file(base: Seq<char>, key: Seq<char>)
    ensures
        entry_path(base, key) != sidecar_path(base, key),
        text::begins_with(key + ".meta"@, "/"@) == text::begins_with(key, "/"@),
{
    reveal_strlit(".meta");
    reveal_strlit("/");
    let name = key + ".meta"@;
    if key.len() > 0 {
        assert(name.take(1) =~= key.take(1));
    } else {
        assert(name.take(1)[0] == '.');
    }
    assert(entry_path(base, key).len() < sidecar_path(base, key).len());
}

/// Reading the sidecar gives back the second of expiry that was written to it.
pub proof fn law_expiry_roundtrip(expiry: nat, now: u64)
    requires
        expiry <= u64::MAX,
    ensures
        expiry_of(text::decimal(expiry)) == Some(expiry),
        has_expired(Some(text::decimal(expiry)), now) == (now > expiry),
{
    text::lemma_decimal_roundtrip(expiry);
    is_ascii_chars_encode_utf8(text::decimal(expiry));
    assert(encode_utf8(text::decimal(expiry)) =~= text::ascii_bytes(text::decimal(expiry)));
}

/// The cache gives back what was set, up to and at the second of expiry, and no longer.
pub proof fn law_get_gives_back_what_was_set(
    files: Map<Seq<char>, Seq<u8>>,
    base: Seq<char>,
    key: Seq<char>,
    value: Seq<u8>,
    expiry: nat,
    now: u64,
)
    requires
        expiry <= u64::MAX,
    ensures
        stored(
            after_changes(
                files,
                set_changes(base, key, value, Some(text::decimal(expiry))),
            ),
            base,
            key,
            now,
        ) == if now > expiry {
            None
        } else {
            Some(value)
        },
{
    let cs = set_changes(base, key, value, Some(text::decimal(expiry)));
    reveal_with_fuel(after_changes, 3);
    assert(cs.drop_last() =~= seq![cs[0]]);
    assert(cs.drop_last().drop_last() =~= Seq::<FileChange>::empty());
    lemma_sidecar_is_another_file(base, key);
    law_expiry_roundtrip(expiry, now);
    encode_utf8_decode_utf8(text::decimal(expiry));
}

/// The cache gives back what was set for good, unless a sidecar that was there before
/// says that the entry has expired, or is no text.
pub proof fn law_get_gives_back_what_was_set_for_good(
    files: Map<Seq<char>, Seq<u8>>,
    base: Seq<char>,
    key: Seq<char>,
    value: Seq<u8>,
    now: u64,
)
    requires
        files.contains_key(sidecar_path(base, key)) ==> valid_utf8(
            files[sidecar_path(base, key)],
        ),
        !has_expired(sidecar_text(files, base, key), now),
    ensures
        stored(after_changes(files, set_changes(base, key, value, None)), base, key, now) == Some(
            value,
        ),
{
    let cs = set_changes(base, key, value, None);
    reveal_with_fuel(after_changes, 2);
    assert(cs.drop_last() =~= Seq::<FileChange>::empty());
    lemma_sidecar_is_another_file(base, key);
}

/// The cache gives nothing for an entry that was deleted, whatever the time.
pub proof fn law_deleted_entry_is_gone(
    files: Map<Seq<char>, Seq<u8>>,
    base: Seq<char>,
    key: Seq<char>,
    now: u64,
)
    ensures
        ({
            let cs = delete_changes(
                base,
                key,
                files.contains_key(entry_path(base, key)),
                files.contains_key(sidecar_path(base, key)),
            );
            let after = after_changes(files, cs);
            stored(after, base, key, now) is None && !after.contains_key(
                entry_path(base, key),
            ) && !after.contains_key(sidecar_path(base, key))
        }),
{
    let exists = files.contains_key(entry_path(base, key));
    let has_sidecar = files.contains_key(sidecar_path(base, key));
    let cs = delete_changes(base, key, exists, has_sidecar);
    reveal_with_fuel(after_changes, 3);
    lemma_sidecar_is_another_file(base, key);
    if exists && has_sidecar {
        assert(cs.drop_last() =~= seq![cs[0]]);
        assert(cs.drop_last().drop_last() =~= Seq::<FileChange>::empty());
    } else if exists || has_sidecar {
        assert(cs.drop_last() =~= Seq::<FileChange>::empty());
    }
}

/// Setting one key leaves what the cache gives for another, where neither is the name of
/// the other's sidecar.
pub proof fn law_keys_do_not_interfere(
    files: Map<Seq<char>, Seq<u8>>,
    base: Seq<char>,
    key: Seq<char>,
    other: Seq<char>,
    value: Seq<u8>,
    expiry: Option<Seq<char>>,
    now: u64,
)
    requires
        !text::begins_with(key, "/"@),
        !text::begins_with(other, "/"@),
        key != other,
        key != other + ".meta"@,
        other != key + ".meta"@,
    ensures
        stored(after_changes(files, set_changes(base, key, value, expiry)), base, other, now)
            == stored(files, base, other, now),
{
    lemma_sidecar_is_another_file(base, key);
    lemma_sidecar_is_another_file(base, other);
    let (k, o) = (key + ".meta"@, other + ".meta"@);
    if entry_path(base, key) == entry_path(base, other) {
        paths::lemma_joined_path_injective(base, key, other);
    }
    if entry_path(base, key) == sidecar_path(base, other) {
        paths::lemma_joined_path_injective(base, key, o);
    }
    if sidecar_path(base, key) == entry_path(base, other) {
        paths::lemma_joined_path_injective(base, k, other);
    }
    if sidecar_path(base, key) == sidecar_path(base, other) {
        paths::lemma_joined_path_injective(base, k, o);
        assert(k.take(key.len() as int) =~= key);
        assert(o.take(other.len() as int) =~= other);
    }
    let cs = set_changes(base, key, value, expiry);
    reveal_with_fuel(after_changes, 3);
    match expiry {
        Some(_) => {
            assert(cs.drop_last() =~= seq![cs[0]]);
            assert(cs.drop_last().drop_last() =~= Seq::<FileChange>::empty());
        },
        None => {
            assert(cs.drop_last() =~= Seq::<FileChange>::empty());
        },
    }
}

/// The sidecar of an entry stands beside it, under its name and `.meta`.
pub proof fn law_sidecar_stands_beside_its_entry(base: Seq<char>, key: Seq<char>)
    ensures
        sidecar_path(base, key) == entry_path(base, key) + ".meta"@,
        entry_path(base, key) == paths::joined_path(base, key),
{
    lemma_sidecar_is_another_file(base, key);
    assert(sidecar_path(base, key) =~= entry_path(base, key) + ".meta"@);
}

/// An entry that is not there is missed. One without a sidecar, or whose sidecar holds no
/// number, is fresh for good; one whose sidecar holds a second is fresh up to and at that
/// second, and expired from the next on.
pub proof fn law_lookup_follows_the_sidecar(sidecar: Option<Seq<char>>, text: Seq<char>, now: u64)
    ensures
        looked_up(false, sidecar, now) == Lookup::Miss,
        looked_up(true, None, now) == Lookup::Fresh,
        expiry_of(text) is None ==> looked_up(true, Some(text), now) == Lookup::Fresh,
        expiry_of(text) matches Some(e) ==> (looked_up(true, Some(text), now) == Lookup::Fresh
            <==> now <= e) && (looked_up(true, Some(text), now) == Lookup::Expired <==> now > e),
        needs_time(Some(text)) <==> expiry_of(text) is Some,
        !needs_time(None),
{
}

/// An entry is counted where its file was written and its expiry could be reckoned, whether or
/// not its sidecar was written.
pub proof fn law_written_entries_are_counted()
    ensures
        SetOutcome::Complete.counts_entry(),
        SetOutcome::SidecarFailed.counts_entry(),
        !SetOutcome::ClockFailed.counts_entry(),
        !SetOutcome::EntryFailed.counts_entry(),
{
}

/// An entry is set by writing its file with its value, and then its sidecar where it expires;
/// it is deleted by removing its file, and then its sidecar, where they are there.
pub proof fn law_entry_comes_before_its_sidecar(
    base: Seq<char>,
    key: Seq<char>,
    value: Seq<u8>,
    expiry: Seq<char>,
)
    ensures
        ({
            let (entry, sidecar) = (
                paths::joined_path(base, key),
                paths::joined_path(base, key + ".meta"@),
            );
            let write = FileChange::Write { path: entry, data: value };
            &&& set_changes(base, key, value, None) == seq![write]
            &&& set_changes(base, key, value, Some(expiry)) == seq![
                write,
                FileChange::Write { path: sidecar, data: encode_utf8(expiry) },
            ]
            &&& delete_changes(base, key, true, true) == seq![
                FileChange::Remove { path: entry },
                FileChange::Remove { path: sidecar },
            ]
            &&& delete_changes(base, key, true, false) == seq![
                FileChange::Remove { path: entry },
            ]
            &&& delete_changes(base, key, false, true) == seq![
                FileChange::Remove { path: sidecar },
            ]
            &&& delete_changes(base, key, false, false).len() == 0
        }),
{
    let (entry, sidecar) = (
        paths::joined_path(base, key),
        paths::joined_path(base, key + ".meta"@),
    );
    assert(set_changes(base, key, value, Some(expiry)) =~= seq![
        FileChange::Write { path: entry, data: value },
        FileChange::Write { path: sidecar, data: encode_utf8(expiry) },
    ]);
    assert(delete_changes(base, key, true, true) =~= seq![
        FileChange::Remove { path: entry },
        FileChange::Remove { path: sidecar },
    ]);
    assert(delete_changes(base, key, false, true) =~= seq![FileChange::Remove { path: sidecar }]);
}

/// A new cache accounts for its own directory, from nothing on, up to its limit in bytes, and
/// leaves its sidecars out.
pub proof fn law_cache_accounts_for_its_directory(
    c: FileSystemCache,
    base: Seq<char>,
    max_size_mb: u64,
)
    requires
        c.serves(base, max_size_mb),
    ensures
        c.base_path@ == base,
        c.evictor.dir@ == base,
        c.evictor.max_bytes == 1024 * (1024 * max_size_mb),
        c.evictor.skips() == Some("meta"@),
        c.evictor.counter == 0,
        c.evictor.has_background_task,
        !c.evictor.shutdown,
{
}

/// Changes are seen as they are: the path, and the bytes that are written there.
pub proof fn law_changes_are_seen_as_they_are(ops: Seq<FileOp>, i: int, sidecar: Option<&str>)
    requires
        0 <= i < ops.len(),
    ensures
        changes(ops).len() == ops.len(),
        ops[i] matches FileOp::Write { path, data } ==> changes(ops)[i] == (FileChange::Write {
            path: path@,
            data: blob::contents(data),
        }),
        ops[i] matches FileOp::Remove { path } ==> changes(ops)[i] == (FileChange::Remove {
            path: path@,
        }),
        sidecar is None ==> sidecar_view(sidecar) is None,
        sidecar is Some ==> sidecar_view(sidecar) == Some(sidecar->Some_0@),
{
}

/// A change of one file leaves every other file as it is.
pub proof fn law_change_is_local(
    files: Map<Seq<char>, Seq<u8>>,
    path: Seq<char>,
    other: Seq<char>,
    data: Seq<u8>,
)
    ensures
        ({
            let written = after_change(files, FileChange::Write { path, data });
            let removed = after_change(files, FileChange::Remove { path });
            &&& written.contains_key(path) && written[path] == data
            &&& !removed.contains_key(path)
            &&& other != path ==> {
                &&& written.contains_key(other) == files.contains_key(other)
                &&& removed.contains_key(other) == files.contains_key(other)
                &&& files.contains_key(other) ==> written[other] == files[other]
                    && removed[other] == files[other]
            }
        }),
{
}

/// A sidecar holds a second of expiry wherever it spells a number of sixty-four bits, and only
/// there.
pub proof fn law_sidecar_is_read_as_a_number(sidecar: Seq<char>)
    ensures
        ({
            let n = text::unsigned_value(encode_utf8(sidecar));
            &&& expiry_of(sidecar) is Some <==> n is Some && n->Some_0 <= u64::MAX
            &&& expiry_of(sidecar) is Some ==> expiry_of(sidecar) == n
        }),
{
}

} // verus!
