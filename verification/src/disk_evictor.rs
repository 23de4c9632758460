//! Keeping the size of a cache directory within a limit.
//!
//! A running counter follows the writes and deletions, so that the directory is listed
//! only at the start and for an eviction. An eviction goes by the files that are there,
//! the oldest first.

use vstd::prelude::*;
use vstd::utf8::*;

verus! {

/// What the file system says of a directory entry.
#[derive(Clone, Copy, Debug)]
pub struct FileMeta {
    /// Whether the entry is a regular file.
    pub is_file: bool,
    /// The size in bytes.
    pub len: u64,
    /// The time of the last change, in nanoseconds after the Unix epoch.
    pub modified: Option<i128>,
}

/// An entry of a directory: its file name, and what could be learned of it.
#[derive(Debug)]
pub struct DirEntry {
    pub name: Vec<u8>,
    pub meta: Option<FileMeta>,
}

/// The position of the last `b` in `s`.
pub open spec fn last_byte(s: Seq<u8>, b: u8) -> Option<int>
    decreases s.len(),
{
    if s.len() == 0 {
        None
    } else if s.last() == b {
        Some(s.len() - 1)
    } else {
        last_byte(s.drop_last(), b)
    }
}

/// The extension of a file name: what follows its last dot. A dot at the start begins no
/// extension.
pub open spec fn extension(name: Seq<u8>) -> Option<Seq<u8>> {
    if name == seq![46u8, 46u8] {
        None
    } else {
        match last_byte(name, 46) {
            Some(dot) => if dot == 0 {
                None
            } else {
                Some(name.skip(dot + 1))
            },
            None => None,
        }
    }
}

/// The text of an optional extension.
pub open spec fn ext_view(skip_ext: Option<&str>) -> Option<Seq<char>> {
    match skip_ext {
        Some(e) => Some(e@),
        None => None,
    }
}

/// Whether a file is left out of the accounting.
pub open spec fn skipped(name: Seq<u8>, skip_ext: Option<Seq<char>>) -> bool {
    skip_ext is Some && extension(name) == Some(encode_utf8(skip_ext->Some_0))
}

/// Whether an entry counts: a regular file that is not left out.
pub open spec fn counted(e: DirEntry, skip_ext: Option<Seq<char>>) -> bool {
    e.meta is Some && e.meta->Some_0.is_file && !skipped(e.name@, skip_ext)
}

/// The size of an entry that counts, zero for another.
pub open spec fn counted_size(e: DirEntry, skip_ext: Option<Seq<char>>) -> nat {
    if counted(e, skip_ext) {
        e.meta->Some_0.len as nat
    } else {
        0
    }
}

/// The size of all entries that count.
pub open spec fn total_size(entries: Seq<DirEntry>, skip_ext: Option<Seq<char>>) -> nat
    decreases entries.len(),
{
    if entries.len() == 0 {
        0
    } else {
        total_size(entries.drop_last(), skip_ext) + counted_size(entries.last(), skip_ext)
    }
}

/// The time of the last change; the epoch where it is not known.
pub open spec fn age_key(e: DirEntry) -> int {
    match e.meta->Some_0.modified {
        Some(t) => t as int,
        None => 0,
    }
}

/// Whether the entry at `i` goes before the one at `j`: by its time, and by its place in
/// the listing where the times are the same.
pub open spec fn goes_before(entries: Seq<DirEntry>, i: int, j: int) -> bool {
    age_key(entries[i]) < age_key(entries[j]) || (age_key(entries[i]) == age_key(entries[j]) && i
        < j)
}

/// Whether `order` holds the positions of the entries that count, each once, the oldest
/// first.
pub open spec fn oldest_first(
    entries: Seq<DirEntry>,
    order: Seq<usize>,
    skip_ext: Option<Seq<char>>,
) -> bool {
    &&& forall|a: int|
        0 <= a < order.len() ==> (#[trigger] order[a]) < entries.len() && counted(
            entries[order[a] as int],
            skip_ext,
        )
    &&& forall|i: int|
        0 <= i < entries.len() && counted(#[trigger] entries[i], skip_ext) ==> order.contains(
            i as usize,
        )
    &&& forall|a: int, b: int|
        0 <= a < b < order.len() ==> goes_before(
            entries,
            #[trigger] order[a] as int,
            #[trigger] order[b] as int,
        )
}

/// The size of the entries at the given positions.
pub open spec fn order_size(entries: Seq<DirEntry>, order: Seq<usize>) -> nat
    decreases order.len(),
{
    if order.len() == 0 {
        0
    } else {
        order_size(entries, order.drop_last())
            + entries[order.last() as int].meta->Some_0.len as nat
    }
}

proof fn lemma_last_byte(s: Seq<u8>, b: u8)
    ensures
        match last_byte(s, b) {
            Some(i) => 0 <= i < s.len() && s[i] == b && forall|k: int|
                i < k < s.len() ==> #[trigger] s[k] != b,
            None => forall|k: int| 0 <= k < s.len() ==> #[trigger] s[k] != b,
        },
    decreases s.len(),
{
    if s.len() > 0 && s.last() != b {
        lemma_last_byte(s.drop_last(), b);
        assert forall|k: int| 0 <= k < s.len() - 1 implies #[trigger] s[k] == s.drop_last()[k] by {}
    }
}

/// Whether two byte strings are the same.
fn same_bytes(a: &[u8], from: usize, b: &[u8]) -> (r: bool)
    requires
        from <= a@.len(),
    ensures
        r == (a@.skip(from as int) == b@),
{
    let n: usize = a.len();
    if n - from != b.len() {
        return false;
    }
    let mut i: usize = 0;
    while i < b.len()
        invariant
            i <= b@.len(),
            n == a@.len(),
            from <= a@.len(),
            a@.len() - from == b@.len(),
            forall|k: int| 0 <= k < i ==> a@[from + k] == b@[k],
        decreases b.len() - i,
    {
        if a[from + i] != b[i] {
            proof {
                assert(a@.skip(from as int)[i as int] == a@[from + i]);
            }
            return false;
        }
        i += 1;
    }
    proof {
        assert(a@.skip(from as int) =~= b@);
    }
    true
}

/// Where the extension of a file name starts.
fn extension_start(name: &[u8]) -> (r: Option<usize>)
    ensures
        match r {
            Some(i) => i <= name@.len() && extension(name@) == Some(name@.skip(i as int)),
            None => extension(name@) is None,
        },
{
    proof {
        lemma_last_byte(name@, 46);
    }
    if name.len() == 2 && name[0] == 46 && name[1] == 46 {
        proof {
            assert(name@ =~= seq![46u8, 46u8]);
        }
        return None;
    }
    proof {
        if name@ == seq![46u8, 46u8] {
            assert(name@[0] == 46 && name@[1] == 46);
        }
    }
    let mut i: usize = name.len();
    while i > 0
        invariant
            i <= name@.len(),
            name@ != seq![46u8, 46u8],
            forall|k: int| i <= k < name@.len() ==> #[trigger] name@[k] != 46,
            match last_byte(name@, 46) {
                Some(i) => 0 <= i < name@.len() && name@[i] == 46 && forall|k: int|
                    i < k < name@.len() ==> #[trigger] name@[k] != 46,
                None => forall|k: int| 0 <= k < name@.len() ==> #[trigger] name@[k] != 46,
            },
        decreases i,
    {
        if name[i - 1] == 46 {
            return if i == 1 {
                None
            } else {
                Some(i)
            };
        }
        i -= 1;
    }
    None
}

/// Whether a file is left out of the accounting.
pub fn should_skip(name: &[u8], skip_ext: Option<&str>) -> (b: bool)
    ensures
        b == skipped(name@, ext_view(skip_ext)),
{
    match skip_ext {
        Some(ext) => match extension_start(name) {
            Some(start) => same_bytes(name, start, ext.as_bytes()),
            None => false,
        },
        None => false,
    }
}

/// Whether an entry counts.
fn is_counted(e: &DirEntry, skip_ext: Option<&str>) -> (b: bool)
    ensures
        b == counted(*e, ext_view(skip_ext)),
{
    match &e.meta {
        Some(m) => m.is_file && !should_skip(e.name.as_slice(), skip_ext),
        None => false,
    }
}

/// A listing holds no more than its entries.
proof fn lemma_total_size_monotone(entries: Seq<DirEntry>, skip_ext: Option<Seq<char>>, n: int)
    requires
        0 <= n <= entries.len(),
    ensures
        total_size(entries.take(n), skip_ext) <= total_size(entries, skip_ext),
    decreases entries.len(),
{
    if n < entries.len() {
        lemma_total_size_monotone(entries.drop_last(), skip_ext, n);
        assert(entries.drop_last().take(n) =~= entries.take(n));
    } else {
        assert(entries.take(n) =~= entries);
    }
}

/// The size of all entries that count. A directory that does not exist has none.
pub fn scan_total_size(listing: Option<&Vec<DirEntry>>, skip_ext: Option<&str>) -> (total: u64)
    requires
        listing is Some ==> total_size(listing->Some_0@, ext_view(skip_ext)) <= u64::MAX,
    ensures
        total == match listing {
            Some(entries) => total_size(entries@, ext_view(skip_ext)),
            None => 0,
        },
{
    let entries: &Vec<DirEntry> = match listing {
        Some(e) => e,
        None => {
            return 0;
        },
    };
    let mut total: u64 = 0;
    let mut i: usize = 0;
    let ghost skip = ext_view(skip_ext);
    while i < entries.len()
        invariant
            i <= entries@.len(),
            skip == ext_view(skip_ext),
            total == total_size(entries@.take(i as int), skip),
            total_size(entries@, skip) <= u64::MAX,
        decreases entries.len() - i,
    {
        proof {
            assert(entries@.take(i + 1).drop_last() =~= entries@.take(i as int));
            lemma_total_size_monotone(entries@, skip, i + 1);
        }
        if is_counted(&entries[i], skip_ext) {
            if let Some(m) = &entries[i].meta {
                total = total + m.len;
            }
        }
        i += 1;
    }
    proof {
        assert(entries@.take(i as int) =~= entries@);
    }
    total
}

/// One more position adds its size, wherever it is put.
proof fn lemma_order_size_insert(entries: Seq<DirEntry>, order: Seq<usize>, at: int, i: usize)
    requires
        0 <= at <= order.len(),
    ensures
        order_size(entries, order.insert(at, i)) == order_size(entries, order)
            + entries[i as int].meta->Some_0.len,
    decreases order.len(),
{
    let more = order.insert(at, i);
    if at == order.len() {
        assert(more.drop_last() =~= order);
    } else {
        lemma_order_size_insert(entries, order.drop_last(), at, i);
        assert(more.drop_last() =~= order.drop_last().insert(at, i));
        assert(more.last() == order.last());
    }
}

/// The time by which an entry is ordered.
fn time_of(e: &DirEntry) -> (t: i128)
    requires
        e.meta is Some,
    ensures
        t == age_key(*e),
{
    match &e.meta {
        Some(m) => match m.modified {
            Some(t) => t,
            None => 0,
        },
        None => 0,
    }
}

/// Where a later entry of the listing belongs among earlier ones.
fn insertion_point(entries: &Vec<DirEntry>, order: &Vec<usize>, i: usize) -> (at: usize)
    requires
        i < entries@.len(),
        entries@[i as int].meta is Some,
        forall|a: int|
            0 <= a < order@.len() ==> (#[trigger] order@[a]) < i
                && entries@[order@[a] as int].meta is Some,
        forall|a: int, b: int|
            0 <= a < b < order@.len() ==> goes_before(
                entries@,
                #[trigger] order@[a] as int,
                #[trigger] order@[b] as int,
            ),
    ensures
        at <= order@.len(),
        forall|a: int|
            0 <= a < at ==> goes_before(entries@, #[trigger] order@[a] as int, i as int),
        forall|a: int|
            at <= a < order@.len() ==> goes_before(entries@, i as int, #[trigger] order@[a] as int),
{
    let t: i128 = time_of(&entries[i]);
    let mut at: usize = order.len();
    while at > 0
        invariant
            at <= order@.len(),
            i < entries@.len(),
            t == age_key(entries@[i as int]),
            forall|a: int|
                0 <= a < order@.len() ==> (#[trigger] order@[a]) < i
                    && entries@[order@[a] as int].meta is Some,
            forall|a: int, b: int|
                0 <= a < b < order@.len() ==> goes_before(
                    entries@,
                    #[trigger] order@[a] as int,
                    #[trigger] order@[b] as int,
                ),
            forall|a: int|
                at <= a < order@.len() ==> goes_before(
                    entries@,
                    i as int,
                    #[trigger] order@[a] as int,
                ),
        decreases at,
    {
        let before: usize = order[at - 1];
        if time_of(&entries[before]) <= t {
            proof {
                assert forall|a: int| 0 <= a < at implies goes_before(
                    entries@,
                    #[trigger] order@[a] as int,
                    i as int,
                ) by {
                    if a < at - 1 {
                        assert(goes_before(entries@, order@[a] as int, order@[at - 1] as int));
                    }
                }
            }
            return at;
        }
        at -= 1;
    }
    at
}

/// A position put where it belongs among earlier ones keeps them in order.
proof fn lemma_insert_keeps_order(
    entries: Seq<DirEntry>,
    order: Seq<usize>,
    skip_ext: Option<Seq<char>>,
    at: int,
    i: usize,
)
    requires
        i < entries.len(),
        0 <= at <= order.len(),
        oldest_first(entries.take(i as int), order, skip_ext),
        counted(entries[i as int], skip_ext),
        forall|a: int| 0 <= a < at ==> goes_before(entries, #[trigger] order[a] as int, i as int),
        forall|a: int|
            at <= a < order.len() ==> goes_before(entries, i as int, #[trigger] order[a] as int),
    ensures
        oldest_first(entries.take(i + 1), order.insert(at, i), skip_ext),
{
    let old_part = entries.take(i as int);
    let part = entries.take(i + 1);
    let more = order.insert(at, i);
    assert forall|a: int| 0 <= a < more.len() implies (#[trigger] more[a]) < part.len() && counted(
        part[more[a] as int],
        skip_ext,
    ) by {
        if a < at {
            assert(more[a] == order[a]);
        } else if a > at {
            assert(more[a] == order[a - 1]);
        }
    }
    assert forall|j: int|
        0 <= j < part.len() && counted(#[trigger] part[j], skip_ext) implies more.contains(
        j as usize,
    ) by {
        if j < i {
            assert(old_part[j] == part[j]);
            let a = choose|a: int| 0 <= a < order.len() && order[a] == j as usize;
            if a < at {
                assert(more[a] == order[a]);
            } else {
                assert(more[a + 1] == order[a]);
            }
        } else {
            assert(more[at] == i);
        }
    }
    assert forall|a: int, b: int| 0 <= a < b < more.len() implies goes_before(
        part,
        #[trigger] more[a] as int,
        #[trigger] more[b] as int,
    ) by {
        let (x, y) = (
            if a < at {
                a
            } else {
                a - 1
            },
            if b < at {
                b
            } else {
                b - 1
            },
        );
        if a != at && b != at {
            assert(goes_before(old_part, order[x] as int, order[y] as int));
        }
    }
}

/// One eviction pass over a listing: which files go, in which order, until the limit is
/// met.
#[derive(Debug)]
pub struct EvictionPass {
    /// The listing.
    pub entries: Vec<DirEntry>,
    /// The positions of the files that count, the oldest first.
    pub order: Vec<usize>,
    /// How many of them were tried.
    pub tried: usize,
    /// The size of the files that count and are still there.
    pub total: u64,
    /// The size of the files that were removed.
    pub freed: u64,
    /// The limit.
    pub max_bytes: u64,
    /// Whether files have a sidecar that goes with them.
    pub sidecars: bool,
}

/// The name of the sidecar of a file: its own, and `.meta`.
pub open spec fn sidecar_name(name: Seq<u8>) -> Seq<u8> {
    name + seq![46u8, 109u8, 101u8, 116u8, 97u8]
}

/// The sizes of some files are no more than those of more files.
proof fn lemma_order_size_monotone(entries: Seq<DirEntry>, order: Seq<usize>, n: int)
    requires
        0 <= n <= order.len(),
    ensures
        order_size(entries, order.take(n)) <= order_size(entries, order),
    decreases order.len(),
{
    if n < order.len() {
        lemma_order_size_monotone(entries, order.drop_last(), n);
        assert(order.drop_last().take(n) =~= order.take(n));
    } else {
        assert(order.take(n) =~= order);
    }
}

impl EvictionPass {
    /// Positions are of the listing; what is there and what was removed are all the files
    /// that count; no more was removed than was tried.
    pub open spec fn wf(self) -> bool {
        &&& forall|a: int|
            0 <= a < self.order@.len() ==> (#[trigger] self.order@[a]) < self.entries@.len()
                && self.entries@[self.order@[a] as int].meta is Some
        &&& self.tried <= self.order@.len()
        &&& self.total + self.freed == order_size(self.entries@, self.order@)
        &&& self.total + self.freed <= u64::MAX
        &&& self.freed <= order_size(self.entries@, self.order@.take(self.tried as int))
    }

    /// The file to remove next: none once the limit is met or all were tried.
    pub open spec fn next_victim(self) -> Option<int> {
        if self.total > self.max_bytes && self.tried < self.order@.len() {
            Some(self.order@[self.tried as int] as int)
        } else {
            None
        }
    }

    /// The size of the file to remove next.
    pub open spec fn victim_size(self) -> nat {
        self.entries@[self.next_victim()->Some_0].meta->Some_0.len as nat
    }

    /// Whether nothing but the progress of the pass differs.
    pub open spec fn same_pass(self, other: EvictionPass) -> bool {
        &&& self.entries == other.entries
        &&& self.order == other.order
        &&& self.max_bytes == other.max_bytes
        &&& self.sidecars == other.sidecars
    }

    /// The position of the file to remove next.
    pub fn victim(&self) -> (r: Option<usize>)
        requires
            self.wf(),
        ensures
            match r {
                Some(i) => self.next_victim() == Some(i as int) && i < self.entries@.len(),
                None => self.next_victim() is None,
            },
    {
        if self.total > self.max_bytes && self.tried < self.order.len() {
            Some(self.order[self.tried])
        } else {
            None
        }
    }

    /// The next file was removed. Returns the name of its sidecar, which is to be removed
    /// too, where files have one.
    pub fn removed(&mut self) -> (sidecar: Option<Vec<u8>>)
        requires
            old(self).wf(),
            old(self).next_victim() is Some,
        ensures
            final(self).wf(),
            final(self).same_pass(*old(self)),
            final(self).tried == old(self).tried + 1,
            final(self).total == old(self).total - old(self).victim_size(),
            final(self).freed == old(self).freed + old(self).victim_size(),
            match sidecar {
                Some(name) => old(self).sidecars && name@ == sidecar_name(
                    old(self).entries@[old(self).next_victim()->Some_0].name@,
                ),
                None => !old(self).sidecars,
            },
    {
        let count: usize = self.order.len();
        let i: usize = self.order[self.tried];
        let size: u64 = match &self.entries[i].meta {
            Some(m) => m.len,
            None => 0,
        };
        proof {
            let (e, o, n) = (self.entries@, self.order@, self.tried as int);
            assert(o.take(n + 1).drop_last() =~= o.take(n));
            lemma_order_size_monotone(e, o, n + 1);
            assert(n < count);
        }
        self.total = self.total - size;
        self.freed = self.freed + size;
        self.tried = self.tried + 1;
        if self.sidecars {
            let mut name: Vec<u8> = Vec::new();
            let source: &Vec<u8> = &self.entries[i].name;
            let mut k: usize = 0;
            while k < source.len()
                invariant
                    k <= source@.len(),
                    name@ == source@.take(k as int),
                decreases source.len() - k,
            {
                name.push(source[k]);
                proof {
                    assert(name@ =~= source@.take(k + 1));
                }
                k += 1;
            }
            name.push(46);
            name.push(109);
            name.push(101);
            name.push(116);
            name.push(97);
            proof {
                assert(source@.take(k as int) =~= source@);
                assert(name@ =~= sidecar_name(source@));
            }
            Some(name)
        } else {
            None
        }
    }

    /// The next file could not be removed. It stays, and the pass goes on.
    pub fn kept(&mut self)
        requires
            old(self).wf(),
            old(self).next_victim() is Some,
        ensures
            final(self).wf(),
            final(self).same_pass(*old(self)),
            final(self).tried == old(self).tried + 1,
            final(self).total == old(self).total,
            final(self).freed == old(self).freed,
    {
        proof {
            let (e, o, n) = (self.entries@, self.order@, self.tried as int);
            assert(o.take(n + 1).drop_last() =~= o.take(n));
        }
        let count: usize = self.order.len();
        assert(self.tried < count);
        self.tried = self.tried + 1;
    }
}

/// Starts an eviction pass over a listing.
pub fn run_eviction(entries: Vec<DirEntry>, max_bytes: u64, skip_ext: Option<&str>) -> (pass:
    EvictionPass)
    requires
        total_size(entries@, ext_view(skip_ext)) <= u64::MAX,
    ensures
        pass.wf(),
        pass.entries == entries,
        oldest_first(entries@, pass.order@, ext_view(skip_ext)),
        pass.total == total_size(entries@, ext_view(skip_ext)),
        pass.tried == 0,
        pass.freed == 0,
        pass.max_bytes == max_bytes,
        pass.sidecars == (skip_ext is Some),
{
    let mut order: Vec<usize> = Vec::new();
    let mut total: u64 = 0;
    let mut i: usize = 0;
    let ghost skip = ext_view(skip_ext);
    while i < entries.len()
        invariant
            i <= entries@.len(),
            skip == ext_view(skip_ext),
            total_size(entries@, skip) <= u64::MAX,
            total == total_size(entries@.take(i as int), skip),
            total == order_size(entries@, order@),
            oldest_first(entries@.take(i as int), order@, skip),
        decreases entries.len() - i,
    {
        let ghost part = entries@.take(i as int);
        proof {
            assert(entries@.take(i + 1).drop_last() =~= part);
            lemma_total_size_monotone(entries@, skip, i + 1);
            assert forall|a: int| 0 <= a < order@.len() implies (#[trigger] order@[a]) < i
                && entries@[order@[a] as int].meta is Some by {
                assert(part[order@[a] as int] == entries@[order@[a] as int]);
            }
            assert forall|a: int, b: int| 0 <= a < b < order@.len() implies goes_before(
                entries@,
                #[trigger] order@[a] as int,
                #[trigger] order@[b] as int,
            ) by {
                assert(goes_before(part, order@[a] as int, order@[b] as int));
            }
        }
        if is_counted(&entries[i], skip_ext) {
            let at: usize = insertion_point(&entries, &order, i);
            proof {
                lemma_insert_keeps_order(entries@, order@, skip, at as int, i);
                lemma_order_size_insert(entries@, order@, at as int, i);
            }
            if let Some(m) = &entries[i].meta {
                total = total + m.len;
            }
            order.insert(at, i);
        } else {
            proof {
                let more = entries@.take(i + 1);
                assert forall|j: int|
                    0 <= j < more.len() && counted(#[trigger] more[j], skip) implies order@.contains(
                    j as usize,
                ) by {
                    assert(part[j] == more[j]);
                }
                assert forall|a: int, b: int| 0 <= a < b < order@.len() implies goes_before(
                    more,
                    #[trigger] order@[a] as int,
                    #[trigger] order@[b] as int,
                ) by {
                    assert(goes_before(part, order@[a] as int, order@[b] as int));
                }
            }
        }
        i += 1;
    }
    proof {
        assert(entries@.take(i as int) =~= entries@);
        assert(order@.take(0) =~= Seq::<usize>::empty());
    }
    EvictionPass {
        entries,
        order,
        tried: 0,
        total,
        freed: 0,
        max_bytes,
        sidecars: skip_ext.is_some(),
    }
}

/// What the background task does when it wakes.
#[derive(Clone, Copy, PartialEq, Eq, Structural, Debug)]
pub enum Wake {
    /// It ends.
    Stop,
    /// It goes on waiting.
    Idle,
    /// It runs an eviction pass.
    Evict,
}

/// The size of a cache directory, followed by a counter.
#[derive(Debug)]
pub struct DiskEvictor {
    /// The directory.
    pub dir: String,
    /// The limit.
    pub max_bytes: u64,
    /// The extension of the files that are left out.
    pub skip_ext: Option<String>,
    /// The counter.
    pub counter: u64,
    /// Whether a background task evicts.
    pub has_background_task: bool,
    /// Whether the background task is to end.
    pub shutdown: bool,
}

/// `a - b`, zero where `b` is larger.
pub open spec fn minus(a: nat, b: nat) -> nat {
    if b <= a {
        (a - b) as nat
    } else {
        0
    }
}

/// Takes `n` off a counter, down to zero.
pub fn saturating_sub(counter: &mut u64, n: u64)
    ensures
        *final(counter) == minus(*old(counter) as nat, n as nat),
{
    *counter = if n <= *counter {
        *counter - n
    } else {
        0
    };
}

impl DiskEvictor {
    /// The extension of the files that are left out, as the specification sees it.
    pub open spec fn skips(self) -> Option<Seq<char>> {
        match self.skip_ext {
            Some(e) => Some(e@),
            None => None,
        }
    }

    /// Whether nothing but the counter differs.
    pub open spec fn same_settings(self, other: DiskEvictor) -> bool {
        &&& self.dir == other.dir
        &&& self.max_bytes == other.max_bytes
        &&& self.skip_ext == other.skip_ext
        &&& self.has_background_task == other.has_background_task
        &&& self.shutdown == other.shutdown
    }

    /// An evictor with a background task.
    pub fn new(dir: String, max_bytes: u64, skip_ext: Option<String>) -> (e: DiskEvictor)
        ensures
            e == (DiskEvictor {
                dir,
                max_bytes,
                skip_ext,
                counter: 0,
                has_background_task: true,
                shutdown: false,
            }),
    {
        DiskEvictor {
            dir,
            max_bytes,
            skip_ext,
            counter: 0,
            has_background_task: true,
            shutdown: false,
        }
    }

    /// An evictor without a background task: the caller scans and evicts.
    pub fn manual(dir: String, max_bytes: u64, skip_ext: Option<String>) -> (e: DiskEvictor)
        ensures
            e == (DiskEvictor {
                dir,
                max_bytes,
                skip_ext,
                counter: 0,
                has_background_task: false,
                shutdown: false,
            }),
    {
        DiskEvictor {
            dir,
            max_bytes,
            skip_ext,
            counter: 0,
            has_background_task: false,
            shutdown: false,
        }
    }

    /// The extension of the files that are left out.
    fn skip(&self) -> (r: Option<&str>)
        ensures
            ext_view(r) == self.skips(),
    {
        match &self.skip_ext {
            Some(e) => Some(e.as_str()),
            None => None,
        }
    }

    /// Sets the counter to the size of the files that are there. Returns whether it
    /// is over the limit.
    pub fn scan(&mut self, listing: Option<&Vec<DirEntry>>) -> (over: bool)
        requires
            listing is Some ==> total_size(listing->Some_0@, old(self).skips()) <= u64::MAX,
        ensures
            final(self).same_settings(*old(self)),
            final(self).counter == match listing {
                Some(entries) => total_size(entries@, old(self).skips()),
                None => 0,
            },
            over == (final(self).counter > final(self).max_bytes),
    {
        let size: u64 = scan_total_size(listing, self.skip());
        self.counter = size;
        size > self.max_bytes
    }

    /// Starts an eviction pass over the files that are there.
    pub fn evict(&self, entries: Vec<DirEntry>) -> (pass: EvictionPass)
        requires
            total_size(entries@, self.skips()) <= u64::MAX,
        ensures
            pass.wf(),
            pass.entries == entries,
            oldest_first(entries@, pass.order@, self.skips()),
            pass.total == total_size(entries@, self.skips()),
            pass.tried == 0,
            pass.freed == 0,
            pass.max_bytes == self.max_bytes,
            pass.sidecars == (self.skip_ext is Some),
    {
        run_eviction(entries, self.max_bytes, self.skip())
    }

    /// Takes what a pass freed off the counter. Returns whether it is still over the
    /// limit.
    pub fn evicted(&mut self, freed: u64) -> (over: bool)
        ensures
            final(self).same_settings(*old(self)),
            final(self).counter == minus(old(self).counter as nat, freed as nat),
            over == (final(self).counter > final(self).max_bytes),
    {
        self.track_delete(freed);
        self.counter > self.max_bytes
    }

    /// Notes a write of `size` bytes. Returns whether the background task is to evict.
    pub fn track_write(&mut self, size: u64) -> (evict: bool)
        requires
            old(self).counter + size <= u64::MAX,
        ensures
            final(self).same_settings(*old(self)),
            final(self).counter == old(self).counter + size,
            evict == (final(self).counter > final(self).max_bytes
                && final(self).has_background_task),
    {
        self.counter = self.counter + size;
        self.counter > self.max_bytes && self.has_background_task
    }

    /// Notes a deletion of `size` bytes.
    pub fn track_delete(&mut self, size: u64)
        ensures
            final(self).same_settings(*old(self)),
            final(self).counter == minus(old(self).counter as nat, size as nat),
    {
        saturating_sub(&mut self.counter, size);
    }

    /// What the background task does when it wakes.
    pub fn wake(&self) -> (w: Wake)
        ensures
            w == if self.shutdown {
                Wake::Stop
            } else if self.counter <= self.max_bytes {
                Wake::Idle
            } else {
                Wake::Evict
            },
    {
        if self.shutdown {
            Wake::Stop
        } else if self.counter <= self.max_bytes {
            Wake::Idle
        } else {
            Wake::Evict
        }
    }

    /// A handle is dropped while `handles` of them are held, the background task's among
    /// them. Returns whether the background task is to be woken, to end.
    pub fn handle_dropped(&mut self, handles: usize) -> (wake: bool)
        ensures
            wake == (old(self).has_background_task && handles == 2),
            *final(self) == (DiskEvictor {
                shutdown: old(self).shutdown || wake,
                ..*old(self)
            }),
    {
        if self.has_background_task && handles == 2 {
            self.shutdown = true;
            true
        } else {
            false
        }
    }

    /// The directory.
    pub fn dir(&self) -> (d: &str)
        ensures
            d@ == self.dir@,
    {
        self.dir.as_str()
    }

    /// The counter in bytes.
    pub fn current_bytes(&self) -> (n: u64)
        ensures
            n == self.counter,
    {
        self.counter
    }
}

/// However a pass went, once no file is to be removed the limit is met or every file that
/// counts was tried.
pub proof fn law_pass_ends_at_limit(pass: EvictionPass)
    requires
        pass.wf(),
        pass.next_victim() is None,
    ensures
        pass.total <= pass.max_bytes || pass.tried == pass.order@.len(),
{
}

/// Where nothing is over the limit, a pass removes nothing.
pub proof fn law_nothing_goes_under_limit(pass: EvictionPass)
    requires
        pass.total <= pass.max_bytes,
    ensures
        pass.next_victim() is None,
{
}

/// A file goes only once every older file was tried.
pub proof fn law_oldest_goes_first(pass: EvictionPass, skip_ext: Option<Seq<char>>, older: int)
    requires
        pass.wf(),
        oldest_first(pass.entries@, pass.order@, skip_ext),
        pass.next_victim() is Some,
        0 <= older < pass.entries@.len() <= usize::MAX,
        counted(pass.entries@[older], skip_ext),
        goes_before(pass.entries@, older, pass.next_victim()->Some_0),
    ensures
        exists|a: int|
            0 <= a < pass.tried && #[trigger] pass.order@[a] == older,
{
    let a = choose|a: int| 0 <= a < pass.order@.len() && pass.order@[a] == older as usize;
    let t = pass.tried as int;
    if a > t {
        assert(goes_before(pass.entries@, pass.order@[t] as int, pass.order@[a] as int));
    }
}

/// The sizes of the files from a position on.
proof fn lemma_order_size_split(entries: Seq<DirEntry>, order: Seq<usize>, n: int)
    requires
        0 <= n <= order.len(),
    ensures
        order_size(entries, order) == order_size(entries, order.take(n)) + order_size(
            entries,
            order.skip(n),
        ),
    decreases order.len(),
{
    if n == order.len() {
        assert(order.take(n) =~= order);
        assert(order.skip(n) =~= Seq::<usize>::empty());
    } else {
        let shorter = order.drop_last();
        lemma_order_size_split(entries, shorter, n);
        assert(shorter.take(n) =~= order.take(n));
        assert(order.skip(n).drop_last() =~= shorter.skip(n));
        assert(order.skip(n).last() == order.last());
    }
}

/// Where every file that was tried could be removed, a pass that has ended meets the
/// limit, and what is left is the files that were not tried.
pub proof fn law_successful_pass_meets_limit(pass: EvictionPass)
    requires
        pass.wf(),
        pass.next_victim() is None,
        pass.freed == order_size(pass.entries@, pass.order@.take(pass.tried as int)),
    ensures
        pass.total <= pass.max_bytes,
        pass.total == order_size(pass.entries@, pass.order@.skip(pass.tried as int)),
{
    let n = pass.tried as int;
    lemma_order_size_split(pass.entries@, pass.order@, n);
    if n == pass.order@.len() {
        assert(pass.order@.skip(n) =~= Seq::<usize>::empty());
    }
}

/// With no limit left at all, a pass in which every file could be removed leaves no bytes
/// of a file that counts.
pub proof fn law_zero_limit_frees_everything(pass: EvictionPass)
    requires
        pass.wf(),
        pass.next_victim() is None,
        pass.max_bytes == 0,
        pass.freed == order_size(pass.entries@, pass.order@.take(pass.tried as int)),
    ensures
        pass.freed == order_size(pass.entries@, pass.order@),
{
    law_successful_pass_meets_limit(pass);
}

/// A counter that was right before a pass is right after it, however the pass went.
pub proof fn law_counter_stays_right_over_pass(pass: EvictionPass, counter: nat)
    requires
        pass.wf(),
        counter == order_size(pass.entries@, pass.order@),
    ensures
        minus(counter, pass.freed as nat) == pass.total,
{
}

/// Deletions never take the counter below zero, and a deletion of what was written
/// undoes the write.
pub proof fn law_counter_saturates(counter: nat, written: nat, deleted: nat)
    ensures
        minus(counter + written, written) == counter,
        deleted >= counter ==> minus(counter, deleted) == 0,
        minus(0, deleted) == 0,
{
}

/// Of two files that count, the one that was changed earlier comes earlier in the order of a
/// pass; a file whose time is not known counts as changed at the epoch.
pub proof fn law_order_goes_by_the_time_of_change(
    entries: Seq<DirEntry>,
    order: Seq<usize>,
    skip_ext: Option<Seq<char>>,
    a: int,
    b: int,
)
    requires
        oldest_first(entries, order, skip_ext),
        0 <= a < order.len(),
        0 <= b < order.len(),
    ensures
        ({
            let (x, y) = (
                entries[order[a] as int].meta->Some_0.modified,
                entries[order[b] as int].meta->Some_0.modified,
            );
            &&& x is Some && y is Some && x->Some_0 < y->Some_0 ==> a < b
            &&& x is Some && y is None && x->Some_0 < 0 ==> a < b
            &&& x is None && y is Some && 0 < y->Some_0 ==> a < b
        }),
{
    if b < a {
        assert(goes_before(entries, order[b] as int, order[a] as int));
    }
}

/// Of two files that were changed at the same time, the one that the listing gave first
/// comes earlier in the order of a pass.
pub proof fn law_order_keeps_the_listing(
    entries: Seq<DirEntry>,
    order: Seq<usize>,
    skip_ext: Option<Seq<char>>,
    a: int,
    b: int,
)
    requires
        oldest_first(entries, order, skip_ext),
        0 <= a < order.len(),
        0 <= b < order.len(),
        entries[order[a] as int].meta->Some_0.modified
            == entries[order[b] as int].meta->Some_0.modified,
        order[a] < order[b],
    ensures
        a < b,
{
    if b < a {
        assert(goes_before(entries, order[b] as int, order[a] as int));
    }
}

/// The order of a pass holds each file that counts exactly once, and nothing else: regular
/// files whose extension is not the one that is left out.
pub proof fn law_order_holds_each_file_once(
    entries: Seq<DirEntry>,
    order: Seq<usize>,
    skip_ext: Option<Seq<char>>,
    i: usize,
    a: int,
    b: int,
)
    requires
        oldest_first(entries, order, skip_ext),
        0 <= a < order.len(),
        0 <= b < order.len(),
        i < entries.len(),
    ensures
        order[a] == order[b] ==> a == b,
        order[a] < entries.len(),
        order.contains(i) <==> {
            &&& entries[i as int].meta is Some
            &&& entries[i as int].meta->Some_0.is_file
            &&& skip_ext is Some ==> extension(entries[i as int].name@) != Some(
                encode_utf8(skip_ext->Some_0),
            )
        },
{
    if a < b {
        assert(goes_before(entries, order[a] as int, order[b] as int));
    } else if b < a {
        assert(goes_before(entries, order[b] as int, order[a] as int));
    }
    if order.contains(i) {
        let k = choose|k: int| 0 <= k < order.len() && order[k] == i;
        assert(counted(entries[order[k] as int], skip_ext));
    }
}

/// What stands after the last dot of a name is its extension, where something stands before
/// that dot; a name without a dot, or with one at its start alone, has none.
pub proof fn law_extension_follows_the_last_dot(stem: Seq<u8>, ext: Seq<u8>)
    requires
        forall|i: int| 0 <= i < ext.len() ==> #[trigger] ext[i] != 46,
    ensures
        stem.len() > 0 && stem.push(46) + ext != seq![46u8, 46u8] ==> extension(
            stem.push(46) + ext,
        ) == Some(ext),
        extension(seq![46u8] + ext) is None,
        extension(ext) is None,
{
    let name = stem.push(46) + ext;
    lemma_last_byte(name, 46);
    assert(name[stem.len() as int] == 46);
    let dot = last_byte(name, 46)->Some_0;
    if dot > stem.len() {
        assert(name[dot] == ext[dot - stem.len() - 1]);
    }
    assert(dot == stem.len());
    assert(name.skip(dot + 1) =~= ext);
    let hidden = seq![46u8] + ext;
    lemma_last_byte(hidden, 46);
    assert(hidden[0] == 46);
    let at = last_byte(hidden, 46)->Some_0;
    if at > 0 {
        assert(hidden[at] == ext[at - 1]);
    }
    lemma_last_byte(ext, 46);
    if last_byte(ext, 46) is Some {
        assert(ext[last_byte(ext, 46)->Some_0] == 46);
    }
}

/// The size of a listing is the sum of the sizes of its parts, and a single entry has the
/// size of its file, where it counts.
pub proof fn law_total_size_is_a_sum(
    a: Seq<DirEntry>,
    b: Seq<DirEntry>,
    e: DirEntry,
    skip_ext: Option<Seq<char>>,
)
    ensures
        total_size(a + b, skip_ext) == total_size(a, skip_ext) + total_size(b, skip_ext),
        total_size(Seq::empty(), skip_ext) == 0,
        total_size(seq![e], skip_ext) == if e.meta is Some && e.meta->Some_0.is_file && (
        skip_ext is Some ==> extension(e.name@) != Some(encode_utf8(skip_ext->Some_0))) {
            e.meta->Some_0.len as nat
        } else {
            0
        },
    decreases b.len(),
{
    reveal_with_fuel(total_size, 2);
    assert(seq![e].drop_last() =~= Seq::<DirEntry>::empty());
    if b.len() == 0 {
        assert(a + b =~= a);
    } else {
        assert((a + b).drop_last() =~= a + b.drop_last());
        assert((a + b).last() == b.last());
        law_total_size_is_a_sum(a, b.drop_last(), e, skip_ext);
    }
}

/// The sizes at positions add up one by one.
pub proof fn law_order_size_is_a_sum(entries: Seq<DirEntry>, order: Seq<usize>, i: usize)
    ensures
        order_size(entries, Seq::empty()) == 0,
        order_size(entries, order.push(i)) == order_size(entries, order)
            + entries[i as int].meta->Some_0.len,
{
    assert(order.push(i).drop_last() =~= order);
}

/// The sidecar of a file has its name and the five bytes of `.meta` after it.
pub proof fn law_sidecar_name_ends_in_meta(name: Seq<u8>)
    ensures
        sidecar_name(name).len() == name.len() + 5,
        sidecar_name(name).take(name.len() as int) == name,
        sidecar_name(name).skip(name.len() as int) == encode_utf8(".meta"@),
{
    reveal_strlit(".meta");
    is_ascii_chars_encode_utf8(".meta"@);
    assert(sidecar_name(name).take(name.len() as int) =~= name);
    assert(sidecar_name(name).skip(name.len() as int) =~= encode_utf8(".meta"@));
}

/// A pass goes on with the first file that was not tried, as long as more is there than the
/// limit allows.
pub proof fn law_next_victim_is_the_next_in_order(pass: EvictionPass)
    ensures
        pass.next_victim() is Some <==> pass.total > pass.max_bytes && pass.tried
            < pass.order@.len(),
        pass.next_victim() is Some ==> pass.next_victim()->Some_0 == pass.order@[
            pass.tried as int
        ] as int,
        pass.next_victim() is Some ==> pass.victim_size() == pass.entries@[
            pass.order@[pass.tried as int] as int
        ].meta->Some_0.len,
{
}

/// Where nothing but the counter of an evictor, or the progress of a pass, differs, everything
/// else is the same.
pub proof fn law_settings_stay(a: DiskEvictor, b: DiskEvictor, p: EvictionPass, q: EvictionPass)
    ensures
        a.same_settings(b) <==> a == (DiskEvictor { counter: a.counter, ..b }),
        p.same_pass(q) <==> p == (EvictionPass {
            tried: p.tried,
            total: p.total,
            freed: p.freed,
            ..q
        }),
{
}

/// The extension that is left out is the one that was given.
pub proof fn law_left_out_extension_is_the_given_one(e: DiskEvictor, skip_ext: Option<&str>)
    ensures
        e.skip_ext is None ==> e.skips() is None,
        e.skip_ext is Some ==> e.skips() == Some(e.skip_ext->Some_0@),
        skip_ext is None ==> ext_view(skip_ext) is None,
        skip_ext is Some ==> ext_view(skip_ext) == Some(skip_ext->Some_0@),
{
}

} // verus!
