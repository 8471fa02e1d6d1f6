//! Group archives (".grp"): a 12-byte signature, a 4-byte entry count, one
//! 16-byte descriptor per entry (a 12-byte name and a 4-byte size), then the
//! entries' payloads one after the other in descriptor order.
use crate::bytes::{le_u32, read_u32};
use crate::error::FormatError;
use crate::path::PathManager;
use vstd::prelude::*;
use vstd::slice::{slice_subrange, slice_to_vec};
use vstd::string::StringSliceAdditionalSpecFns;

verus! {

/// The signature at the start of every archive: "KenSilverman".
pub open spec fn grp_signature() -> Seq<u8> {
    seq![75u8, 101, 110, 83, 105, 108, 118, 101, 114, 109, 97, 110]
}

/// The index of the first nul byte of `b` at or after `k`, or `b.len()`.
pub open spec fn nul_index(b: Seq<u8>, k: int) -> int
    decreases b.len() - k,
{
    if k >= b.len() || b[k] == 0 {
        k
    } else {
        nul_index(b, k + 1)
    }
}

/// `b` cut at its first nul byte.
pub open spec fn trim_nul(b: Seq<u8>) -> Seq<u8> {
    b.subrange(0, nul_index(b, 0))
}

pub open spec fn entry_count(s: Seq<u8>) -> nat {
    le_u32(s, 12) as nat
}

/// Offset of the descriptor of entry `i`.
pub open spec fn descriptor_at(i: int) -> int {
    16 * (i + 1)
}

/// Where the descriptor table ends and the first payload starts.
pub open spec fn table_end(s: Seq<u8>) -> int {
    descriptor_at(entry_count(s) as int)
}

pub open spec fn entry_name(s: Seq<u8>, i: int) -> Seq<u8> {
    trim_nul(s.subrange(descriptor_at(i), descriptor_at(i) + 12))
}

pub open spec fn entry_size(s: Seq<u8>, i: int) -> nat {
    le_u32(s, descriptor_at(i) + 12) as nat
}

/// Where the payload of entry `i` starts: the payloads before it are packed
/// after the table.
pub open spec fn entry_start(s: Seq<u8>, i: nat) -> int
    decreases i,
{
    if i == 0 {
        table_end(s)
    } else {
        entry_start(s, (i - 1) as nat) + entry_size(s, i - 1)
    }
}

pub open spec fn entry_data(s: Seq<u8>, i: int) -> Seq<u8> {
    s.subrange(entry_start(s, i as nat), entry_start(s, i as nat) + entry_size(s, i))
}

/// The (name, payload) pairs of the archive `s`, in descriptor order.
pub open spec fn archive_entries(s: Seq<u8>) -> Seq<(Seq<u8>, Seq<u8>)> {
    Seq::new(entry_count(s), |i: int| (entry_name(s, i), entry_data(s, i)))
}

/// The error that loading `s` gives, if any.
pub open spec fn archive_error(s: Seq<u8>) -> Option<FormatError> {
    if s.len() < 16 {
        Some(FormatError::TruncatedHeader)
    } else if s.subrange(0, 12) != grp_signature() {
        Some(FormatError::InvalidSignature)
    } else if table_end(s) >= s.len() {
        Some(FormatError::InvalidEntryCount)
    } else if entry_start(s, entry_count(s)) > s.len() {
        Some(FormatError::CorruptTable)
    } else {
        None
    }
}

/// `m` after inserting the pairs of `e` in order: a later pair replaces an
/// earlier one with the same name.
pub open spec fn insert_all(m: Map<Seq<u8>, Seq<u8>>, e: Seq<(Seq<u8>, Seq<u8>)>) -> Map<
    Seq<u8>,
    Seq<u8>,
>
    decreases e.len(),
{
    if e.len() == 0 {
        m
    } else {
        insert_all(m, e.drop_last()).insert(e.last().0, e.last().1)
    }
}

proof fn lemma_insert_all_len(
    m: Map<Seq<u8>, Seq<u8>>,
    e: Seq<(Seq<u8>, Seq<u8>)>,
    i: int,
    n: nat,
)
    requires
        0 <= i < e.len(),
        forall|j: int| i <= j < e.len() && e[j].0 == e[i].0 ==> e[j].1.len() == n,
    ensures
        insert_all(m, e).contains_key(e[i].0),
        insert_all(m, e)[e[i].0].len() == n,
    decreases e.len(),
{
    if e.last().0 != e[i].0 {
        lemma_insert_all_len(m, e.drop_last(), i, n);
    }
}

proof fn lemma_insert_all_union(m: Map<Seq<u8>, Seq<u8>>, e: Seq<(Seq<u8>, Seq<u8>)>)
    ensures
        insert_all(m, e) == m.union_prefer_right(insert_all(Map::empty(), e)),
    decreases e.len(),
{
    if e.len() > 0 {
        lemma_insert_all_union(m, e.drop_last());
    }
}

/// Each entry of a well-formed archive, once loaded, is found under its name
/// with its declared size. (A later entry of the same name replaces it; the
/// size still matches when that entry declares the same size.)
pub proof fn lemma_entry_round_trip(before: Map<Seq<u8>, Seq<u8>>, s: Seq<u8>, i: int)
    requires
        archive_error(s) is None,
        0 <= i < entry_count(s),
        forall|j: int|
            i < j < entry_count(s) && entry_name(s, j) == entry_name(s, i) ==> entry_size(s, j)
                == entry_size(s, i),
    ensures
        insert_all(before, archive_entries(s)).contains_key(entry_name(s, i)),
        insert_all(before, archive_entries(s))[entry_name(s, i)].len() == entry_size(s, i),
{
    let e = archive_entries(s);
    assert forall|j: int| i <= j < e.len() && e[j].0 == e[i].0 implies e[j].1.len() == entry_size(
        s,
        i,
    ) by {
        lemma_entry_start_monotonic(s, 0, j as nat);
        lemma_entry_start_monotonic(s, (j + 1) as nat, entry_count(s));
    }
    lemma_insert_all_len(before, e, i, entry_size(s, i));
}

/// Loading the same archive twice leaves the cache as loading it once does.
pub proof fn lemma_load_idempotent(before: Map<Seq<u8>, Seq<u8>>, s: Seq<u8>)
    ensures
        insert_all(insert_all(before, archive_entries(s)), archive_entries(s)) == insert_all(
            before,
            archive_entries(s),
        ),
{
    let e = archive_entries(s);
    lemma_insert_all_union(before, e);
    lemma_insert_all_union(insert_all(before, e), e);
    assert(before.union_prefer_right(insert_all(Map::empty(), e)).union_prefer_right(
        insert_all(Map::empty(), e),
    ) =~= before.union_prefer_right(insert_all(Map::empty(), e)));
}

#[derive(Debug)]
struct Entry {
    name: Vec<u8>,
    data: Vec<u8>,
}

spec fn entries_map(s: Seq<Entry>) -> Map<Seq<u8>, Seq<u8>>
    decreases s.len(),
{
    if s.len() == 0 {
        Map::empty()
    } else {
        entries_map(s.drop_last()).insert(s.last().name@, s.last().data@)
    }
}

spec fn names_unique(s: Seq<Entry>) -> bool {
    forall|i: int, j: int| 0 <= i < j < s.len() ==> s[i].name@ != s[j].name@
}

proof fn lemma_entries_map_size(s: Seq<Entry>)
    requires
        names_unique(s),
    ensures
        entries_map(s).dom().finite(),
        entries_map(s).dom().len() == s.len(),
    decreases s.len(),
{
    if s.len() > 0 {
        let t = s.drop_last();
        lemma_entries_map_size(t);
        lemma_entries_map_absent(t, s.last().name@);
    }
}

/// No entry after `i` has the name of entry `i`.
spec fn last_of_name(s: Seq<Entry>, i: int) -> bool {
    forall|j: int| i < j < s.len() ==> s[j].name@ != s[i].name@
}

proof fn lemma_entries_map_index(s: Seq<Entry>, i: int)
    requires
        0 <= i < s.len(),
        last_of_name(s, i),
    ensures
        entries_map(s).contains_key(s[i].name@),
        entries_map(s)[s[i].name@] == s[i].data@,
    decreases s.len(),
{
    if i < s.len() - 1 {
        lemma_entries_map_index(s.drop_last(), i);
    }
}

proof fn lemma_entries_map_absent(s: Seq<Entry>, k: Seq<u8>)
    requires
        forall|i: int| 0 <= i < s.len() ==> s[i].name@ != k,
    ensures
        !entries_map(s).contains_key(k),
    decreases s.len(),
{
    if s.len() > 0 {
        lemma_entries_map_absent(s.drop_last(), k);
    }
}

proof fn lemma_entries_map_update(s: Seq<Entry>, i: int, e: Entry)
    requires
        0 <= i < s.len(),
        last_of_name(s, i),
        e.name@ == s[i].name@,
    ensures
        entries_map(s.update(i, e)) == entries_map(s).insert(e.name@, e.data@),
    decreases s.len(),
{
    let t = s.update(i, e);
    if i == s.len() - 1 {
        assert(t.drop_last() =~= s.drop_last());
    } else {
        assert(t.drop_last() =~= s.drop_last().update(i, e));
        lemma_entries_map_update(s.drop_last(), i, e);
    }
}

/// A cache of the entries of the archives loaded so far, by name.
#[derive(Debug)]
pub struct GroupManager {
    path_manager: PathManager,
    entries: Vec<Entry>,
}

proof fn lemma_entry_start_monotonic(s: Seq<u8>, i: nat, j: nat)
    requires
        i <= j,
    ensures
        entry_start(s, i) <= entry_start(s, j),
    decreases j - i,
{
    if i < j {
        lemma_entry_start_monotonic(s, i, (j - 1) as nat);
    }
}

proof fn lemma_insert_all_step(m: Map<Seq<u8>, Seq<u8>>, e: Seq<(Seq<u8>, Seq<u8>)>, i: int)
    requires
        0 <= i < e.len(),
    ensures
        insert_all(m, e.take(i + 1)) == insert_all(m, e.take(i)).insert(e[i].0, e[i].1),
{
    assert(e.take(i + 1).drop_last() =~= e.take(i));
}

/// Whether `data` starts with the archive signature.
fn has_signature(data: &[u8]) -> (r: bool)
    requires
        data@.len() >= 12,
    ensures
        r == (data@.subrange(0, 12) == grp_signature()),
{
    let expected: [u8; 12] = [75, 101, 110, 83, 105, 108, 118, 101, 114, 109, 97, 110];
    let mut k: usize = 0;
    while k < 12
        invariant
            k <= 12,
            data@.len() >= 12,
            expected@ == grp_signature(),
            forall|j: int| 0 <= j < k ==> data@[j] == expected@[j],
        decreases 12 - k,
    {
        if data[k] != expected[k] {
            return false;
        }
        k = k + 1;
    }
    assert(data@.subrange(0, 12) =~= grp_signature());
    true
}

/// Whether the two byte strings are equal.
fn bytes_equal(a: &[u8], b: &[u8]) -> (r: bool)
    ensures
        r == (a@ == b@),
{
    if a.len() != b.len() {
        return false;
    }
    let mut k: usize = 0;
    while k < a.len()
        invariant
            a@.len() == b@.len(),
            k <= a@.len(),
            forall|j: int| 0 <= j < k ==> a@[j] == b@[j],
        decreases a@.len() - k,
    {
        if a[k] != b[k] {
            return false;
        }
        k = k + 1;
    }
    assert(a@ =~= b@);
    true
}

/// The name in the descriptor at `off`, cut at its first nul byte.
fn read_name(data: &[u8], off: usize) -> (r: Vec<u8>)
    requires
        off + 12 <= data@.len() <= usize::MAX,
    ensures
        r@ == trim_nul(data@.subrange(off as int, off + 12)),
{
    let ghost b = data@.subrange(off as int, off + 12);
    let mut k: usize = 0;
    while k < 12 && data[off + k] != 0
        invariant
            k <= 12,
            off + 12 <= data@.len() <= usize::MAX,
            b == data@.subrange(off as int, off + 12),
            nul_index(b, 0) == nul_index(b, k as int),
        decreases 12 - k,
    {
        k = k + 1;
    }
    let r = slice_to_vec(slice_subrange(data, off, off + k));
    r
}

/// The index of the last entry called `name`, if any.
fn position(entries: &Vec<Entry>, name: &[u8]) -> (r: Option<usize>)
    ensures
        match r {
            Some(i) => i < entries@.len() && entries@[i as int].name@ == name@ && last_of_name(
                entries@,
                i as int,
            ),
            None => forall|i: int| 0 <= i < entries@.len() ==> entries@[i].name@ != name@,
        },
{
    let mut i: usize = entries.len();
    while i > 0
        invariant
            i <= entries@.len(),
            forall|j: int| i <= j < entries@.len() ==> entries@[j].name@ != name@,
        decreases i,
    {
        i = i - 1;
        if bytes_equal(entries[i].name.as_slice(), name) {
            return Some(i);
        }
    }
    None
}

impl View for GroupManager {
    type V = Map<Seq<u8>, Seq<u8>>;

    /// The payload of each entry, by name.
    closed spec fn view(&self) -> Map<Seq<u8>, Seq<u8>> {
        entries_map(self.entries@)
    }
}

impl GroupManager {
    #[verifier::type_invariant]
    spec fn names_are_unique(&self) -> bool {
        names_unique(self.entries@)
    }

    /// The search directories that files are loaded from.
    pub closed spec fn search_paths(&self) -> Seq<Seq<char>> {
        self.path_manager@
    }

    /// An empty cache that finds files through `path_manager`.
    pub fn new(path_manager: PathManager) -> (r: GroupManager)
        ensures
            r@ == Map::<Seq<u8>, Seq<u8>>::empty(),
            r.search_paths() == path_manager@,
    {
        let r = GroupManager { path_manager, entries: Vec::new() };
        r
    }

    /// The search directories that files are loaded from.
    pub fn path_manager(&self) -> (r: &PathManager)
        ensures
            r@ == self.search_paths(),
    {
        &self.path_manager
    }

    /// Caches `data` under `name`, replacing what was cached under it.
    fn store(&mut self, name: Vec<u8>, data: Vec<u8>)
        ensures
            final(self)@ == old(self)@.insert(name@, data@),
            final(self).search_paths() == old(self).search_paths(),
    {
        proof {
            use_type_invariant(&*self);
        }
        let mut entries: Vec<Entry> = Vec::new();
        std::mem::swap(&mut self.entries, &mut entries);
        let ghost before = entries@;
        match position(&entries, name.as_slice()) {
            Some(i) => {
                let ghost e = Entry { name, data };
                proof {
                    lemma_entries_map_update(before, i as int, e);
                }
                entries.set(i, Entry { name, data });
            },
            None => {
                entries.push(Entry { name, data });
                assert(entries@.drop_last() =~= before);
            },
        }
        std::mem::swap(&mut self.entries, &mut entries);
    }

    /// Loads the entries of the in-memory archive `data` into the cache, in
    /// descriptor order; an entry replaces a cached one of the same name. On
    /// any error nothing is loaded.
    pub fn load_data(&mut self, data: &[u8]) -> (r: Result<(), FormatError>)
        ensures
            final(self).search_paths() == old(self).search_paths(),
            match r {
                Ok(()) => archive_error(data@) is None && final(self)@ == insert_all(
                    old(self)@,
                    archive_entries(data@),
                ),
                Err(e) => archive_error(data@) == Some(e) && final(self)@ == old(self)@,
            },
    {
        let ghost s = data@;
        let len = data.len();
        if len < 16 {
            return Err(FormatError::TruncatedHeader);
        }
        if !has_signature(data) {
            return Err(FormatError::InvalidSignature);
        }
        let count = read_u32(data, 12) as u64;
        let data_start: u64 = 16 * (count + 1);
        if data_start >= len as u64 {
            return Err(FormatError::InvalidEntryCount);
        }

        // Every payload must lie within the buffer before anything is cached.
        let mut off: u64 = data_start;
        let mut i: u64 = 0;
        while i < count
            invariant
                s == data@,
                len == s.len(),
                len >= 16,
                s.subrange(0, 12) == grp_signature(),
                count == entry_count(s),
                data_start == table_end(s),
                data_start < len,
                i <= count,
                off == entry_start(s, i as nat),
                off <= len,
            decreases count - i,
        {
            let size = read_u32(data, (16 * (i + 1) + 12) as usize) as u64;
            if size > len as u64 - off {
                proof {
                    lemma_entry_start_monotonic(s, (i + 1) as nat, count as nat);
                }
                return Err(FormatError::CorruptTable);
            }
            off = off + size;
            i = i + 1;
        }

        let ghost entries = archive_entries(s);
        let ghost before = self@;
        let count = count as usize;
        let mut off: usize = data_start as usize;
        let mut i: usize = 0;
        while i < count
            invariant
                s == data@,
                len == s.len(),
                len >= 16,
                s.subrange(0, 12) == grp_signature(),
                count == entry_count(s),
                data_start == table_end(s),
                data_start < len,
                entry_start(s, entry_count(s)) <= len,
                entries == archive_entries(s),
                i <= count,
                off == entry_start(s, i as nat),
                self@ == insert_all(before, entries.take(i as int)),
                self.search_paths() == old(self).search_paths(),
            decreases count - i,
        {
            let at = 16 * (i + 1);
            let name = read_name(data, at);
            let size = read_u32(data, at + 12) as usize;
            proof {
                lemma_entry_start_monotonic(s, (i + 1) as nat, count as nat);
                lemma_insert_all_step(before, entries, i as int);
            }
            let payload = slice_to_vec(slice_subrange(data, off, off + size));
            self.store(name, payload);
            off = off + size;
            i = i + 1;
        }
        assert(entries.take(count as int) =~= entries);
        Ok(())
    }

    /// The cached payload named by the bytes `name`, if any.
    pub fn get_bytes(&self, name: &[u8]) -> (r: Option<&[u8]>)
        ensures
            match r {
                Some(d) => self@.contains_key(name@) && d@ == self@[name@],
                None => !self@.contains_key(name@),
            },
    {
        proof {
            use_type_invariant(self);
        }
        match position(&self.entries, name) {
            Some(i) => {
                proof {
                    lemma_entries_map_index(self.entries@, i as int);
                }
                Some(self.entries[i].data.as_slice())
            },
            None => {
                proof {
                    lemma_entries_map_absent(self.entries@, name@);
                }
                None
            },
        }
    }

    /// How many entries are cached.
    pub fn len(&self) -> (r: usize)
        ensures
            self@.dom().finite(),
            r == self@.dom().len(),
    {
        proof {
            use_type_invariant(self);
            lemma_entries_map_size(self.entries@);
        }
        self.entries.len()
    }

    /// The cached payload of the entry called `filename`, if any.
    pub fn get(&self, filename: &str) -> (r: Option<&[u8]>)
        ensures
            match r {
                Some(d) => self@.contains_key(filename.spec_bytes()) 
                    && d@ == self@[filename.spec_bytes()],
                None => !self@.contains_key(filename.spec_bytes()),
            },
    {
        self.get_bytes(filename.as_bytes())
    }
}

} // verus!
