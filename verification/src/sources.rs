//! The source map: every loaded file gets a window of offsets in one global
//! space, so a [`Span`] alone says where it is. A file of `n` bytes starting
//! at `base` owns the offsets `base ..= base + n`; the next file starts past
//! that, so windows never overlap even for empty files.
use vstd::prelude::*;
use std::ops::Bound;
use std::ops::Range;
use crossbeam_skiplist::SkipMap;
use dashmap::DashMap;
use elsa::sync::FrozenMap;
use vstd::utf8::encode_utf8;
use crate::span::Span;

verus! {

/// A loaded file: the name it is shown under and its text.
#[derive(Debug)]
pub struct SourceRecord {
    pub name: String,
    pub source: String,
}

/// A loaded file, named by the start of its window.
#[derive(Clone, Copy, PartialEq, Eq, Structural, Debug, Hash)]
pub struct FileId {
    base: u32,
}

impl FileId {
    pub closed spec fn base(self) -> u32 {
        self.base
    }

    /// A file id is its base.
    pub proof fn lemma_base(a: FileId, b: FileId)
        ensures
            a.base() == b.base() <==> a == b,
    {
    }
}

/// Length of a text in bytes.
pub open spec fn byte_len(s: Seq<char>) -> nat {
    encode_utf8(s).len()
}

// ---- the outside collections behind the map ----

#[verifier::external_type_specification]
#[verifier::external_body]
#[verifier::reject_recursive_types(K)]
#[verifier::reject_recursive_types(V)]
pub struct ExSkipMap<K, V>(SkipMap<K, V>);

#[verifier::external_type_specification]
#[verifier::external_body]
#[verifier::reject_recursive_types(K)]
#[verifier::reject_recursive_types(V)]
pub struct ExFrozenMap<K, V>(FrozenMap<K, V>);

#[verifier::external_type_specification]
#[verifier::external_body]
#[verifier::reject_recursive_types(K)]
#[verifier::reject_recursive_types(V)]
#[verifier::reject_recursive_types(S)]
pub struct ExDashMap<K, V, S>(DashMap<K, V, S>);

/// The keys of an ordered map of file starts.
pub uninterp spec fn start_keys(m: SkipMap<u32, ()>) -> Set<u32>;

/// The records of a map from file starts to files.
pub uninterp spec fn start_records(m: FrozenMap<u32, Box<SourceRecord>>) -> Map<u32, SourceRecord>;

/// The entries of a map from file names to file starts.
pub uninterp spec fn name_entries(m: DashMap<String, u32>) -> Map<Seq<char>, u32>;

/// Wraps `SkipMap::new`: an empty map.
#[verifier::external_body]
fn skip_new() -> (m: SkipMap<u32, ()>)
    ensures
        start_keys(m) == Set::<u32>::empty(),
{
    SkipMap::new()
}

/// Wraps `SkipMap::insert`: `k` is a key afterwards, and the other keys stay.
#[verifier::external_body]
fn skip_insert(m: &mut SkipMap<u32, ()>, k: u32)
    ensures
        start_keys(*final(m)) == start_keys(*old(m)).insert(k),
{
    m.insert(k, ());
}

/// Wraps `SkipMap::upper_bound` with an inclusive bound: the greatest key at
/// most `x`, or `None` when every key is above `x`. The entry is handed out
/// as its key.
#[verifier::external_body]
fn skip_upper_bound(m: &SkipMap<u32, ()>, x: u32) -> (r: Option<u32>)
    ensures
        r matches Some(k) ==> start_keys(*m).contains(k) && k <= x && forall|j: u32|
            #[trigger] start_keys(*m).contains(j) && j <= x ==> j <= k,
        r is None ==> forall|j: u32| #[trigger] start_keys(*m).contains(j) ==> j > x,
{
    m.upper_bound(Bound::Included(&x)).map(|e| *e.key())
}

/// Wraps `FrozenMap::new`: an empty map.
#[verifier::external_body]
fn frozen_map_new() -> (r: FrozenMap<u32, Box<SourceRecord>>)
    ensures
        start_records(r).dom().len() == 0,
        start_records(r).dom().finite(),
{
    FrozenMap::new()
}

/// Wraps `FrozenMap::insert`: a new key gets `rec`; an existing value is
/// never overwritten. The reference it returns is not handed out.
#[verifier::external_body]
fn frozen_map_insert(m: &mut FrozenMap<u32, Box<SourceRecord>>, k: u32, rec: SourceRecord)
    ensures
        start_records(*final(m)) == if start_records(*old(m)).contains_key(k) {
            start_records(*old(m))
        } else {
            start_records(*old(m)).insert(k, rec)
        },
{
    m.insert(k, Box::new(rec));
}

/// Wraps `FrozenMap::get`: the record under `k`, if there is one.
#[verifier::external_body]
fn frozen_map_get(m: &FrozenMap<u32, Box<SourceRecord>>, k: u32) -> (r: Option<&SourceRecord>)
    ensures
        r is Some <==> start_records(*m).contains_key(k),
        r matches Some(rec) ==> *rec == start_records(*m)[k],
{
    m.get(&k)
}

/// Wraps `DashMap::new`: an empty map.
#[verifier::external_body]
fn dash_new() -> (r: DashMap<String, u32>)
    ensures
        name_entries(r).dom().len() == 0,
        name_entries(r).dom().finite(),
{
    DashMap::new()
}

/// Wraps `DashMap::insert`: `name` maps to `v` afterwards, replacing what it
/// mapped to; other entries stay.
#[verifier::external_body]
fn dash_insert(m: &mut DashMap<String, u32>, name: String, v: u32)
    ensures
        name_entries(*final(m)) == name_entries(*old(m)).insert(name@, v),
{
    m.insert(name, v);
}

/// Wraps `DashMap::get`: the value under `name`, handed out by value.
#[verifier::external_body]
fn dash_get(m: &DashMap<String, u32>, name: &str) -> (r: Option<u32>)
    ensures
        r is Some <==> name_entries(*m).contains_key(name@),
        r matches Some(v) ==> v == name_entries(*m)[name@],
{
    m.get(name).map(|e| *e.value())
}

// ---- the map ----

/// Owns the text of every loaded file and places each in the global space.
pub struct SourceMap {
    source_starts: SkipMap<u32, ()>,
    source_texts: FrozenMap<u32, Box<SourceRecord>>,
    name_to_id: DashMap<String, u32>,
    next_base: u32,
}

impl SourceMap {
    /// The loaded files, by the start of their window.
    pub closed spec fn files(self) -> Map<u32, SourceRecord> {
        start_records(self.source_texts)
    }

    /// The file start each name was last loaded at.
    pub closed spec fn names(self) -> Map<Seq<char>, u32> {
        name_entries(self.name_to_id)
    }

    /// Where the next file will start.
    pub closed spec fn next_base(self) -> u32 {
        self.next_base
    }

    /// The last offset in the window of the file at `k`: its end of text.
    pub open spec fn window_end(self, k: u32) -> int {
        k + byte_len(self.files()[k].source@)
    }

    /// `k` is the file whose window contains offset `x`, as far as starts
    /// tell: the greatest start at most `x`.
    pub open spec fn owner(self, k: u32, x: u32) -> bool {
        &&& self.files().contains_key(k)
        &&& k <= x
        &&& forall|j: u32| #[trigger] self.files().contains_key(j) && j <= x ==> j <= k
    }

    pub closed spec fn wf(self) -> bool {
        &&& start_keys(self.source_starts) == start_records(self.source_texts).dom()
        &&& forall|k: u32| #[trigger]
            self.files().contains_key(k) ==> self.window_end(k) < self.next_base
        &&& forall|k1: u32, k2: u32|
            #![trigger self.files().contains_key(k1), self.files().contains_key(k2)]
            self.files().contains_key(k1) && self.files().contains_key(k2) && k1 < k2
                ==> self.window_end(k1) < k2
        &&& forall|n: Seq<char>| #[trigger]
            self.names().contains_key(n) ==> self.files().contains_key(self.names()[n])
                && self.files()[self.names()[n]].name@ == n
    }

    pub fn new() -> (m: SourceMap)
        ensures
            m.wf(),
            m.files() == Map::<u32, SourceRecord>::empty(),
            m.names() == Map::<Seq<char>, u32>::empty(),
            m.next_base() == 0,
    {
        let m = SourceMap {
            source_starts: skip_new(),
            source_texts: frozen_map_new(),
            name_to_id: dash_new(),
            next_base: 0,
        };
        proof {
            vstd::set_lib::lemma_set_empty_equivalency_len(m.files().dom());
            vstd::set_lib::lemma_set_empty_equivalency_len(m.names().dom());
            assert(m.files() =~= Map::<u32, SourceRecord>::empty());
            assert(m.names() =~= Map::<Seq<char>, u32>::empty());
            assert(start_keys(m.source_starts) =~= start_records(m.source_texts).dom());
        }
        m
    }

    /// Loads a file: it starts where the next file was to start, and the next
    /// file will start one past its end of text. The space holds 4 GiB.
    /// Returns its id and the text as stored.
    pub fn alloc_source(&mut self, display_name: String, text: String) -> (r: (FileId, &str))
        requires
            old(self).wf(),
            old(self).next_base() + byte_len(text@) + 1 <= u32::MAX,
        ensures
            final(self).wf(),
            r.0.base() == old(self).next_base(),
            !old(self).files().contains_key(r.0.base()),
            final(self).files() == old(self).files().insert(
                r.0.base(),
                SourceRecord { name: display_name, source: text },
            ),
            final(self).names() == old(self).names().insert(display_name@, r.0.base()),
            final(self).next_base() == old(self).next_base() + byte_len(text@) + 1,
            r.1@ == text@,
    {
        let t = text.as_str();
        let len = t.len() as u32;
        let base = self.next_base;
        let ghost old_files = self.files();
        let ghost old_names = self.names();
        self.next_base = base + len + 1;
        let name_key = display_name.clone();
        dash_insert(&mut self.name_to_id, name_key, base);
        skip_insert(&mut self.source_starts, base);
        let ghost rec = SourceRecord { name: display_name, source: text };
        frozen_map_insert(&mut self.source_texts, base, SourceRecord { name: display_name, source: text });
        proof {
            assert(!old_files.contains_key(base));
            assert(self.files() == old_files.insert(base, rec));
            assert(start_keys(self.source_starts) =~= start_records(self.source_texts).dom());
            assert forall|k: u32| #[trigger] self.files().contains_key(k) implies self.window_end(k)
                < self.next_base by {
                if k != base {
                    assert(old_files.contains_key(k));
                }
            }
            assert forall|k1: u32, k2: u32|
                #![trigger self.files().contains_key(k1), self.files().contains_key(k2)]
                self.files().contains_key(k1) && self.files().contains_key(k2) && k1 < k2 implies self.window_end(
                k1) < k2 by {
                if k2 == base {
                    assert(old_files.contains_key(k1));
                } else {
                    assert(old_files.contains_key(k2));
                    if k1 == base {
                        assert(old_files.contains_key(k2));
                    }
                }
            }
            assert forall|n: Seq<char>| #[trigger] self.names().contains_key(n) implies self.files().contains_key(
                self.names()[n]) && self.files()[self.names()[n]].name@ == n by {
                if n != display_name@ {
                    assert(old_names.contains_key(n));
                }
            }
        }
        let stored = frozen_map_get(&self.source_texts, base).unwrap();
        (FileId { base }, stored.source.as_str())
    }

    /// The file last loaded under `display_name`, if any.
    pub fn get_id(&self, display_name: &str) -> (r: Option<FileId>)
        ensures
            r is Some <==> self.names().contains_key(display_name@),
            r matches Some(id) ==> id.base() == self.names()[display_name@],
    {
        match dash_get(&self.name_to_id, display_name) {
            Some(b) => Some(FileId { base: b }),
            None => None,
        }
    }

    /// The record of a loaded file.
    pub fn get_source(&self, id: FileId) -> (r: &SourceRecord)
        requires
            self.files().contains_key(id.base()),
        ensures
            *r == self.files()[id.base()],
    {
        frozen_map_get(&self.source_texts, id.base).unwrap()
    }

    /// Where the next file will start.
    pub fn next_start(&self) -> (n: u32)
        ensures
            n == self.next_base(),
    {
        self.next_base
    }

    /// Where the window of a file starts.
    pub fn base_offset(&self, id: FileId) -> (b: u32)
        ensures
            b == id.base(),
    {
        id.base
    }

    /// The file that `span` falls in and the span as byte offsets into that
    /// file's text: `None` when the span starts before the first file, or
    /// ends before the start of the file it starts in.
    pub fn local_span(&self, span: Span) -> (r: Option<(FileId, Range<usize>)>)
        requires
            self.wf(),
        ensures
            r is None <==> (forall|k: u32| #[trigger] self.files().contains_key(k) ==> k > span.lo) || exists|
                k: u32,
            | self.owner(k, span.lo) && span.hi < k,
            r matches Some(x) ==> {
                &&& self.owner(x.0.base(), span.lo)
                &&& x.1.start == span.lo - x.0.base()
                &&& x.1.end == span.hi - x.0.base()
            },
    {
        match skip_upper_bound(&self.source_starts, span.lo) {
            Some(base) => {
                proof {
                    assert(self.files().contains_key(base));
                    assert(self.owner(base, span.lo));
                    assert forall|k: u32| self.owner(k, span.lo) implies k == base by {
                        assert(start_keys(self.source_starts).contains(k));
                    }
                    assert(!(forall|k: u32| #[trigger] self.files().contains_key(k) ==> k > span.lo));
                }
                if span.hi < base {
                    return None;
                }
                let id = FileId { base };
                Some((id, Range { start: (span.lo - base) as usize, end: (span.hi - base) as usize }))
            },
            None => {
                proof {
                    assert forall|k: u32| #[trigger] self.files().contains_key(k) implies k > span.lo by {
                        assert(start_keys(self.source_starts).contains(k));
                    }
                }
                None
            },
        }
    }
}

/// An offset inside a file's window is owned by that file: resolving a span
/// made from a file's base gives that file back.
pub proof fn lemma_window_owner(m: SourceMap, k: u32, x: u32)
    requires
        m.wf(),
        m.files().contains_key(k),
        k <= x <= m.window_end(k),
    ensures
        m.owner(k, x),
        forall|j: u32| #[trigger] m.owner(j, x) ==> j == k,
{
    assert forall|j: u32| #[trigger] m.files().contains_key(j) && j <= x implies j <= k by {
        if j > k {
            assert(m.files().contains_key(k) && m.files().contains_key(j));
        }
    }
}

} // verus!
