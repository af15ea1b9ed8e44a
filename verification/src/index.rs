use vstd::prelude::*;

use crate::strutil;

verus! {

/// One record of the metadata index: which stored artifact answers to a
/// given source digest.
pub struct MetadataEntry {
    /// md5 hash of the source file, as 32 lowercase hexadecimal characters.
    pub md5: String,
    /// Path of the stored binary, relative to the repository root.
    pub binary_path: String,
    /// Filename of the source file the digest was computed from.
    pub source_file: String,
    /// Publication time, RFC 3339.
    pub timestamp: String,
}

/// The mathematical model of an entry: its four fields as character
/// sequences.
pub ghost struct EntryView {
    pub md5: Seq<char>,
    pub binary_path: Seq<char>,
    pub source_file: Seq<char>,
    pub timestamp: Seq<char>,
}

impl View for MetadataEntry {
    type V = EntryView;

    open spec fn view(&self) -> EntryView {
        EntryView {
            md5: self.md5@,
            binary_path: self.binary_path@,
            source_file: self.source_file@,
            timestamp: self.timestamp@,
        }
    }
}

impl Clone for MetadataEntry {
    fn clone(&self) -> (r: Self)
        ensures
            r@ == self@,
    {
        MetadataEntry {
            md5: self.md5.clone(),
            binary_path: self.binary_path.clone(),
            source_file: self.source_file.clone(),
            timestamp: self.timestamp.clone(),
        }
    }
}

/// Whether some entry of `s` carries the digest `k`.
pub open spec fn has_key(s: Seq<EntryView>, k: Seq<char>) -> bool {
    exists|i: int| 0 <= i < s.len() && (#[trigger] s[i]).md5 == k
}

/// The position of the entry carrying digest `k` (meaningful when the keys
/// of `s` are distinct and `has_key(s, k)` holds).
pub open spec fn key_at(s: Seq<EntryView>, k: Seq<char>) -> int {
    choose|i: int| 0 <= i < s.len() && (#[trigger] s[i]).md5 == k
}

/// Every digest appears on at most one entry.
pub open spec fn distinct_keys(s: Seq<EntryView>) -> bool {
    forall|i: int, j: int| 0 <= i < j < s.len() ==> (#[trigger] s[i]).md5 != (#[trigger] s[j]).md5
}

/// Insertion under the last-write-wins rule: an entry with the same digest
/// is replaced in place; a new digest is appended.
pub open spec fn spec_insert(s: Seq<EntryView>, e: EntryView) -> Seq<EntryView> {
    if has_key(s, e.md5) {
        s.update(key_at(s, e.md5), e)
    } else {
        s.push(e)
    }
}

/// How `spec_insert` changes a well-formed sequence of entries: the new
/// entry is present under its digest, every other digest keeps its entry,
/// no other digest appears, and the keys stay distinct.
pub proof fn lemma_insert_props(s: Seq<EntryView>, e: EntryView)
    requires
        distinct_keys(s),
    ensures
        distinct_keys(spec_insert(s, e)),
        has_key(spec_insert(s, e), e.md5),
        spec_insert(s, e)[key_at(spec_insert(s, e), e.md5)] == e,
        forall|k: Seq<char>|
            k != e.md5 ==> (#[trigger] has_key(spec_insert(s, e), k)) == has_key(s, k),
        forall|k: Seq<char>|
            k != e.md5 && #[trigger] has_key(s, k) ==> spec_insert(s, e)[key_at(
                spec_insert(s, e),
                k,
            )] == s[key_at(s, k)],
        spec_insert(s, e).len() == s.len() + (if has_key(s, e.md5) {
            0int
        } else {
            1int
        }),
{
    let r = spec_insert(s, e);
    if has_key(s, e.md5) {
        let ki = key_at(s, e.md5);
        assert(0 <= ki < s.len() && s[ki].md5 == e.md5);
        assert(r[ki] == e);
        assert(forall|i: int| 0 <= i < r.len() && i != ki ==> r[i] == s[i]);
        assert forall|i: int, j: int| 0 <= i < j < r.len() implies (#[trigger] r[i]).md5 != (
        #[trigger] r[j]).md5 by {
            assert(s[i].md5 != s[j].md5);
        }
        assert forall|k: Seq<char>| k != e.md5 implies (#[trigger] has_key(r, k)) == has_key(
            s,
            k,
        ) by {
            if has_key(r, k) {
                let i = choose|i: int| 0 <= i < r.len() && (#[trigger] r[i]).md5 == k;
                assert(i != ki);
                assert(s[i].md5 == k);
            }
            if has_key(s, k) {
                let i = choose|i: int| 0 <= i < s.len() && (#[trigger] s[i]).md5 == k;
                assert(i != ki);
                assert(r[i].md5 == k);
            }
        }
        assert forall|k: Seq<char>| k != e.md5 && #[trigger] has_key(s, k) implies r[key_at(r, k)]
            == s[key_at(s, k)] by {
            let i = key_at(s, k);
            assert(0 <= i < s.len() && s[i].md5 == k);
            assert(i != ki);
            assert(r[i].md5 == k);
            assert(has_key(r, k));
            let i2 = key_at(r, k);
            assert(0 <= i2 < r.len() && r[i2].md5 == k);
            assert(i2 != ki);
            assert(s[i2].md5 == k);
            if i != i2 {
                assert(s[i].md5 != s[i2].md5);
            }
        }
        let ki2 = key_at(r, e.md5);
        assert(0 <= ki2 < r.len() && r[ki2].md5 == e.md5);
        if ki2 != ki {
            assert(s[ki2].md5 == e.md5);
            assert(s[ki2].md5 != s[ki].md5);
        }
    } else {
        let n = s.len() as int;
        assert(r[n] == e);
        assert(forall|i: int| 0 <= i < n ==> r[i] == s[i]);
        assert forall|i: int, j: int| 0 <= i < j < r.len() implies (#[trigger] r[i]).md5 != (
        #[trigger] r[j]).md5 by {
            if j < n {
                assert(s[i].md5 != s[j].md5);
            } else {
                assert(r[j] == e);
                assert(s[i].md5 != e.md5) by {
                    if s[i].md5 == e.md5 {
                        assert(has_key(s, e.md5));
                    }
                }
            }
        }
        assert forall|k: Seq<char>| k != e.md5 implies (#[trigger] has_key(r, k)) == has_key(
            s,
            k,
        ) by {
            if has_key(r, k) {
                let i = choose|i: int| 0 <= i < r.len() && (#[trigger] r[i]).md5 == k;
                assert(i != n);
                assert(s[i].md5 == k);
            }
            if has_key(s, k) {
                let i = choose|i: int| 0 <= i < s.len() && (#[trigger] s[i]).md5 == k;
                assert(r[i].md5 == k);
            }
        }
        assert forall|k: Seq<char>| k != e.md5 && #[trigger] has_key(s, k) implies r[key_at(r, k)]
            == s[key_at(s, k)] by {
            let i = key_at(s, k);
            assert(0 <= i < s.len() && s[i].md5 == k);
            assert(r[i].md5 == k);
            assert(has_key(r, k));
            let i2 = key_at(r, k);
            assert(0 <= i2 < r.len() && r[i2].md5 == k);
            assert(i2 != n);
            if i != i2 {
                assert(s[i].md5 != s[i2].md5);
            }
        }
        let ki2 = key_at(r, e.md5);
        assert(has_key(r, e.md5)) by {
            assert(r[n].md5 == e.md5);
        }
        assert(0 <= ki2 < r.len() && r[ki2].md5 == e.md5);
        if ki2 != n {
            assert(s[ki2].md5 == e.md5);
            assert(has_key(s, e.md5));
        }
    }
}

/// Law (republish overwrites): inserting two entries under the same digest,
/// one after the other, leaves exactly one entry under that digest — the
/// second one — and leaves every other digest as the first insertion left
/// it. Only the latest stored path remains retrievable.
pub proof fn lemma_republish_overwrites(s: Seq<EntryView>, e1: EntryView, e2: EntryView)
    requires
        distinct_keys(s),
        e1.md5 == e2.md5,
    ensures
        has_key(spec_insert(spec_insert(s, e1), e2), e2.md5),
        spec_insert(spec_insert(s, e1), e2)[key_at(
            spec_insert(spec_insert(s, e1), e2),
            e2.md5,
        )] == e2,
        spec_insert(spec_insert(s, e1), e2).len() == spec_insert(s, e1).len(),
        forall|k: Seq<char>|
            k != e2.md5 ==> (#[trigger] has_key(spec_insert(spec_insert(s, e1), e2), k))
                == has_key(s, k),
{
    let s1 = spec_insert(s, e1);
    lemma_insert_props(s, e1);
    lemma_insert_props(s1, e2);
    assert(has_key(s1, e2.md5)) by {
        assert(s1[key_at(s1, e1.md5)].md5 == e1.md5);
    }
}

/// The metadata index: a mapping from digest to entry with distinct digest
/// keys, held as a sequence of entries. The digest key of each entry is its
/// own `md5` field, so the documented invariant — every key equals the
/// `md5` field of its value — holds by representation.
pub struct Metadata {
    entries: Vec<MetadataEntry>,
}

impl View for Metadata {
    type V = Seq<EntryView>;

    closed spec fn view(&self) -> Seq<EntryView> {
        self.entries@.map_values(|e: MetadataEntry| e@)
    }
}

impl Metadata {
    /// Well-formedness: no digest appears on two entries.
    pub open spec fn wf(&self) -> bool {
        distinct_keys(self@)
    }

    /// An empty index.
    pub fn new() -> (r: Self)
        ensures
            r@ == Seq::<EntryView>::empty(),
            r.wf(),
    {
        let r = Metadata { entries: Vec::new() };
        proof {
            assert(r@ =~= Seq::<EntryView>::empty());
        }
        r
    }

    /// Build an index directly from a sequence of entries whose digests
    /// are already known to be distinct.
    pub(crate) fn from_entries(entries: Vec<MetadataEntry>) -> (r: Self)
        requires
            distinct_keys(entries@.map_values(|e: MetadataEntry| e@)),
        ensures
            r@ == entries@.map_values(|e: MetadataEntry| e@),
            r.wf(),
    {
        Metadata { entries }
    }

    /// The number of entries.
    pub fn len(&self) -> (n: usize)
        ensures
            n == self@.len(),
    {
        self.entries.len()
    }

    /// The entry at position `i`.
    pub fn entry_at(&self, i: usize) -> (e: &MetadataEntry)
        requires
            i < self@.len(),
        ensures
            e@ == self@[i as int],
    {
        &self.entries[i]
    }

    /// Look a digest up.
    #[verifier::loop_isolation(false)]
    pub fn get(&self, digest: &str) -> (r: Option<&MetadataEntry>)
        requires
            self.wf(),
        ensures
            match r {
                Some(e) => has_key(self@, digest@) && e@ == self@[key_at(self@, digest@)],
                None => !has_key(self@, digest@),
            },
    {
        let n = self.entries.len();
        let mut i: usize = 0;
        while i < n
            invariant
                n == self.entries@.len(),
                0 <= i <= n,
                self.wf(),
                forall|j: int| 0 <= j < i ==> (#[trigger] self@[j]).md5 != digest@,
            decreases n - i,
        {
            if strutil::str_eq(self.entries[i].md5.as_str(), digest) {
                proof {
                    assert(self@[i as int].md5 == digest@);
                    assert(has_key(self@, digest@));
                    let ki = key_at(self@, digest@);
                    assert(0 <= ki < self@.len() && self@[ki].md5 == digest@);
                    if ki != i {
                        assert(self@[ki].md5 != self@[i as int].md5);
                    }
                }
                return Some(&self.entries[i]);
            }
            i += 1;
        }
        None
    }

    /// Insert an entry under its own digest, replacing any entry already
    /// recorded under that digest (last write wins).
    #[verifier::loop_isolation(false)]
    pub fn insert(&mut self, e: MetadataEntry)
        requires
            old(self).wf(),
        ensures
            final(self)@ == spec_insert(old(self)@, e@),
            final(self).wf(),
    {
        proof {
            lemma_insert_props(old(self)@, e@);
        }
        let n = self.entries.len();
        let mut i: usize = 0;
        while i < n
            invariant
                n == self.entries@.len(),
                0 <= i <= n,
                self == old(self),
                forall|j: int| 0 <= j < i ==> (#[trigger] self@[j]).md5 != e.md5@,
            decreases n - i,
        {
            if strutil::str_eq(self.entries[i].md5.as_str(), e.md5.as_str()) {
                proof {
                    assert(self@[i as int].md5 == e@.md5);
                    assert(has_key(self@, e@.md5));
                    let ki = key_at(self@, e@.md5);
                    assert(0 <= ki < self@.len() && self@[ki].md5 == e@.md5);
                    if ki != i {
                        assert(self@[ki].md5 != self@[i as int].md5);
                    }
                }
                self.entries.remove(i);
                self.entries.insert(i, e);
                proof {
                    assert(self@ =~= spec_insert(old(self)@, e@));
                }
                return ;
            }
            i += 1;
        }
        proof {
            assert(!has_key(self@, e@.md5));
        }
        self.entries.push(e);
        proof {
            assert(self@ =~= spec_insert(old(self)@, e@));
        }
    }
}

} // verus!
