use vstd::prelude::*;
use crate::action::{DownloadEntry, DownloadEntryView};
use crate::error::Error;
use crate::parts::{FilePart, FilePartView};

verus! {

/// A patch file being downloaded: the entries waiting for it and the
/// completion bytes of the parts that have not arrived yet.
pub struct TrackedFile {
    location: String,
    entries: Vec<DownloadEntry>,
    pending_parts: Vec<u64>,
}

pub struct TrackedFileView {
    pub entries: Seq<DownloadEntryView>,
    pub pending_parts: Seq<u64>,
}

impl View for TrackedFile {
    type V = TrackedFileView;

    closed spec fn view(&self) -> TrackedFileView {
        TrackedFileView { entries: self.entries@.map_values(|e: DownloadEntry| e@), pending_parts: self.pending_parts@ }
    }
}

/// Strictly ascending: what a binary search over the pending parts relies on.
pub open spec fn spec_ascending(s: Seq<u64>) -> bool {
    forall|i: int, j: int| 0 <= i < j < s.len() ==> s[i] < s[j]
}

/// The map from file location to tracked file that a list of records stands for.
pub closed spec fn spec_tracker_map(files: Seq<TrackedFile>) -> Map<Seq<char>, TrackedFileView>
    decreases files.len(),
{
    if files.len() == 0 {
        Map::empty()
    } else {
        spec_tracker_map(files.drop_last()).insert(files.last().location@, files.last()@)
    }
}

/// Keeps track of which patch files are still being downloaded and which
/// download entries wait for each of them.
pub struct DownloadTracker {
    /// The tracked files, each at a location of its own (see `wf`).
    files: Vec<TrackedFile>,
}

impl View for DownloadTracker {
    type V = Map<Seq<char>, TrackedFileView>;

    closed spec fn view(&self) -> Map<Seq<char>, TrackedFileView> {
        spec_tracker_map(self.files@)
    }
}

/// What became of a download entry handed to the tracker.
#[derive(Debug)]
pub enum TrackerDecision {
    /// Its patch file is complete: patch now.
    PatchNow(DownloadEntry),
    /// Its patch file is still downloading: the entry waits for it.
    Queued,
    /// Its patch file is not tracked yet: determine which parts to download.
    DetermineParts(DownloadEntry),
}

/// What to do after the parts of a patch file were determined.
#[derive(Debug)]
pub enum PartsDecision {
    /// Nothing is missing: truncate the file to its size and patch now.
    PatchNow(DownloadEntry),
    /// Download these parts; the entry waits for them.
    Download(Vec<FilePart>),
}

} // verus!

verus! {

/// File locations are unique among the records.
pub closed spec fn spec_unique_locations(files: Seq<TrackedFile>) -> bool {
    forall|i: int, j: int| 0 <= i < j < files.len() ==> files[i].location@ != files[j].location@
}

proof fn lemma_map_has(files: Seq<TrackedFile>, i: int)
    requires
        spec_unique_locations(files),
        0 <= i < files.len(),
    ensures
        spec_tracker_map(files).contains_key(files[i].location@),
        spec_tracker_map(files)[files[i].location@] == files[i]@,
    decreases files.len(),
{
    if i < files.len() - 1 {
        let prefix = files.drop_last();
        assert(spec_unique_locations(prefix)) by {
            assert forall|a: int, b: int| 0 <= a < b < prefix.len() implies prefix[a].location@ != prefix[b].location@ by {
                assert(prefix[a] == files[a] && prefix[b] == files[b]);
            }
        }
        assert(prefix[i] == files[i]);
        lemma_map_has(prefix, i);
        assert(files[i].location@ != files.last().location@);
    }
}

proof fn lemma_map_lacks(files: Seq<TrackedFile>, k: Seq<char>)
    requires
        forall|i: int| 0 <= i < files.len() ==> files[i].location@ != k,
    ensures
        !spec_tracker_map(files).contains_key(k),
    decreases files.len(),
{
    if files.len() > 0 {
        let prefix = files.drop_last();
        assert forall|i: int| 0 <= i < prefix.len() implies prefix[i].location@ != k by {
            assert(prefix[i] == files[i]);
        }
        lemma_map_lacks(prefix, k);
    }
}

proof fn lemma_map_keys(files: Seq<TrackedFile>, k: Seq<char>)
    requires
        spec_tracker_map(files).contains_key(k),
    ensures
        exists|i: int| 0 <= i < files.len() && files[i].location@ == k,
    decreases files.len(),
{
    if files.last().location@ != k {
        let prefix = files.drop_last();
        lemma_map_keys(prefix, k);
        let i = choose|i: int| 0 <= i < prefix.len() && prefix[i].location@ == k;
        assert(files[i] == prefix[i]);
    }
}

proof fn lemma_map_update(files: Seq<TrackedFile>, i: int, f: TrackedFile)
    requires
        spec_unique_locations(files),
        0 <= i < files.len(),
        f.location@ == files[i].location@,
    ensures
        spec_unique_locations(files.update(i, f)),
        spec_tracker_map(files.update(i, f)) == spec_tracker_map(files).insert(f.location@, f@),
    decreases files.len(),
{
    let g = files.update(i, f);
    assert(spec_unique_locations(g)) by {
        assert forall|a: int, b: int| 0 <= a < b < g.len() implies g[a].location@ != g[b].location@ by {
            assert(files[a].location@ != files[b].location@);
        }
    }
    let prefix = files.drop_last();
    assert(spec_unique_locations(prefix)) by {
        assert forall|a: int, b: int| 0 <= a < b < prefix.len() implies prefix[a].location@ != prefix[b].location@ by {
            assert(prefix[a] == files[a] && prefix[b] == files[b]);
        }
    }
    if i == files.len() - 1 {
        assert(g.drop_last() =~= prefix);
        assert(spec_tracker_map(g) =~= spec_tracker_map(files).insert(f.location@, f@));
    } else {
        assert(g.drop_last() =~= prefix.update(i, f));
        assert(prefix[i] == files[i]);
        lemma_map_update(prefix, i, f);
        assert(files.last().location@ != f.location@);
        assert(spec_tracker_map(g) =~= spec_tracker_map(files).insert(f.location@, f@));
    }
}

proof fn lemma_map_push(files: Seq<TrackedFile>, f: TrackedFile)
    requires
        spec_unique_locations(files),
        forall|i: int| 0 <= i < files.len() ==> files[i].location@ != f.location@,
    ensures
        spec_unique_locations(files.push(f)),
        spec_tracker_map(files.push(f)) == spec_tracker_map(files).insert(f.location@, f@),
{
    let g = files.push(f);
    assert(g.drop_last() =~= files);
    assert(spec_unique_locations(g)) by {
        assert forall|a: int, b: int| 0 <= a < b < g.len() implies g[a].location@ != g[b].location@ by {
            if b < files.len() {
                assert(g[a] == files[a] && g[b] == files[b]);
            } else {
                assert(g[a] == files[a]);
            }
        }
    }
}

/// The list without every occurrence of `x`.
pub open spec fn spec_without(s: Seq<u64>, x: u64) -> Seq<u64>
    decreases s.len(),
{
    if s.len() == 0 {
        seq![]
    } else {
        spec_without(s.drop_last(), x) + if s.last() == x { seq![] } else { seq![s.last()] }
    }
}

pub(crate) proof fn lemma_remove_is_without(s: Seq<u64>, j: int)
    requires
        spec_ascending(s),
        0 <= j < s.len(),
    ensures
        s.remove(j) == spec_without(s, s[j]),
        spec_ascending(s.remove(j)),
    decreases s.len(),
{
    let x = s[j];
    let r = s.remove(j);
    assert(spec_ascending(r)) by {
        assert forall|a: int, b: int| 0 <= a < b < r.len() implies r[a] < r[b] by {
            if b < j {
            } else if a < j {
                assert(r[b] == s[b + 1]);
            } else {
                assert(r[a] == s[a + 1] && r[b] == s[b + 1]);
            }
        }
    }
    if j == s.len() - 1 {
        lemma_without_absent(s.drop_last(), x);
        assert(r =~= s.drop_last());
    } else {
        let p = s.drop_last();
        assert(spec_ascending(p));
        assert(p[j] == x);
        lemma_remove_is_without(p, j);
        assert(s.last() != x);
        assert(r =~= p.remove(j) + seq![s.last()]);
    }
}

proof fn lemma_without_absent(s: Seq<u64>, x: u64)
    requires
        forall|i: int| 0 <= i < s.len() ==> s[i] < x,
    ensures
        spec_without(s, x) == s,
    decreases s.len(),
{
    if s.len() > 0 {
        lemma_without_absent(s.drop_last(), x);
        assert(s.drop_last() + seq![s.last()] =~= s);
    }
}

} // verus!

verus! {

/// Copies of a list of download entries.
pub fn copy_entries(v: &Vec<DownloadEntry>) -> (r: Vec<DownloadEntry>)
    ensures
        r@.map_values(|e: DownloadEntry| e@) == v@.map_values(|e: DownloadEntry| e@),
{
    let mut r: Vec<DownloadEntry> = Vec::new();
    let mut i: usize = 0;
    while i < v.len()
        invariant
            i <= v.len(),
            r@.map_values(|e: DownloadEntry| e@) == v@.subrange(0, i as int).map_values(|e: DownloadEntry| e@),
        decreases v.len() - i,
    {
        let ghost prev = r@;
        let c = v[i].copy();
        r.push(c);
        proof {
            assert(v@.subrange(0, i + 1) =~= v@.subrange(0, i as int).push(v@[i as int]));
            assert(r@ =~= prev.push(c));
            assert(r@.map_values(|e: DownloadEntry| e@) =~= prev.map_values(|e: DownloadEntry| e@).push(c@));
            assert(r@.map_values(|e: DownloadEntry| e@) =~= v@.subrange(0, i + 1).map_values(|e: DownloadEntry| e@));
        }
        i = i + 1;
    }
    proof { assert(v@.subrange(0, v.len() as int) =~= v@); }
    r
}

/// Whether the completion bytes of these parts are strictly ascending, as
/// [`DownloadTracker::on_parts_determined`] needs.
pub fn part_bytes_ascending(parts: &Vec<FilePart>) -> (r: bool)
    ensures
        r == spec_ascending(parts@.map_values(|p: FilePart| p.part_byte)),
{
    let ghost s = parts@.map_values(|p: FilePart| p.part_byte);
    let mut i: usize = 1;
    if parts.len() == 0 {
        return true;
    }
    while i < parts.len()
        invariant
            1 <= i <= parts.len(),
            s == parts@.map_values(|p: FilePart| p.part_byte),
            forall|a: int, b: int| 0 <= a < b < i ==> s[a] < s[b],
        decreases parts.len() - i,
    {
        if parts[i - 1].part_byte >= parts[i].part_byte {
            assert(s[i - 1] >= s[i as int]);
            return false;
        }
        assert forall|a: int, b: int| 0 <= a < b < i + 1 implies s[a] < s[b] by {
            if b == i && a < i - 1 {
                assert(s[a] < s[i - 1]);
            }
        }
        i = i + 1;
    }
    true
}

impl DownloadTracker {
    /// Well-formed: locations are unique and every file's pending parts ascend.
    pub closed spec fn wf(&self) -> bool {
        &&& spec_unique_locations(self.files@)
        &&& forall|i: int| 0 <= i < self.files@.len() ==> spec_ascending(#[trigger] self.files@[i].pending_parts@)
    }

    /// The view of a well-formed tracker has ascending pending parts everywhere.
    pub proof fn lemma_pending_ascending(&self, k: Seq<char>)
        requires
            self.wf(),
            self@.contains_key(k),
        ensures
            spec_ascending(self@[k].pending_parts),
    {
        lemma_map_keys(self.files@, k);
        let i = choose|i: int| 0 <= i < self.files@.len() && self.files@[i].location@ == k;
        lemma_map_has(self.files@, i);
        assert(spec_ascending(self.files@[i].pending_parts@));
    }

    /// An empty tracker.
    pub fn new() -> (r: DownloadTracker)
        ensures
            r.wf(),
            r@ == Map::<Seq<char>, TrackedFileView>::empty(),
    {
        DownloadTracker { files: Vec::new() }
    }

    fn find(&self, location: &String) -> (r: Option<usize>)
        requires
            self.wf(),
        ensures
            match r {
                Some(i) => i < self.files@.len() && self.files@[i as int].location@ == location@
                    && self@.contains_key(location@) && self@[location@] == self.files@[i as int]@,
                None => !self@.contains_key(location@)
                    && forall|j: int| 0 <= j < self.files@.len() ==> self.files@[j].location@ != location@,
            },
    {
        let mut i: usize = 0;
        while i < self.files.len()
            invariant
                self.wf(),
                i <= self.files@.len(),
                forall|j: int| 0 <= j < i ==> self.files@[j].location@ != location@,
            decreases self.files.len() - i,
        {
            if self.files[i].location == *location {
                proof { lemma_map_has(self.files@, i as int); }
                return Some(i);
            }
            i = i + 1;
        }
        proof { lemma_map_lacks(self.files@, location@); }
        None
    }

    /// Whether a patch file at this location is tracked.
    pub fn is_tracked(&self, location: &String) -> (r: bool)
        requires
            self.wf(),
        ensures
            r == self@.contains_key(location@),
    {
        self.find(location).is_some()
    }

    /// Whether this part of the tracked file at `location` has not arrived yet.
    pub fn is_pending(&self, location: &String, part_byte: u64) -> (r: bool)
        requires
            self.wf(),
        ensures
            r == (self@.contains_key(location@) && self@[location@].pending_parts.contains(part_byte)),
    {
        match self.find(location) {
            None => false,
            Some(i) => {
                let pending = &self.files[i].pending_parts;
                let mut j: usize = 0;
                while j < pending.len()
                    invariant
                        self@.contains_key(location@),
                        pending@ == self@[location@].pending_parts,
                        j <= pending@.len(),
                        forall|a: int| 0 <= a < j ==> pending@[a] != part_byte,
                    decreases pending.len() - j,
                {
                    if pending[j] == part_byte {
                        assert(self@[location@].pending_parts[j as int] == part_byte);
                        return true;
                    }
                    j = j + 1;
                }
                false
            },
        }
    }
}

} // verus!

verus! {

impl DownloadTracker {
    /// Hands a download entry to the tracker. If its patch file is tracked and
    /// complete, the entry is patched now; if it is tracked and still
    /// downloading, the entry waits for it; otherwise its parts must be determined.
    pub fn on_download_action(&mut self, entry: DownloadEntry) -> (d: TrackerDecision)
        requires
            old(self).wf(),
        ensures
            final(self).wf(),
            ({
                let k = entry.download_path@;
                &&& old(self)@.contains_key(k) && old(self)@[k].pending_parts.len() == 0 ==> {
                    &&& final(self)@ == old(self)@
                    &&& d matches TrackerDecision::PatchNow(e) && e@ == entry@
                }
                &&& old(self)@.contains_key(k) && old(self)@[k].pending_parts.len() > 0 ==> {
                    &&& final(self)@ == old(self)@.insert(k, TrackedFileView {
                        entries: old(self)@[k].entries.push(entry@),
                        pending_parts: old(self)@[k].pending_parts,
                    })
                    &&& d is Queued
                }
                &&& !old(self)@.contains_key(k) ==> {
                    &&& final(self)@ == old(self)@
                    &&& d matches TrackerDecision::DetermineParts(e) && e@ == entry@
                }
            }),
    {
        match self.find(&entry.download_path) {
            None => TrackerDecision::DetermineParts(entry),
            Some(i) => {
                if self.files[i].pending_parts.len() == 0 {
                    TrackerDecision::PatchNow(entry)
                } else {
                    let ghost old_files = self.files@;
                    let ghost ev = entry@;
                    let mut f = self.files.remove(i);
                    let ghost old_entries = f.entries@;
                    f.entries.push(entry);
                    proof {
                        assert(f.entries@.map_values(|e: DownloadEntry| e@) =~=
                            old_entries.map_values(|e: DownloadEntry| e@).push(ev));
                        assert(spec_ascending(f.pending_parts@)) by { assert(old_files[i as int].pending_parts@ == f.pending_parts@); }
                        lemma_map_update(old_files, i as int, f);
                    }
                    self.files.insert(i, f);
                    proof {
                        assert(self.files@ =~= old_files.update(i as int, f));
                        assert forall|j: int| 0 <= j < self.files@.len() implies spec_ascending(#[trigger] self.files@[j].pending_parts@) by {
                            if j != i { assert(self.files@[j] == old_files[j]); }
                        }
                    }
                    TrackerDecision::Queued
                }
            },
        }
    }

    /// Records the parts that remain to be downloaded for an entry whose patch
    /// file was not tracked. With nothing missing the entry is patched now;
    /// otherwise the file is tracked with this entry waiting for those parts.
    pub fn on_parts_determined(&mut self, entry: DownloadEntry, parts: Vec<FilePart>) -> (d: PartsDecision)
        requires
            old(self).wf(),
            spec_ascending(parts@.map_values(|p: FilePart| p.part_byte)),
        ensures
            final(self).wf(),
            parts@.len() == 0 ==> {
                &&& final(self)@ == old(self)@
                &&& d matches PartsDecision::PatchNow(e) && e@ == entry@
            },
            parts@.len() > 0 ==> {
                &&& final(self)@ == old(self)@.insert(entry.download_path@, TrackedFileView {
                    entries: seq![entry@],
                    pending_parts: parts@.map_values(|p: FilePart| p.part_byte),
                })
                &&& d matches PartsDecision::Download(p)
                    && p@.map_values(|q: FilePart| q@) == parts@.map_values(|q: FilePart| q@)
            },
    {
        if parts.len() == 0 {
            return PartsDecision::PatchNow(entry);
        }
        let mut bytes: Vec<u64> = Vec::new();
        let mut i: usize = 0;
        while i < parts.len()
            invariant
                i <= parts@.len(),
                bytes@ == parts@.subrange(0, i as int).map_values(|p: FilePart| p.part_byte),
            decreases parts.len() - i,
        {
            bytes.push(parts[i].part_byte);
            proof {
                assert(parts@.subrange(0, i + 1) =~= parts@.subrange(0, i as int).push(parts@[i as int]));
                assert(bytes@ =~= parts@.subrange(0, i + 1).map_values(|p: FilePart| p.part_byte));
            }
            i = i + 1;
        }
        proof { assert(parts@.subrange(0, parts@.len() as int) =~= parts@); }
        let ghost ev = entry@;
        let location = entry.download_path.clone();
        let mut entries: Vec<DownloadEntry> = Vec::new();
        entries.push(entry);
        proof { assert(entries@.map_values(|e: DownloadEntry| e@) =~= seq![ev]); }
        let f = TrackedFile { location, entries, pending_parts: bytes };
        let ghost old_files = self.files@;
        match self.find(&f.location) {
            Some(j) => {
                proof { lemma_map_update(old_files, j as int, f); }
                self.files.remove(j);
                self.files.insert(j, f);
                proof {
                    assert(self.files@ =~= old_files.update(j as int, f));
                    assert forall|a: int| 0 <= a < self.files@.len() implies spec_ascending(#[trigger] self.files@[a].pending_parts@) by {
                        if a != j { assert(self.files@[a] == old_files[a]); }
                    }
                }
            },
            None => {
                proof { lemma_map_push(old_files, f); }
                self.files.push(f);
                proof {
                    assert forall|a: int| 0 <= a < self.files@.len() implies spec_ascending(#[trigger] self.files@[a].pending_parts@) by {
                        if a < old_files.len() { assert(self.files@[a] == old_files[a]); }
                    }
                }
            },
        }
        PartsDecision::Download(parts)
    }
}

} // verus!

verus! {

impl DownloadTracker {
    /// Records that a part of the tracked file at `location` has been written.
    /// When it was the last pending part, the entries waiting for the file are
    /// handed back, in the order they arrived, to be patched. An untracked
    /// location is an error.
    pub fn on_part_downloaded(&mut self, location: &String, part_byte: u64)
        -> (r: Result<Option<Vec<DownloadEntry>>, Error>)
        requires
            old(self).wf(),
            old(self)@.contains_key(location@) ==> old(self)@[location@].pending_parts.contains(part_byte),
        ensures
            final(self).wf(),
            !old(self)@.contains_key(location@) ==> {
                &&& final(self)@ == old(self)@
                &&& r matches Err(Error::Message(_))
            },
            old(self)@.contains_key(location@) ==> {
                let f = old(self)@[location@];
                let rest = spec_without(f.pending_parts, part_byte);
                &&& final(self)@ == old(self)@.insert(location@, TrackedFileView { entries: f.entries, pending_parts: rest })
                &&& r is Ok
                &&& rest.len() == 0 ==> (r matches Ok(Some(es)) && es@.map_values(|e: DownloadEntry| e@) == f.entries)
                &&& rest.len() > 0 ==> r matches Ok(None)
            },
    {
        let i = match self.find(location) {
            Some(i) => i,
            None => {
                let msg = crate::text::concat(&crate::text::owned("No tracker entry found for: "), location.as_str());
                return Err(Error::Message(msg));
            },
        };
        let ghost old_files = self.files@;
        let ghost fv = old_files[i as int]@;
        let ghost old_view = self@;
        assert(fv == old_view[location@]);
        let mut f = self.files.remove(i);
        assert(spec_ascending(f.pending_parts@)) by { assert(old_files[i as int] == f); }
        let mut j: usize = 0;
        while j < f.pending_parts.len() && f.pending_parts[j] != part_byte
            invariant
                j <= f.pending_parts@.len(),
                f.pending_parts@.contains(part_byte),
                forall|a: int| 0 <= a < j ==> f.pending_parts@[a] != part_byte,
            decreases f.pending_parts.len() - j,
        {
            j = j + 1;
        }
        proof {
            if j == f.pending_parts@.len() {
                let a = choose|a: int| 0 <= a < f.pending_parts@.len() && f.pending_parts@[a] == part_byte;
                assert(false);
            }
            lemma_remove_is_without(f.pending_parts@, j as int);
        }
        let ghost old_pending = f.pending_parts@;
        f.pending_parts.remove(j);
        assert(f.pending_parts@ == spec_without(old_pending, part_byte));
        let done = f.pending_parts.len() == 0;
        let out = if done { Some(copy_entries(&f.entries)) } else { None };
        proof {
            lemma_map_update(old_files, i as int, f);
            assert(f@ == TrackedFileView { entries: fv.entries, pending_parts: spec_without(fv.pending_parts, part_byte) });
        }
        self.files.insert(i, f);
        proof {
            assert(self.files@ =~= old_files.update(i as int, f));
            assert forall|a: int| 0 <= a < self.files@.len() implies spec_ascending(#[trigger] self.files@[a].pending_parts@) by {
                if a != i { assert(self.files@[a] == old_files[a]); }
            }
        }
        Ok(out)
    }
}

} // verus!
