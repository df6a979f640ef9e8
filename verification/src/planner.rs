use vstd::prelude::*;
use crate::instruction::{Instruction, InstructionView};
use crate::progress::Progress;
use crate::text::concat;

verus! {

/// A patch to apply once its patch file is downloaded.
#[derive(Debug)]
pub struct PatchEntry {
    /// Path to target file
    pub target_path: String,
    /// path to patch file
    pub delta_path: String,
    /// If the patch file requires a target file
    pub has_source: bool,
    /// The expected target hash after patching
    pub target_hash: String,
}

pub struct PatchEntryView {
    pub target_path: Seq<char>,
    pub delta_path: Seq<char>,
    pub has_source: bool,
    pub target_hash: Seq<char>,
}

impl View for PatchEntry {
    type V = PatchEntryView;

    open spec fn view(&self) -> PatchEntryView {
        PatchEntryView {
            target_path: self.target_path@,
            delta_path: self.delta_path@,
            has_source: self.has_source,
            target_hash: self.target_hash@,
        }
    }
}

/// A patch file to download and the patches that wait for it.
#[derive(Debug)]
pub struct DownloadEntry {
    file_path: String,
    file_size: usize,
    file_hash: String,
    patch_entries: Vec<PatchEntry>,
}

pub struct DownloadEntryView {
    pub file_path: Seq<char>,
    pub file_size: nat,
    pub file_hash: Seq<char>,
    pub patch_entries: Seq<PatchEntryView>,
}

impl View for DownloadEntry {
    type V = DownloadEntryView;

    closed spec fn view(&self) -> DownloadEntryView {
        DownloadEntryView {
            file_path: self.file_path@,
            file_size: self.file_size as nat,
            file_hash: self.file_hash@,
            patch_entries: self.patch_entries@.map_values(|p: PatchEntry| p@),
        }
    }
}

impl DownloadEntry {
    /// Where the patch file is stored.
    pub fn file_path(&self) -> (r: &String)
        ensures
            r@ == self@.file_path,
    {
        &self.file_path
    }

    /// The size of the patch file.
    pub fn file_size(&self) -> (r: usize)
        ensures
            r == self@.file_size,
    {
        self.file_size
    }

    /// The expected hash of the patch file.
    pub fn file_hash(&self) -> (r: &String)
        ensures
            r@ == self@.file_hash,
    {
        &self.file_hash
    }

    /// The patches waiting for the patch file, in the order they were planned.
    pub fn patch_entries(&self) -> (r: &Vec<PatchEntry>)
        ensures
            r@.map_values(|p: PatchEntry| p@) == self@.patch_entries,
    {
        &self.patch_entries
    }
}

/// The position of the download for hash `key`.
pub open spec fn spec_find_download(downloads: Seq<(Seq<char>, DownloadEntryView)>, key: Seq<char>) -> Option<int>
    decreases downloads.len(),
{
    if downloads.len() == 0 {
        None
    } else {
        match spec_find_download(downloads.drop_last(), key) {
            Some(i) => Some(i),
            None => if downloads.last().0 == key { Some(downloads.len() - 1) } else { None },
        }
    }
}

/// A later download never hides an earlier one with the same hash.
proof fn lemma_find_download_extend(downloads: Seq<(Seq<char>, DownloadEntryView)>, key: Seq<char>, n: int)
    requires
        0 <= n <= downloads.len(),
        spec_find_download(downloads.subrange(0, n), key) is Some,
    ensures
        spec_find_download(downloads, key) == spec_find_download(downloads.subrange(0, n), key),
    decreases downloads.len(),
{
    if n == downloads.len() {
        assert(downloads.subrange(0, n) =~= downloads);
    } else {
        assert(downloads.drop_last().subrange(0, n) =~= downloads.subrange(0, n));
        lemma_find_download_extend(downloads.drop_last(), key, n);
    }
}

/// The first download whose hash is `key` is found.
proof fn lemma_find_download_prefix(downloads: Seq<(Seq<char>, DownloadEntryView)>, key: Seq<char>, n: int)
    requires
        1 <= n <= downloads.len(),
        spec_find_download(downloads.subrange(0, n - 1), key) is None,
        downloads[n - 1].0 == key,
    ensures
        spec_find_download(downloads, key) == Some(n - 1),
{
    let prefix = downloads.subrange(0, n);
    assert(prefix.drop_last() =~= downloads.subrange(0, n - 1));
    assert(spec_find_download(prefix, key) == Some(n - 1));
    lemma_find_download_extend(downloads, key, n);
}

/// A download appended for a hash that had none is found at the end.
proof fn lemma_find_download_absent_push(
    downloads: Seq<(Seq<char>, DownloadEntryView)>,
    key: Seq<char>,
    entry: (Seq<char>, DownloadEntryView),
)
    requires
        spec_find_download(downloads, key) is None,
        entry.0 == key,
    ensures
        spec_find_download(downloads.push(entry), key) == Some(downloads.len() as int),
{
    assert(downloads.push(entry).drop_last() =~= downloads);
}

/// Where the full patch file for hash `key` is stored.
pub open spec fn spec_delta_path(renegadex_location: Seq<char>, key: Seq<char>) -> Seq<char> {
    renegadex_location + "patcher/"@ + key
}

/// The plan after queueing `instruction` for a hash check.
pub open spec fn spec_queue_hash(p: PlannerView, instruction: InstructionView) -> PlannerView {
    PlannerView {
        hash_queue: p.hash_queue.push(instruction),
        state: Progress {
            hashes_checked: (p.state.hashes_checked.0, (p.state.hashes_checked.1 + 1) as u64),
            ..p.state
        },
        ..p
    }
}

/// The plan after adding the patch of `instruction` (whose newest hash is
/// `key`) behind the download of its full patch file.
pub open spec fn spec_add_patch(p: PlannerView, instruction: InstructionView, key: Seq<char>) -> PlannerView {
    let delta_path = spec_delta_path(p.renegadex_location, key);
    let downloads = match spec_find_download(p.downloads, key) {
        Some(_) => p.downloads,
        None => p.downloads.push((key, DownloadEntryView {
            file_path: delta_path,
            file_size: instruction.full_vcdiff_size,
            file_hash: instruction.full_vcdiff_hash.unwrap(),
            patch_entries: Seq::empty(),
        })),
    };
    let download_total = match spec_find_download(p.downloads, key) {
        Some(_) => p.state.download_size.1,
        None => (p.state.download_size.1 + instruction.full_vcdiff_size) as u64,
    };
    let i = spec_find_download(downloads, key).unwrap();
    let found = downloads[i];
    let patch = PatchEntryView {
        target_path: instruction.path,
        delta_path,
        has_source: false,
        target_hash: key,
    };
    PlannerView {
        downloads: downloads.update(i, (found.0, DownloadEntryView {
            patch_entries: found.1.patch_entries.push(patch),
            ..found.1
        })),
        state: Progress {
            download_size: (p.state.download_size.0, download_total),
            patch_files: (p.state.patch_files.0, (p.state.patch_files.1 + 1) as u64),
            ..p.state
        },
        ..p
    }
}

/// The plan after processing `instruction`, given whether its file opens.
pub open spec fn spec_process(p: PlannerView, instruction: InstructionView, file_opens: bool) -> PlannerView {
    if file_opens {
        if instruction.newest_hash is Some {
            spec_queue_hash(p, instruction)
        } else {
            p
        }
    } else {
        match instruction.newest_hash {
            None => p,
            Some(key) => spec_add_patch(p, instruction, key),
        }
    }
}

/// Processing `instruction` overflows no counter, and a new download has
/// the hash of its patch file.
pub open spec fn spec_process_fits(p: PlannerView, instruction: InstructionView, file_opens: bool) -> bool {
    if file_opens {
        instruction.newest_hash is Some ==> p.state.hashes_checked.1 < u64::MAX
    } else {
        match instruction.newest_hash {
            None => true,
            Some(key) => {
                &&& p.state.patch_files.1 < u64::MAX
                &&& spec_find_download(p.downloads, key) is None ==> {
                    &&& instruction.full_vcdiff_hash is Some
                    &&& p.state.download_size.1 + instruction.full_vcdiff_size <= u64::MAX
                }
            },
        }
    }
}

/// Plans the work for a list of instructions: which files to hash, which
/// patch files to download (each once) and which patches wait for them.
pub struct Planner {
    renegadex_location: String,
    /// The planned downloads, each under the hash of the file it brings, in
    /// the order planned; a hash is planned once (see [`spec_find_download`]).
    downloads: Vec<(String, DownloadEntry)>,
    hash_queue: Vec<Instruction>,
    state: Progress,
}

pub struct PlannerView {
    pub renegadex_location: Seq<char>,
    pub downloads: Seq<(Seq<char>, DownloadEntryView)>,
    pub hash_queue: Seq<InstructionView>,
    pub state: Progress,
}

impl View for Planner {
    type V = PlannerView;

    closed spec fn view(&self) -> PlannerView {
        PlannerView {
            renegadex_location: self.renegadex_location@,
            downloads: self.downloads@.map_values(|d: (String, DownloadEntry)| (d.0@, d.1@)),
            hash_queue: self.hash_queue@.map_values(|i: Instruction| i@),
            state: self.state,
        }
    }
}

impl Planner {
    /// Nothing planned yet for the installation at `renegadex_location`.
    pub fn new(renegadex_location: String) -> (r: Planner)
        ensures
            r@.renegadex_location == renegadex_location@,
            r@.downloads == Seq::<(Seq<char>, DownloadEntryView)>::empty(),
            r@.hash_queue == Seq::<InstructionView>::empty(),
            r@.state == Progress::new_spec(),
    {
        let r = Planner { renegadex_location, downloads: Vec::new(), hash_queue: Vec::new(), state: Progress::new() };
        proof {
            assert(r@.downloads =~= Seq::<(Seq<char>, DownloadEntryView)>::empty());
            assert(r@.hash_queue =~= Seq::<InstructionView>::empty());
        }
        r
    }

    /// The number of planned downloads.
    pub fn download_count(&self) -> (r: usize)
        ensures
            r == self@.downloads.len(),
    {
        self.downloads.len()
    }

    /// The planned download at position `i`, with the hash it is planned for.
    pub fn download(&self, i: usize) -> (r: &(String, DownloadEntry))
        requires
            i < self@.downloads.len(),
        ensures
            (r.0@, r.1@) == self@.downloads[i as int],
    {
        &self.downloads[i]
    }

    /// The number of files queued for a hash check.
    pub fn hash_queue_len(&self) -> (r: usize)
        ensures
            r == self@.hash_queue.len(),
    {
        self.hash_queue.len()
    }

    /// The overall progress counted so far.
    pub fn state(&self) -> (r: Progress)
        ensures
            r == self@.state,
    {
        self.state
    }

    /// Queues `instruction` for a hash check and counts one more hash to check.
    pub fn add_file_to_hash_queue(&mut self, instruction: &Instruction)
        requires
            old(self)@.state.hashes_checked.1 < u64::MAX,
        ensures
            final(self)@ == spec_queue_hash(old(self)@, instruction@),
    {
        let ghost before = self@;
        self.hash_queue.push(instruction.copy());
        self.state.hashes_checked.1 = self.state.hashes_checked.1 + 1;
        proof {
            assert(self@.hash_queue =~= before.hash_queue.push(instruction@));
            assert(self@.downloads =~= before.downloads);
        }
    }

    /// The position in the plan of the download for hash `key`, if any.
    fn find_download(&self, key: &String) -> (r: Option<usize>)
        ensures
            r matches Some(i) ==> spec_find_download(self@.downloads, key@) == Some(i as int) && i < self@.downloads.len(),
            r is None ==> spec_find_download(self@.downloads, key@) is None,
    {
        let mut i: usize = 0;
        while i < self.downloads.len()
            invariant
                i <= self.downloads.len(),
                spec_find_download(self@.downloads.subrange(0, i as int), key@) is None,
            decreases self.downloads.len() - i,
        {
            let ghost prefix = self@.downloads.subrange(0, i as int + 1);
            proof {
                assert(prefix.drop_last() =~= self@.downloads.subrange(0, i as int));
                assert(prefix.last() == self@.downloads[i as int]);
            }
            if self.downloads[i].0.eq(key) {
                proof { lemma_find_download_prefix(self@.downloads, key@, i as int + 1); }
                return Some(i);
            }
            i = i + 1;
        }
        proof { assert(self@.downloads.subrange(0, i as int) =~= self@.downloads); }
        None
    }

    /// Plans what `instruction` needs, given whether its file could be opened.
    ///
    /// A file that opens and is to be kept goes to the hash queue. A file that
    /// does not open and is to exist gets a patch entry behind the download of
    /// its full patch file, which is planned once per hash.
    pub fn process_instruction(&mut self, instruction: &Instruction, file_opens: bool)
        requires
            spec_process_fits(old(self)@, instruction@, file_opens),
        ensures
            final(self)@ == spec_process(old(self)@, instruction@, file_opens),
    {
        if file_opens {
            if instruction.newest_hash.is_some() {
                self.add_file_to_hash_queue(instruction);
            }
            return;
        }
        match &instruction.newest_hash {
            None => {},
            Some(key) => {
                let ghost before = self@;
                let prefix = concat(&self.renegadex_location, "patcher/");
                let delta_path = concat(&prefix, key.as_str());
                proof {
                    reveal_strlit("patcher/");
                    assert(delta_path@ == spec_delta_path(before.renegadex_location, key@));
                }
                let index = match self.find_download(key) {
                    Some(i) => i,
                    None => {
                        let file_hash = match &instruction.full_vcdiff_hash {
                            Some(h) => h.clone(),
                            None => { proof { assert(false); } String::new() },
                        };
                        let entry = DownloadEntry {
                            file_path: delta_path.clone(),
                            file_size: instruction.full_vcdiff_size,
                            file_hash,
                            patch_entries: Vec::new(),
                        };
                        proof { assert(entry@.patch_entries =~= Seq::<PatchEntryView>::empty()); }
                        let n = self.downloads.len();
                        self.downloads.push((key.clone(), entry));
                        self.state.download_size.1 = self.state.download_size.1 + instruction.full_vcdiff_size as u64;
                        proof {
                            lemma_find_download_absent_push(before.downloads, key@, (key@, entry@));
                            assert(self@.downloads =~= before.downloads.push((key@, entry@)));
                        }
                        n
                    },
                };
                let ghost middle = self@;
                let patch_entry = PatchEntry {
                    target_path: instruction.path.clone(),
                    delta_path,
                    has_source: false,
                    target_hash: key.clone(),
                };
                let (k, mut entry) = self.downloads.remove(index);
                entry.patch_entries.push(patch_entry);
                self.downloads.insert(index, (k, entry));
                self.state.patch_files.1 = self.state.patch_files.1 + 1;
                proof {
                    assert(entry@.patch_entries =~= middle.downloads[index as int].1.patch_entries.push(patch_entry@));
                    assert(self@.downloads =~= middle.downloads.update(index as int, (k@, entry@)));
                    assert(self@.hash_queue =~= before.hash_queue);
                }
            },
        }
    }
}

} // verus!
