use vstd::prelude::*;

verus! {

/// Size of one downloaded part: 2^20 bytes.
pub const PART_SIZE: u64 = 1048576;

/// A byte range of a patch file to download, and the byte at the end of the
/// file that records that the range has arrived.
#[derive(Debug)]
pub struct FilePart {
    /// Local file the part belongs to
    pub file: String,
    /// Offset of the completion byte of this part
    pub part_byte: u64,
    /// First byte of the range
    pub from: u64,
    /// End of the range (exclusive)
    pub to: u64,
}

pub struct FilePartView {
    pub file: Seq<char>,
    pub part_byte: nat,
    pub from: nat,
    pub to: nat,
}

impl View for FilePart {
    type V = FilePartView;

    open spec fn view(&self) -> FilePartView {
        FilePartView { file: self.file@, part_byte: self.part_byte as nat, from: self.from as nat, to: self.to as nat }
    }
}

impl FilePart {
    pub fn new(file: String, part_byte: u64, from: u64, to: u64) -> (r: FilePart)
        ensures
            r@ == (FilePartView { file: file@, part_byte: part_byte as nat, from: from as nat, to: to as nat }),
    {
        FilePart { file, part_byte, from, to }
    }
}

/// The number of parts of a file of `size` bytes: `size / PART_SIZE`, rounded up.
pub open spec fn spec_parts_amount(size: nat) -> nat {
    size / (PART_SIZE as nat) + if size % (PART_SIZE as nat) > 0 { 1nat } else { 0nat }
}

/// Sizes for which the part bookkeeping fits in `u64`: the file with its
/// completion bytes, and the end of the last part.
pub open spec fn spec_size_fits(size: nat) -> bool {
    &&& size + spec_parts_amount(size) <= u64::MAX
    &&& spec_parts_amount(size) * (PART_SIZE as nat) <= u64::MAX
}

/// Part `i` of a file of `size` bytes stored at `file`.
pub open spec fn spec_part(file: Seq<char>, size: nat, i: nat) -> FilePartView {
    FilePartView {
        file,
        part_byte: size + i,
        from: i * (PART_SIZE as nat),
        to: if (i + 1) * (PART_SIZE as nat) < size { (i + 1) * (PART_SIZE as nat) } else { size },
    }
}

/// The parts whose completion byte in `completed` is 0, in ascending order.
pub open spec fn spec_missing_parts(file: Seq<char>, size: nat, completed: Seq<u8>) -> Seq<FilePartView>
    decreases completed.len(),
{
    if completed.len() == 0 {
        seq![]
    } else {
        let last = (completed.len() - 1) as nat;
        spec_missing_parts(file, size, completed.drop_last()) + if completed[last as int] == 0 {
            seq![spec_part(file, size, last)]
        } else {
            seq![]
        }
    }
}

/// The number of bytes that a list of parts covers.
pub open spec fn spec_parts_bytes(parts: Seq<FilePartView>) -> int
    decreases parts.len(),
{
    if parts.len() == 0 {
        0
    } else {
        spec_parts_bytes(parts.drop_last()) + (parts.last().to - parts.last().from)
    }
}

/// What to do with a partially downloaded file, given its length on disk.
#[derive(Debug, PartialEq, Eq)]
pub enum ExistingFile {
    /// It has the size of a download in progress: read its completion bytes.
    InProgress,
    /// It has exactly the size of the finished download: check its hash; if it
    /// does not match, resize it and download everything.
    MaybeComplete,
    /// Any other size: resize it, then read its (zeroed) completion bytes.
    Resize,
}

/// The number of parts of a file of `size` bytes.
pub fn parts_amount(size: u64) -> (r: u64)
    ensures
        r == spec_parts_amount(size as nat),
{
    size / PART_SIZE + if size % PART_SIZE > 0 { 1 } else { 0 }
}

/// The size a partially downloaded file has on disk: the data plus one completion byte per part.
pub fn tracked_file_size(size: u64) -> (r: u64)
    requires
        spec_size_fits(size as nat),
    ensures
        r == size + spec_parts_amount(size as nat),
{
    size + parts_amount(size)
}

/// Classifies a file on disk of length `len` that should hold a download of `size` bytes.
pub fn classify_existing_file(len: u64, size: u64) -> (r: ExistingFile)
    requires
        spec_size_fits(size as nat),
    ensures
        len == size + spec_parts_amount(size as nat) ==> r == ExistingFile::InProgress,
        len != size + spec_parts_amount(size as nat) && len == size ==> r == ExistingFile::MaybeComplete,
        len != size + spec_parts_amount(size as nat) && len != size ==> r == ExistingFile::Resize,
{
    if len != tracked_file_size(size) {
        if len == size {
            ExistingFile::MaybeComplete
        } else {
            ExistingFile::Resize
        }
    } else {
        ExistingFile::InProgress
    }
}

/// Every part of a file starts before its end.
proof fn lemma_part_starts_inside(size: nat, i: nat)
    requires
        i < spec_parts_amount(size),
    ensures
        i * (PART_SIZE as nat) < size,
{
    let p = PART_SIZE as nat;
    let q = size / p;
    let m = size % p;
    assert(size == q * p + m && m < p) by (nonlinear_arith)
        requires p > 0, q == size / p, m == size % p;
    if i < q {
        assert(i * p < q * p) by (nonlinear_arith) requires i < q, p > 0;
    } else {
        assert(i == q && m > 0);
    }
}

/// The parts of `file` (a download of `size` bytes) that still have to be
/// downloaded, read off its completion bytes: those that are 0; and the
/// number of bytes they cover.
pub fn parts_to_download(file: &String, size: u64, completed: &Vec<u8>) -> (r: (Vec<FilePart>, u64))
    requires
        spec_size_fits(size as nat),
        completed@.len() == spec_parts_amount(size as nat),
    ensures
        r.0@.map_values(|p: FilePart| p@) == spec_missing_parts(file@, size as nat, completed@),
        r.1 == spec_parts_bytes(spec_missing_parts(file@, size as nat, completed@)),
{
    let mut total: u64 = 0;
    let mut r: Vec<FilePart> = Vec::new();
    let n = completed.len();
    let mut i: usize = 0;
    while i < n
        invariant
            n == completed@.len(),
            i <= n,
            n == spec_parts_amount(size as nat),
            spec_size_fits(size as nat),
            r@.map_values(|p: FilePart| p@) == spec_missing_parts(file@, size as nat, completed@.subrange(0, i as int)),
            total == spec_parts_bytes(spec_missing_parts(file@, size as nat, completed@.subrange(0, i as int))),
            total <= i * PART_SIZE,
            total <= size,
        decreases n - i,
    {
        proof {
            assert(completed@.subrange(0, i + 1).drop_last() =~= completed@.subrange(0, i as int));
        }
        if completed[i] == 0 {
            let idx = i as u64;
            assert(idx * PART_SIZE <= (n as u64) * PART_SIZE) by (nonlinear_arith)
                requires idx < n;
            assert((idx + 1) * PART_SIZE <= (n as u64) * PART_SIZE) by (nonlinear_arith)
                requires idx < n;
            let from = idx * PART_SIZE;
            let end = (idx + 1) * PART_SIZE;
            let to = if end < size { end } else { size };
            proof { lemma_part_starts_inside(size as nat, i as nat); }
            assert(total + (to - from) <= (idx + 1) * PART_SIZE) by (nonlinear_arith)
                requires total <= idx * PART_SIZE, to <= (idx + 1) * PART_SIZE, from == idx * PART_SIZE;
            let part = FilePart::new(file.clone(), size + idx, from, to);
            r.push(part);
            total = total + (to - from);
            proof {
                assert(r@.map_values(|p: FilePart| p@) =~= spec_missing_parts(file@, size as nat, completed@.subrange(0, i as int))
                    + seq![spec_part(file@, size as nat, i as nat)]);
                let prev = spec_missing_parts(file@, size as nat, completed@.subrange(0, i as int));
                let next = prev + seq![spec_part(file@, size as nat, i as nat)];
                assert(next.drop_last() =~= prev);
            }
        } else {
            proof {
                assert(r@.map_values(|p: FilePart| p@) =~= spec_missing_parts(file@, size as nat, completed@.subrange(0, i as int))
                    + seq![]);
            }
            assert(total <= (i + 1) * PART_SIZE) by (nonlinear_arith) requires total <= i * PART_SIZE;
        }
        i = i + 1;
    }
    proof {
        assert(completed@.subrange(0, n as int) =~= completed@);
    }
    (r, total)
}

} // verus!
