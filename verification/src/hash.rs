use vstd::prelude::*;
use vstd::utf8::{valid_utf8, decode_utf8};
use sha2::Digest;

verus! {

/// A `sha2::Sha256` hasher. `sha2::Sha256` is a type alias that Verus cannot
/// declare, so it is held in this opaque struct.
#[verifier::external_body]
pub struct Sha256State {
    inner: sha2::Sha256,
}

/// The SHA-256 digest of `data`, as computed by the `sha2` crate.
pub uninterp spec fn sha256_digest(data: Seq<u8>) -> Seq<u8>;

/// The bytes a `sha2::Sha256` hasher has been fed so far.
pub uninterp spec fn sha256_input(h: Sha256State) -> Seq<u8>;

/// `sha2::Sha256::new` (through `Digest::new`): a hasher that has been fed nothing.
#[verifier::external_body]
fn sha256_new() -> (h: Sha256State)
    ensures
        sha256_input(h) == Seq::<u8>::empty(),
{
    Sha256State { inner: sha2::Sha256::new() }
}

/// `Digest::update` of `sha2::Sha256`: feeds `data` after what was fed before.
#[verifier::external_body]
fn sha256_update(h: &mut Sha256State, data: &[u8])
    ensures
        sha256_input(*final(h)) == sha256_input(*old(h)) + data@,
{
    h.inner.update(data)
}

/// `Digest::finalize` of `sha2::Sha256`: the 32-byte digest of everything fed.
#[verifier::external_body]
fn sha256_finalize(h: Sha256State) -> (d: Vec<u8>)
    ensures
        d@ == sha256_digest(sha256_input(h)),
        d@.len() == 32,
{
    h.inner.finalize().to_vec()
}

/// `String::from_utf8` of std: the text the bytes encode, if they are valid UTF-8.
#[verifier::external_body]
pub(crate) fn utf8_text(bytes: &[u8]) -> (r: Option<String>)
    ensures
        r is Some <==> valid_utf8(bytes@),
        r matches Some(s) ==> s@ == decode_utf8(bytes@),
{
    String::from_utf8(bytes.to_vec()).ok()
}

/// The upper-case hexadecimal digit of `n` (below 16).
pub open spec fn spec_hex_digit(n: u8) -> char {
    if n < 10 { ((n + 48) as u8) as char } else { ((n + 55) as u8) as char }
}

/// Upper-case hexadecimal encoding: two digits per byte, high nibble first.
pub open spec fn spec_hex_upper(data: Seq<u8>) -> Seq<char>
    decreases data.len(),
{
    if data.len() == 0 {
        seq![]
    } else {
        spec_hex_upper(data.drop_last()) + seq![spec_hex_digit(data.last() / 16), spec_hex_digit(data.last() % 16)]
    }
}

/// The upper-case SHA-256 hex string of `data`, the form the version files use.
pub open spec fn spec_sha256_hex(data: Seq<u8>) -> Seq<char> {
    spec_hex_upper(sha256_digest(data))
}

fn hex_digit(n: u8) -> (c: char)
    requires
        n < 16,
    ensures
        c == spec_hex_digit(n),
{
    if n < 10 { (n + 48) as char } else { (n + 55) as char }
}

/// Upper-case hexadecimal encoding of `data`.
pub fn encode_upper(data: &[u8]) -> (r: String)
    ensures
        r@ == spec_hex_upper(data@),
{
    let mut r = String::new();
    let mut i: usize = 0;
    while i < data.len()
        invariant
            i <= data@.len(),
            r@ == spec_hex_upper(data@.subrange(0, i as int)),
        decreases data.len() - i,
    {
        let b = data[i];
        crate::text::push_char(&mut r, hex_digit(b / 16));
        crate::text::push_char(&mut r, hex_digit(b % 16));
        proof {
            assert(data@.subrange(0, i + 1).drop_last() =~= data@.subrange(0, i as int));
        }
        i = i + 1;
    }
    proof { assert(data@.subrange(0, data@.len() as int) =~= data@); }
    r
}

/// Incremental SHA-256 over bytes fed in pieces, as when hashing a file read in chunks.
pub struct FileHasher {
    hasher: Sha256State,
}

impl View for FileHasher {
    type V = Seq<u8>;

    /// The bytes fed so far.
    closed spec fn view(&self) -> Seq<u8> {
        sha256_input(self.hasher)
    }
}

impl FileHasher {
    /// A hasher that has been fed nothing.
    pub fn new() -> (h: FileHasher)
        ensures
            h@ == Seq::<u8>::empty(),
    {
        FileHasher { hasher: sha256_new() }
    }

    /// Feeds `data` after the bytes fed before.
    pub fn update(&mut self, data: &[u8])
        ensures
            final(self)@ == old(self)@ + data@,
    {
        sha256_update(&mut self.hasher, data)
    }

    /// The upper-case hex SHA-256 of everything fed.
    pub fn finish(self) -> (r: String)
        ensures
            r@ == spec_sha256_hex(self@),
    {
        let d = sha256_finalize(self.hasher);
        encode_upper(d.as_slice())
    }
}

/// The upper-case hex SHA-256 of `data`.
pub fn sha256_hex(data: &[u8]) -> (r: String)
    ensures
        r@ == spec_sha256_hex(data@),
{
    let mut h = FileHasher::new();
    h.update(data);
    proof { assert(Seq::<u8>::empty() + data@ =~= data@); }
    h.finish()
}

} // verus!
