//! SHA-256 checksums of data that comes in pieces.
use crate::encoding;
use crate::encoding::bytes_to_hex;
use crate::text;
use vstd::prelude::*;

verus! {

/// The most bytes that a checksum is taken of: their number of bits must fit in 64 bits.
pub const MAX_DIGEST_BYTES: u64 = 0x1fff_ffff_ffff_ffff;

#[verifier::external_type_specification]
#[verifier::external_body]
pub struct ExSha256(sha2::Sha256);

/// The bytes that a hasher has taken in so far.
pub uninterp spec fn absorbed(hasher: sha2::Sha256) -> Seq<u8>;

/// The SHA-256 digest of some bytes.
pub uninterp spec fn sha256(data: Seq<u8>) -> Seq<u8>;

/// `Digest::new` of `sha2::Sha256`: a hasher that has taken in nothing.
#[verifier::external_body]
fn sha256_start() -> (hasher: sha2::Sha256)
    ensures
        absorbed(hasher) == Seq::<u8>::empty(),
{
    sha2::Digest::new()
}

/// `Digest::update` of `sha2::Sha256`: the data is taken in behind what was there.
#[verifier::external_body]
fn sha256_update(hasher: &mut sha2::Sha256, data: &[u8])
    requires
        absorbed(*old(hasher)).len() + data@.len() <= MAX_DIGEST_BYTES,
    ensures
        absorbed(*final(hasher)) == absorbed(*old(hasher)) + data@,
{
    sha2::Digest::update(hasher, data)
}

/// `Digest::finalize` of `sha2::Sha256`: the 32 bytes named `sha256` of all that was taken in. The
/// length in bits is computed in 64 bits.
#[verifier::external_body]
fn sha256_finish(hasher: sha2::Sha256) -> (digest: Vec<u8>)
    requires
        absorbed(hasher).len() <= MAX_DIGEST_BYTES,
    ensures
        digest@ == sha256(absorbed(hasher)),
        digest@.len() == 32,
{
    sha2::Digest::finalize(hasher).to_vec()
}

/// The checksum of some bytes: their SHA-256 digest in lower-case hexadecimal digits.
pub open spec fn checksum(data: Seq<u8>) -> Seq<char> {
    encoding::hex_text(sha256(data))
}

/// A digit of a checksum.
pub open spec fn is_checksum_char(c: char) -> bool {
    '0' <= c <= '9' || 'a' <= c <= 'f'
}

/// A checksum: 64 lower-case hexadecimal digits.
pub open spec fn is_checksum(s: Seq<char>) -> bool {
    s.len() == 64 && text::all_in(s, |c: char| is_checksum_char(c))
}

/// A digest is written as a checksum.
proof fn lemma_is_checksum(digest: Seq<u8>)
    requires
        digest.len() == 32,
    ensures
        is_checksum(encoding::hex_text(digest)),
{
    encoding::lemma_hex_text_chars(digest);
}

/// A checksum in the making.
pub struct Checksum {
    hasher: sha2::Sha256,
    measured: u64,
}

impl Checksum {
    /// What was taken in so far.
    pub closed spec fn content(&self) -> Seq<u8> {
        absorbed(self.hasher)
    }

    pub closed spec fn well_formed(&self) -> bool {
        self.measured == self.content().len() && self.measured <= MAX_DIGEST_BYTES
    }

    pub fn new() -> (r: Self)
        ensures
            r.well_formed(),
            r.content() == Seq::<u8>::empty(),
    {
        Checksum { hasher: sha256_start(), measured: 0 }
    }

    /// Takes in the next piece.
    pub fn update(&mut self, data: &[u8])
        requires
            old(self).well_formed(),
            old(self).content().len() + data@.len() <= MAX_DIGEST_BYTES,
        ensures
            final(self).well_formed(),
            final(self).content() == old(self).content() + data@,
    {
        sha256_update(&mut self.hasher, data);
        self.measured = self.measured + data.len() as u64;
    }

    /// How many bytes were taken in.
    pub fn measured(&self) -> (r: u64)
        requires
            self.well_formed(),
        ensures
            r == self.content().len(),
    {
        self.measured
    }

    /// The checksum of all that was taken in.
    pub fn finish(self) -> (r: String)
        requires
            self.well_formed(),
        ensures
            r@ == checksum(self.content()),
            is_checksum(r@),
    {
        let digest = sha256_finish(self.hasher);
        proof {
            lemma_is_checksum(digest@);
        }
        bytes_to_hex(&digest)
    }
}

/// The checksum of data that is there as a whole.
pub fn checksum_of(data: &[u8]) -> (r: String)
    requires
        data@.len() <= MAX_DIGEST_BYTES,
    ensures
        r@ == checksum(data@),
        is_checksum(r@),
{
    let mut state = Checksum::new();
    state.update(data);
    assert(Seq::<u8>::empty() + data@ =~= data@);
    state.finish()
}

/// A checksum is 64 digits from `0` to `9` and from `a` to `f`, and nothing else is one.
pub proof fn law_checksums_are_written_in_small_digits(s: Seq<char>)
    ensures
        is_checksum(s) <==> s.len() == 64 && forall|i: int|
            0 <= i < s.len() ==> '0' <= #[trigger] s[i] <= '9' || 'a' <= s[i] <= 'f',
{
    if s.len() == 64 && (forall|i: int|
        0 <= i < s.len() ==> '0' <= #[trigger] s[i] <= '9' || 'a' <= s[i] <= 'f') {
        assert forall|i: int| 0 <= i < s.len() implies is_checksum_char(#[trigger] s[i]) by {}
    }
    if is_checksum(s) {
        assert forall|i: int| 0 <= i < s.len() implies '0' <= #[trigger] s[i] <= '9' || 'a' <= s[i]
            <= 'f' by {
            assert((|c: char| is_checksum_char(c))(s[i]));
        }
    }
}

/// A checksum writes the digest of the data byte by byte, the higher digit of a byte first.
pub proof fn law_checksum_writes_the_digest(data: Seq<u8>, i: int)
    requires
        0 <= i < sha256(data).len(),
    ensures
        checksum(data).len() == 2 * sha256(data).len(),
        encoding::hex_digit_value(checksum(data)[2 * i] as u8) == Some(
            (sha256(data)[i] / 16) as u8,
        ),
        encoding::hex_digit_value(checksum(data)[2 * i + 1] as u8) == Some(
            (sha256(data)[i] % 16) as u8,
        ),
{
    encoding::law_hexadecimal_digits_have_their_value(0, sha256(data), i);
}

} // verus!
