//! SHA-256 checksums.
use sha2::Digest;
use vstd::prelude::*;

use crate::text::hex_text;

verus! {

/// The longest message that SHA-256 is defined for, in whole bytes: its length in bits is
/// recorded in 64 bits.
pub const MAX_MESSAGE: u64 = 0x1fff_ffff_ffff_ffff;

/// The length of a checksum in characters.
pub const CHECKSUM_LEN: u64 = 64;

/// A running `sha2::Sha256` hasher. The verifier sees nothing of the hasher but the message it
/// has been given so far, under the name [`absorbed`].
#[verifier::external_body]
pub struct Sha256Stream {
    inner: sha2::Sha256,
}

/// The bytes that a hasher has been given, in the order in which they came.
pub uninterp spec fn absorbed(stream: Sha256Stream) -> Seq<u8>;

/// The SHA-256 digest of a message: what `sha2` computes for it.
pub uninterp spec fn sha256(message: Seq<u8>) -> Seq<u8>;

/// `Sha256::new`: a hasher that has been given nothing yet.
#[verifier::external_body]
fn stream_new() -> (stream: Sha256Stream)
    ensures
        absorbed(stream) == Seq::<u8>::empty(),
{
    Sha256Stream { inner: sha2::Sha256::new() }
}

/// `Sha256::update`: the hasher has then been given the earlier bytes, followed by `data`.
#[verifier::external_body]
fn stream_update(stream: &mut Sha256Stream, data: &[u8])
    requires
        absorbed(*old(stream)).len() + data@.len() <= MAX_MESSAGE,
    ensures
        absorbed(*final(stream)) == absorbed(*old(stream)) + data@,
{
    stream.inner.update(data);
}

/// `Sha256::finalize`: the 32 bytes of the digest of everything the hasher was given.
#[verifier::external_body]
fn stream_finalize(stream: Sha256Stream) -> (digest: Vec<u8>)
    requires
        absorbed(stream).len() <= MAX_MESSAGE,
    ensures
        digest@ == sha256(absorbed(stream)),
        digest@.len() == 32,
{
    stream.inner.finalize().to_vec()
}

/// The checksum of a message: its SHA-256 digest in lower-case hexadecimal.
pub open spec fn checksum(message: Seq<u8>) -> Seq<char> {
    crate::text::hex_lower(sha256(message))
}

/// The text has the form of a checksum: 64 lower-case hexadecimal digits.
pub open spec fn is_checksum(text: Seq<char>) -> bool {
    &&& text.len() == CHECKSUM_LEN
    &&& forall|i: int|
        0 <= i < text.len() ==> '0' <= #[trigger] text[i] <= '9' || 'a' <= text[i] <= 'f'
}

/// A checksum in the making, of a message that comes in parts.
pub struct Hasher {
    stream: Sha256Stream,
    length: u64,
}

impl View for Hasher {
    type V = Seq<u8>;

    /// The message so far.
    closed spec fn view(&self) -> Seq<u8> {
        absorbed(self.stream)
    }
}

impl Hasher {
    #[verifier::type_invariant]
    spec fn counted(self) -> bool {
        &&& self.length == absorbed(self.stream).len()
        &&& self.length <= MAX_MESSAGE
    }

    /// A checksum of the empty message, to be continued.
    pub fn new() -> (hasher: Hasher)
        ensures
            hasher@ == Seq::<u8>::empty(),
    {
        Hasher { stream: stream_new(), length: 0 }
    }

    /// The length of the message so far.
    pub fn length(&self) -> (length: u64)
        ensures
            length == self@.len(),
            length <= MAX_MESSAGE,
    {
        proof {
            use_type_invariant(self);
        }
        self.length
    }

    /// Continues the message with `data`.
    pub fn absorb(self, data: &[u8]) -> (hasher: Hasher)
        requires
            self@.len() + data@.len() <= MAX_MESSAGE,
        ensures
            hasher@ == self@ + data@,
    {
        proof {
            use_type_invariant(&self);
        }
        let mut stream = self.stream;
        let length: u64 = self.length + data.len() as u64;
        stream_update(&mut stream, data);
        Hasher { stream, length }
    }

    /// The checksum of the message.
    pub fn finish(self) -> (text: String)
        ensures
            text@ == checksum(self@),
            is_checksum(text@),
    {
        proof {
            use_type_invariant(&self);
        }
        let digest = stream_finalize(self.stream);
        proof {
            crate::text::lemma_hex_lower_digits(digest@);
        }
        hex_text(digest.as_slice())
    }
}

/// The checksum of a file, from its contents.
pub fn compute_sha256_file(contents: &[u8]) -> (text: String)
    requires
        contents@.len() <= MAX_MESSAGE,
    ensures
        text@ == checksum(contents@),
        is_checksum(text@),
{
    let hasher = Hasher::new().absorb(contents);
    assert(hasher@ =~= contents@);
    hasher.finish()
}

/// A checksum text is ASCII: each of its bytes is one of its characters.
pub proof fn lemma_checksum_bytes(message: Seq<u8>)
    requires
        checksum(message).len() == CHECKSUM_LEN,
    ensures
        vstd::utf8::encode_utf8(checksum(message)).len() == CHECKSUM_LEN,
{
    crate::text::lemma_hex_lower_digits(sha256(message));
    assert(vstd::utf8::is_ascii_chars(checksum(message)));
    vstd::utf8::is_ascii_chars_encode_utf8(checksum(message));
}

/// A checksum reads, two hexadecimal digits a byte, as the SHA-256 digest of the whole message.
pub proof fn law_checksum_is_the_digest(message: Seq<u8>)
    ensures
        checksum(message).len() == 2 * sha256(message).len(),
        forall|i: int|
            0 <= i < checksum(message).len() ==> '0' <= #[trigger] checksum(message)[i] <= '9'
                || 'a' <= checksum(message)[i] <= 'f',
        forall|i: int|
            0 <= i < sha256(message).len() ==> #[trigger] sha256(message)[i] == 16
                * crate::text::hex_value(checksum(message)[2 * i]) + crate::text::hex_value(
                checksum(message)[2 * i + 1],
            ),
{
    crate::text::law_hex_reads_back(sha256(message));
}

/// Messages with the same checksum have the same SHA-256 digest, and the other way round: a
/// checksum says as much of a message as the digest does.
pub proof fn law_same_checksum_same_digest(one: Seq<u8>, other: Seq<u8>)
    ensures
        checksum(one) == checksum(other) <==> sha256(one) == sha256(other),
{
    if checksum(one) == checksum(other) {
        crate::text::lemma_hex_lower_injective(sha256(one), sha256(other));
    }
}

/// The longest message is the longest whose length in bits fits in 64 bits, and a checksum has two
/// characters for each of the 32 bytes of a digest.
pub proof fn law_message_limit()
    ensures
        8 * (MAX_MESSAGE + 1) == 0x1_0000_0000_0000_0000,
        CHECKSUM_LEN == 2 * 32,
{
}

} // verus!
