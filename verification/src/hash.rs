//! The digest functions that measurement registers are extended with.

use sha2::{Digest, Sha256, Sha384};
use vstd::prelude::*;

verus! {

/// The SHA-256 digest of `data`, as `sha2` computes it.
pub uninterp spec fn sha256(data: Seq<u8>) -> [u8; 32];

/// The SHA-384 digest of `data`, as `sha2` computes it.
pub uninterp spec fn sha384(data: Seq<u8>) -> [u8; 48];

/// `sha2::Sha256::digest`, with the result copied into a vector.
///
/// Trusted: the call depends on the bytes of `data` alone, and its result
/// is what `sha256` names.
#[verifier::external_body]
fn sha256_digest(data: &[u8]) -> (r: Vec<u8>)
    ensures
        r@ == sha256(data@)@,
{
    Sha256::digest(data).to_vec()
}

/// `sha2::Sha384::digest`, with the result copied into a vector.
///
/// Trusted: the call depends on the bytes of `data` alone, and its result
/// is what `sha384` names.
#[verifier::external_body]
fn sha384_digest(data: &[u8]) -> (r: Vec<u8>)
    ensures
        r@ == sha384(data@)@,
{
    Sha384::digest(data).to_vec()
}

/// A digest function with a fixed output length.
#[derive(Clone, Copy, Debug, PartialEq, Eq, Structural)]
pub enum HashAlgorithm {
    Sha256,
    Sha384,
}

/// The chunks of `chunks` joined in order into one message.
pub open spec fn joined(chunks: Seq<Seq<u8>>) -> Seq<u8>
    decreases chunks.len(),
{
    if chunks.len() == 0 {
        Seq::empty()
    } else {
        joined(chunks.drop_last()) + chunks.last()
    }
}

/// The bytes of each chunk of `chunks`, in order.
pub open spec fn chunk_views(chunks: Seq<&[u8]>) -> Seq<Seq<u8>> {
    Seq::new(chunks.len(), |i: int| chunks[i]@)
}

/// Joins the parts `data`, in order, into one message.
pub fn join(data: &[&[u8]]) -> (message: Vec<u8>)
    ensures
        message@ == joined(chunk_views(data@)),
{
    let mut message: Vec<u8> = Vec::new();
    let mut i: usize = 0;
    while i < data.len()
        invariant
            i <= data.len(),
            message@ == joined(chunk_views(data@).take(i as int)),
        decreases data.len() - i,
    {
        message.extend_from_slice(data[i]);
        proof {
            let chunks = chunk_views(data@);
            assert(chunks.take(i + 1).drop_last() =~= chunks.take(i as int));
        }
        i = i + 1;
    }
    proof {
        let chunks = chunk_views(data@);
        assert(chunks.take(i as int) =~= chunks);
    }
    message
}

impl HashAlgorithm {
    /// The number of bytes in a digest of this algorithm.
    pub open spec fn spec_digest_length(&self) -> nat {
        match self {
            HashAlgorithm::Sha256 => 32,
            HashAlgorithm::Sha384 => 48,
        }
    }

    /// The digest of `data` under this algorithm.
    pub open spec fn digest_of(&self, data: Seq<u8>) -> Seq<u8> {
        match self {
            HashAlgorithm::Sha256 => sha256(data)@,
            HashAlgorithm::Sha384 => sha384(data)@,
        }
    }

    /// The number of bytes in a digest of this algorithm.
    pub fn digest_length(&self) -> (n: usize)
        ensures
            n == self.spec_digest_length(),
    {
        match self {
            HashAlgorithm::Sha256 => 32,
            HashAlgorithm::Sha384 => 48,
        }
    }

    /// What a register holds after its value `value` is extended with
    /// `digest`: the digest of the value followed by `digest`.
    pub open spec fn extended(&self, value: Seq<u8>, digest: Seq<u8>) -> Seq<u8> {
        self.digest_of(value + digest)
    }

    /// The digest of one message.
    pub fn hash_bytes(&self, data: &[u8]) -> (r: Vec<u8>)
        ensures
            r@ == self.digest_of(data@),
            r@.len() == self.spec_digest_length(),
    {
        match self {
            HashAlgorithm::Sha256 => sha256_digest(data),
            HashAlgorithm::Sha384 => sha384_digest(data),
        }
    }

    /// The digest of the message whose parts are `data`, in order.
    pub fn hash(&self, data: &[&[u8]]) -> (r: Vec<u8>)
        ensures
            r@ == self.digest_of(joined(chunk_views(data@))),
            r@.len() == self.spec_digest_length(),
    {
        let message = join(data);
        self.hash_bytes(message.as_slice())
    }

    /// Extends the register value `value` with `digest`.
    pub fn extend(&self, value: &[u8], digest: &[u8]) -> (r: Vec<u8>)
        ensures
            r@ == self.extended(value@, digest@),
            r@.len() == self.spec_digest_length(),
    {
        let mut message: Vec<u8> = Vec::new();
        message.extend_from_slice(value);
        message.extend_from_slice(digest);
        assert(message@ =~= value@ + digest@);
        self.hash_bytes(message.as_slice())
    }
}

/// Every digest of an algorithm has the algorithm's length.
pub proof fn lemma_digest_length(algorithm: HashAlgorithm, data: Seq<u8>)
    ensures
        algorithm.digest_of(data).len() == algorithm.spec_digest_length(),
{
}

} // verus!
