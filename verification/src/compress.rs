//! The payload compressor: the compiled module is compressed with a
//! fixed-configuration lossless encoder and prefixed with a fixed-width
//! header carrying the project hash and the uncompressed length.  The
//! payload is a pure function of (module, hash).

use vstd::prelude::*;

use crate::bytes::{be64, be64_bytes, lemma_be64_injective, push_all};
use crate::{ProjectHash, VerifyError, HASH_LEN};

verus! {

/// Width of the payload header: the 32-byte project hash followed by
/// the uncompressed module length as 8 big-endian bytes.
pub const HEADER_LEN: usize = 40;

/// Largest payload a single deployment transaction may install as the
/// contract's runtime code.
pub const MAX_DEPLOY_SIZE: usize = 24576;

/// The compressed form of a byte sequence, as the outside encoder
/// produces it under this crate's fixed settings.
pub uninterp spec fn brotli_of(data: Seq<u8>) -> Seq<u8>;

/// The fixed-width payload header.
pub open spec fn header_bytes(h: Seq<u8>, module_len: u64) -> Seq<u8> {
    h + be64(module_len)
}

/// The full compressed payload for a module under a project hash.
pub open spec fn payload_bytes(h: Seq<u8>, module: Seq<u8>) -> Seq<u8> {
    header_bytes(h, module.len() as u64) + brotli_of(module)
}

/// Relies on brotli's BrotliCompress at quality 11 and window 22: the
/// output depends on the input bytes alone, and for an in-memory
/// reader and writer the call cannot fail — a slice read and a Vec
/// write never error, and the encoder's own failure branches are not
/// reachable from this driver — so a value is always returned.
#[verifier::external_body]
fn brotli_compress(data: &Vec<u8>) -> (r: Option<Vec<u8>>)
    ensures
        r is Some,
        r matches Some(c) ==> c@ == brotli_of(data@),
{
    let params = brotli::enc::BrotliEncoderParams {
        quality: 11,
        lgwin: 22,
        ..Default::default()
    };
    let mut input: &[u8] = data.as_slice();
    let mut out: Vec<u8> = Vec::new();
    match brotli::BrotliCompress(&mut input, &mut out, &params) {
        Ok(_) => Some(out),
        Err(_) => None,
    }
}

/// Prefixes already-compressed module bytes with the payload header,
/// rejecting a payload too large for one deployment transaction.
pub fn assemble_payload(hash: &ProjectHash, module_len: u64, compressed: Vec<u8>) -> (r: Result<
    Vec<u8>,
    VerifyError,
>)
    requires
        hash.wf(),
    ensures
        compressed@.len() + HEADER_LEN <= MAX_DEPLOY_SIZE ==> (r matches Ok(p) && p@
            == header_bytes(hash.bytes@, module_len) + compressed@),
        compressed@.len() + HEADER_LEN > MAX_DEPLOY_SIZE ==> (r matches Err(e) && e
            == VerifyError::CompressionError),
{
    if compressed.len() > MAX_DEPLOY_SIZE - HEADER_LEN {
        return Err(VerifyError::CompressionError);
    }
    let mut p: Vec<u8> = Vec::new();
    push_all(&mut p, &hash.bytes);
    let len_b = be64_bytes(module_len);
    push_all(&mut p, &len_b);
    push_all(&mut p, &compressed);
    proof {
        assert(p@ =~= header_bytes(hash.bytes@, module_len) + compressed@);
    }
    Ok(p)
}

/// Compresses a module and builds the payload carrying it.
///
/// Succeeds exactly when the payload fits a deployment transaction;
/// the result is then `payload_bytes(hash, module)`, byte for byte.  A
/// payload that would not fit is rejected with `CompressionError`.
pub fn compress_wasm(module: &Vec<u8>, hash: &ProjectHash) -> (r: Result<Vec<u8>, VerifyError>)
    requires
        hash.wf(),
    ensures
        r matches Ok(p) ==> p@ == payload_bytes(hash.bytes@, module@) && p@.len()
            <= MAX_DEPLOY_SIZE,
        r matches Err(e) ==> e == VerifyError::CompressionError,
        r is Ok <==> brotli_of(module@).len() + HEADER_LEN <= MAX_DEPLOY_SIZE,
{
    match brotli_compress(module) {
        Some(c) => {
            proof {
                assert(module@.len() as u64 == module.len() as u64);
            }
            assemble_payload(hash, module.len() as u64, c)
        },
        None => Err(VerifyError::CompressionError),
    }
}

/// The payload is deterministic: the same module and hash always give
/// the same payload bytes, header included.
pub proof fn lemma_payload_deterministic(h: Seq<u8>, module: Seq<u8>, p1: Seq<u8>, p2: Seq<u8>)
    requires
        p1 == payload_bytes(h, module),
        p2 == payload_bytes(h, module),
    ensures
        p1 == p2,
{
}

/// Two headers agree exactly when hash and length agree: the header
/// changes whenever the project hash does.
pub proof fn lemma_header_injective(h1: Seq<u8>, h2: Seq<u8>, n1: u64, n2: u64)
    requires
        h1.len() == HASH_LEN,
        h2.len() == HASH_LEN,
    ensures
        header_bytes(h1, n1) == header_bytes(h2, n2) <==> (h1 == h2 && n1 == n2),
{
    if header_bytes(h1, n1) == header_bytes(h2, n2) {
        assert forall|i: int| 0 <= i < HASH_LEN implies h1[i] == h2[i] by {
            assert(header_bytes(h1, n1)[i] == h1[i]);
            assert(header_bytes(h2, n2)[i] == h2[i]);
        }
        assert(h1 =~= h2);
        assert forall|i: int| 0 <= i < 8 implies be64(n1)[i] == be64(n2)[i] by {
            assert(header_bytes(h1, n1)[HASH_LEN + i] == be64(n1)[i]);
            assert(header_bytes(h2, n2)[HASH_LEN + i] == be64(n2)[i]);
        }
        assert(be64(n1) =~= be64(n2));
        lemma_be64_injective(n1, n2);
    }
}

} // verus!
