//! The deployment-calldata constructor and extractor.  A deployment
//! transaction's input is a fixed bootstrap prelude followed by the
//! compressed payload; at contract creation the prelude instructs the
//! execution engine to install the trailing payload as the contract's
//! runtime code.
//!
//! The prelude is a constant bytecode template except for one
//! length-dependent immediate: `PUSH32 len(payload); DUP1; PUSH1 42;
//! PUSH1 0; CODECOPY; PUSH1 0; RETURN`.

use vstd::prelude::*;

use crate::bytes::{be64, be64_bytes, drop_prefix, push_all, take_prefix, vecs_eq};
use crate::VerifyError;

verus! {

/// Byte length of the deployment prelude: one push opcode, a 32-byte
/// immediate, and nine further template bytes.
pub const PRELUDE_LEN: usize = 42;

/// The 32-byte big-endian encoding of a 64-bit value: 24 zero bytes
/// followed by the 8-byte encoding.
pub open spec fn be256(n: u64) -> Seq<u8> {
    Seq::new(24, |i: int| 0u8) + be64(n)
}

/// The constant template bytes that follow the length immediate:
/// `DUP1; PUSH1 42; PUSH1 0; CODECOPY; PUSH1 0; RETURN`.
pub open spec fn prelude_tail() -> Seq<u8> {
    seq![0x80u8, 0x60u8, 0x2au8, 0x60u8, 0x00u8, 0x39u8, 0x60u8, 0x00u8, 0xf3u8]
}

/// The deployment prelude for a payload of `n` bytes: `PUSH32 n`
/// followed by the constant template tail.
pub open spec fn prelude_bytes(n: u64) -> Seq<u8> {
    seq![0x7fu8] + be256(n) + prelude_tail()
}

/// The full deployment calldata for a payload.
pub open spec fn calldata_bytes(payload: Seq<u8>) -> Seq<u8> {
    prelude_bytes(payload.len() as u64) + payload
}

/// A blob is valid calldata when it is long enough to hold the prelude
/// and its first bytes are exactly the prelude for the remaining
/// length.
pub open spec fn valid_calldata(b: Seq<u8>) -> bool {
    &&& b.len() >= PRELUDE_LEN as int
    &&& b.len() - PRELUDE_LEN as int <= u64::MAX
    &&& b.take(PRELUDE_LEN as int) == prelude_bytes((b.len() - PRELUDE_LEN as int) as u64)
}

pub proof fn lemma_prelude_len(n: u64)
    ensures
        prelude_bytes(n).len() == PRELUDE_LEN as int,
{
}

/// Builds the deployment prelude for a payload of `payload_len` bytes.
pub fn build_prelude(payload_len: u64) -> (r: Vec<u8>)
    ensures
        r@ == prelude_bytes(payload_len),
{
    let mut r: Vec<u8> = Vec::new();
    r.push(0x7f);
    let mut i: usize = 0;
    while i < 24
        invariant
            i <= 24,
            r@.len() == 1 + i,
            r@[0] == 0x7fu8,
            forall|k: int| 1 <= k < 1 + i ==> r@[k] == 0u8,
        decreases 24 - i,
    {
        r.push(0);
        i = i + 1;
    }
    let len_b = be64_bytes(payload_len);
    push_all(&mut r, &len_b);
    r.push(0x80);
    r.push(0x60);
    r.push(0x2a);
    r.push(0x60);
    r.push(0x00);
    r.push(0x39);
    r.push(0x60);
    r.push(0x00);
    r.push(0xf3);
    proof {
        assert(r@ =~= prelude_bytes(payload_len));
    }
    r
}

/// Constructs the deployment calldata: the prelude for the payload's
/// length, followed by the payload.
pub fn program_deployment_calldata(payload: &Vec<u8>) -> (r: Vec<u8>)
    ensures
        r@ == calldata_bytes(payload@),
{
    let mut r = build_prelude(payload.len() as u64);
    push_all(&mut r, payload);
    r
}

/// Splits a byte blob into (prelude, payload).
///
/// Succeeds exactly on valid calldata; a blob shorter than the prelude
/// or one that does not match the prelude pattern is rejected with
/// `MalformedCalldataError`, without ever reading past its end.
pub fn extract_calldata(blob: &Vec<u8>) -> (r: Result<(Vec<u8>, Vec<u8>), VerifyError>)
    ensures
        valid_calldata(blob@) ==> (r matches Ok(pp) && pp.0@ == blob@.take(PRELUDE_LEN as int)
            && pp.1@ == blob@.skip(PRELUDE_LEN as int)),
        !valid_calldata(blob@) ==> (r matches Err(e) && e == VerifyError::MalformedCalldataError),
{
    if blob.len() < PRELUDE_LEN {
        return Err(VerifyError::MalformedCalldataError);
    }
    let payload_len = blob.len() - PRELUDE_LEN;
    let expected = build_prelude(payload_len as u64);
    let actual = take_prefix(blob, PRELUDE_LEN);
    if !vecs_eq(&actual, &expected) {
        return Err(VerifyError::MalformedCalldataError);
    }
    let payload = drop_prefix(blob, PRELUDE_LEN);
    Ok((actual, payload))
}

/// The calldata's length is the prelude's constant length plus the
/// payload's: monotonic in the payload length, with a prelude length
/// that depends on nothing but the template.
pub proof fn lemma_calldata_len(p: Seq<u8>)
    ensures
        calldata_bytes(p).len() == PRELUDE_LEN + p.len(),
{
}

/// Round trip: extracting constructed calldata gives back exactly the
/// prelude for the payload's length and the payload, byte for byte.
pub proof fn lemma_calldata_round_trip(payload: Seq<u8>)
    requires
        payload.len() <= u64::MAX,
    ensures
        valid_calldata(calldata_bytes(payload)),
        calldata_bytes(payload).take(PRELUDE_LEN as int) == prelude_bytes(payload.len() as u64),
        calldata_bytes(payload).skip(PRELUDE_LEN as int) == payload,
{
    let c = calldata_bytes(payload);
    assert(prelude_bytes(payload.len() as u64).len() == PRELUDE_LEN as int);
    assert(c.take(PRELUDE_LEN as int) =~= prelude_bytes(payload.len() as u64));
    assert(c.skip(PRELUDE_LEN as int) =~= payload);
}

} // verus!
