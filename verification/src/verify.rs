//! The verifier's comparison stage: rebuild the deployment calldata
//! from the local source snapshot, hold it against the remote
//! transaction input byte for byte, and on a mismatch say whether the
//! divergence lies in the prelude (a symptom of toolchain or template
//! drift) or in the body (a symptom of source or content drift).

use vstd::prelude::*;

use crate::bytes::{drop_prefix, take_prefix, vecs_eq};
use crate::calldata::{calldata_bytes, lemma_calldata_round_trip, prelude_bytes,
    program_deployment_calldata, valid_calldata, PRELUDE_LEN};
use crate::compress::{brotli_of, compress_wasm, payload_bytes, HEADER_LEN, MAX_DEPLOY_SIZE};
use crate::files::{file_views, SourceFile};
use crate::hashing::{hash_files, project_hash_of, BuildConfig};
use crate::VerifyError;

verus! {

/// Which region of the calldata diverged.
#[derive(Clone, Copy, Debug, PartialEq, Eq)]
pub enum MismatchPart {
    Prelude,
    Body,
}

/// The result of a completed comparison: either the remote input equals
/// the local reconstruction exactly, or the two diverge, localized to
/// the prelude or the body, with the diverging bytes of both sides
/// (expected = locally rebuilt, actual = observed on chain).
#[derive(Debug)]
pub enum VerificationOutcome {
    Matched,
    Mismatched(MismatchPart, Vec<u8>, Vec<u8>),
}

/// The prelude-sized head of a blob (all of it, if shorter).
pub open spec fn prelude_region(s: Seq<u8>) -> Seq<u8> {
    if s.len() < PRELUDE_LEN as int {
        s
    } else {
        s.take(PRELUDE_LEN as int)
    }
}

/// What follows the prelude-sized head.
pub open spec fn body_region(s: Seq<u8>) -> Seq<u8> {
    if s.len() < PRELUDE_LEN as int {
        Seq::empty()
    } else {
        s.skip(PRELUDE_LEN as int)
    }
}

/// What a correct comparison outcome says of the two inputs.
pub open spec fn outcome_matches(r: VerificationOutcome, local: Seq<u8>, remote: Seq<u8>) -> bool {
    &&& (r is Matched <==> local == remote)
    &&& (r matches VerificationOutcome::Mismatched(part, e, a) ==> {
        &&& (part is Prelude <==> prelude_region(local) != prelude_region(remote))
        &&& (part is Prelude ==> e@ == prelude_region(local) && a@ == prelude_region(remote))
        &&& (part is Body ==> e@ == body_region(local) && a@ == body_region(remote) && e@ != a@)
    })
}

/// Compares the locally reconstructed calldata against the remote
/// transaction input and localizes any divergence.
pub fn compare_calldata(local: &Vec<u8>, remote: &Vec<u8>) -> (r: VerificationOutcome)
    ensures
        outcome_matches(r, local@, remote@),
{
    if vecs_eq(local, remote) {
        return VerificationOutcome::Matched;
    }
    let lc = if local.len() < PRELUDE_LEN {
        local.len()
    } else {
        PRELUDE_LEN
    };
    let rc = if remote.len() < PRELUDE_LEN {
        remote.len()
    } else {
        PRELUDE_LEN
    };
    let lp = take_prefix(local, lc);
    let rp = take_prefix(remote, rc);
    proof {
        if local@.len() < PRELUDE_LEN as int {
            assert(local@.take(local@.len() as int) =~= local@);
        }
        if remote@.len() < PRELUDE_LEN as int {
            assert(remote@.take(remote@.len() as int) =~= remote@);
        }
    }
    if !vecs_eq(&lp, &rp) {
        return VerificationOutcome::Mismatched(MismatchPart::Prelude, lp, rp);
    }
    let lb = drop_prefix(local, lc);
    let rb = drop_prefix(remote, rc);
    proof {
        if local@.len() < PRELUDE_LEN as int {
            assert(local@.skip(local@.len() as int) =~= Seq::<u8>::empty());
        }
        if remote@.len() < PRELUDE_LEN as int {
            assert(remote@.skip(remote@.len() as int) =~= Seq::<u8>::empty());
        }
        assert(local@ =~= prelude_region(local@) + body_region(local@));
        assert(remote@ =~= prelude_region(remote@) + body_region(remote@));
    }
    VerificationOutcome::Mismatched(MismatchPart::Body, lb, rb)
}

/// Rebuilds the local deployment calldata — hash the snapshot, compress
/// the module, construct the calldata — and compares it against the
/// remote transaction input.  The local side is computed from local
/// inputs alone; the remote bytes only enter the final comparison.
/// The run completes with exactly one outcome whenever the compressed
/// payload fits a deployment transaction.
pub fn verify_reconstruction(
    files: Vec<SourceFile>,
    cfg: &BuildConfig,
    module: &Vec<u8>,
    remote_input: &Vec<u8>,
) -> (r: Result<VerificationOutcome, VerifyError>)
    ensures
        r matches Ok(o) ==> outcome_matches(
            o,
            calldata_bytes(payload_bytes(project_hash_of(file_views(files@), *cfg), module@)),
            remote_input@,
        ),
        r matches Err(e) ==> e == VerifyError::CompressionError,
        r is Ok <==> brotli_of(module@).len() + HEADER_LEN <= MAX_DEPLOY_SIZE,
{
    let h = hash_files(files, cfg);
    let payload = match compress_wasm(module, &h) {
        Ok(p) => p,
        Err(e) => {
            return Err(e);
        },
    };
    let local = program_deployment_calldata(&payload);
    Ok(compare_calldata(&local, remote_input))
}

/// Round trip through the whole pipeline: for any module and hash, the
/// calldata constructed from the compressed payload is valid, and
/// extracting it reproduces byte-identical prelude and payload.
pub proof fn lemma_pipeline_round_trip(h: Seq<u8>, module: Seq<u8>)
    requires
        payload_bytes(h, module).len() <= u64::MAX,
    ensures
        valid_calldata(calldata_bytes(payload_bytes(h, module))),
        calldata_bytes(payload_bytes(h, module)).take(PRELUDE_LEN as int) == prelude_bytes(
            payload_bytes(h, module).len() as u64,
        ),
        calldata_bytes(payload_bytes(h, module)).skip(PRELUDE_LEN as int) == payload_bytes(
            h,
            module,
        ),
{
    lemma_calldata_round_trip(payload_bytes(h, module));
}

} // verus!

