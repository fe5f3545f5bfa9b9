//! End-to-end tests of the verification core: hashing, compression,
//! calldata construction and extraction, and comparison.

use stylus_verify::calldata::{build_prelude, extract_calldata, program_deployment_calldata,
    PRELUDE_LEN};
use stylus_verify::compress::{assemble_payload, compress_wasm, HEADER_LEN, MAX_DEPLOY_SIZE};
use stylus_verify::files::{is_in_scope_path, sort_file_set, SourceFile};
use stylus_verify::hashing::{hash_files, BuildConfig, Channel, OptLevel};
use stylus_verify::verify::{compare_calldata, verify_reconstruction, MismatchPart,
    VerificationOutcome};
use stylus_verify::{AuthOpts, ProjectHash, VerifyError, HASH_LEN};

fn file(path: &str, contents: &[u8]) -> SourceFile {
    SourceFile { path: path.as_bytes().to_vec(), contents: contents.to_vec() }
}

fn cfg() -> BuildConfig {
    BuildConfig { opt_level: OptLevel::Z, channel: Channel::Stable }
}

fn sample_files() -> Vec<SourceFile> {
    vec![
        file("src/main.rs", b"#[entrypoint]\nfn user_main() {}\n"),
        file("Cargo.toml", b"[package]\nname = \"demo\"\n"),
        file("Cargo.lock", b"# lock\n"),
    ]
}

/// A small stand-in for a compiled module: not real code, but a fixed
/// byte pattern with the module magic in front.
fn sample_module() -> Vec<u8> {
    let mut m = b"\x00asm\x01\x00\x00\x00".to_vec();
    for i in 0..200u32 {
        m.push((i % 251) as u8);
    }
    m
}

fn hash_of(files: Vec<SourceFile>) -> ProjectHash {
    hash_files(files, &cfg())
}

#[test]
fn hash_is_32_bytes() {
    let h = hash_of(sample_files());
    assert_eq!(h.bytes.len(), HASH_LEN);
}

#[test]
fn hash_deterministic_across_runs() {
    let h1 = hash_of(sample_files());
    let h2 = hash_of(sample_files());
    assert_eq!(h1.bytes, h2.bytes);
}

#[test]
fn hash_independent_of_traversal_order() {
    let mut reversed = sample_files();
    reversed.reverse();
    let h1 = hash_of(sample_files());
    let h2 = hash_of(reversed);
    assert_eq!(h1.bytes, h2.bytes);
}

#[test]
fn hash_matches_manual_stream_digest() {
    // the digest must be Keccak-256 over the canonical length-prefixed
    // stream: sorted (path, contents) pairs, then the two config bytes
    let files = sample_files();
    let sorted = sort_file_set(files);
    let mut stream: Vec<u8> = Vec::new();
    for f in &sorted {
        stream.extend_from_slice(&(f.path.len() as u64).to_be_bytes());
        stream.extend_from_slice(&f.path);
        stream.extend_from_slice(&(f.contents.len() as u64).to_be_bytes());
        stream.extend_from_slice(&f.contents);
    }
    stream.push(2); // OptLevel::Z
    stream.push(1); // Channel::Stable
    let mut expected = [0u8; 32];
    let mut k = tiny_keccak::Keccak::v256();
    tiny_keccak::Hasher::update(&mut k, &stream);
    tiny_keccak::Hasher::finalize(k, &mut expected);
    let h = hash_of(sample_files());
    assert_eq!(h.bytes, expected.to_vec());
    // a digest, not the stream itself
    assert_ne!(h.bytes, stream);
}

#[test]
fn sort_orders_by_path() {
    let sorted = sort_file_set(sample_files());
    let paths: Vec<Vec<u8>> = sorted.iter().map(|f| f.path.clone()).collect();
    assert_eq!(
        paths,
        vec![
            b"Cargo.lock".to_vec(),
            b"Cargo.toml".to_vec(),
            b"src/main.rs".to_vec(),
        ]
    );
}

#[test]
fn hash_sensitive_to_one_flipped_byte() {
    let mut changed = sample_files();
    changed[0].contents[5] ^= 0x01;
    let h1 = hash_of(sample_files());
    let h2 = hash_of(changed);
    assert_ne!(h1.bytes, h2.bytes);
}

#[test]
fn hash_sensitive_to_config() {
    let files = sample_files();
    let h1 = hash_files(files, &cfg());
    let h2 = hash_files(
        sample_files(),
        &BuildConfig { opt_level: OptLevel::Z, channel: Channel::Nightly },
    );
    assert_ne!(h1.bytes, h2.bytes);
}

#[test]
fn payload_header_holds_hash_and_length() {
    let module = sample_module();
    let h = hash_of(sample_files());
    let payload = compress_wasm(&module, &h).unwrap();
    assert_eq!(&payload[..32], &h.bytes[..]);
    assert_eq!(&payload[32..40], &(module.len() as u64).to_be_bytes());
    assert!(payload.len() <= MAX_DEPLOY_SIZE);
}

#[test]
fn payload_header_changes_when_a_source_byte_flips() {
    let module = sample_module();
    let mut changed = sample_files();
    changed[1].contents[0] ^= 0x80;
    let p1 = compress_wasm(&module, &hash_of(sample_files())).unwrap();
    let p2 = compress_wasm(&module, &hash_of(changed)).unwrap();
    assert_ne!(&p1[..HEADER_LEN], &p2[..HEADER_LEN]);
}

#[test]
fn payload_deterministic() {
    let module = sample_module();
    let h = hash_of(sample_files());
    let p1 = compress_wasm(&module, &h).unwrap();
    let h2 = hash_of(sample_files());
    let p2 = compress_wasm(&module, &h2).unwrap();
    assert_eq!(p1, p2);
}

#[test]
fn payload_body_decompresses_to_the_module() {
    let module = sample_module();
    let h = hash_of(sample_files());
    let payload = compress_wasm(&module, &h).unwrap();
    let mut decompressed: Vec<u8> = Vec::new();
    brotli::BrotliDecompress(&mut &payload[HEADER_LEN..], &mut decompressed).unwrap();
    assert_eq!(decompressed, module);
}

#[test]
fn compression_shrinks_redundant_input() {
    let module = vec![0u8; 4096];
    let h = hash_of(sample_files());
    let payload = compress_wasm(&module, &h).unwrap();
    assert!(payload.len() - HEADER_LEN < module.len());
}

#[test]
fn oversized_module_is_rejected() {
    // pseudorandom bytes compress to roughly their own size, so this
    // cannot fit the deployment bound
    let mut module: Vec<u8> = Vec::new();
    let mut x: u64 = 0x2545f4914f6cdd1d;
    for _ in 0..(2 * MAX_DEPLOY_SIZE) {
        x ^= x << 13;
        x ^= x >> 7;
        x ^= x << 17;
        module.push((x & 0xff) as u8);
    }
    let h = hash_of(sample_files());
    assert_eq!(compress_wasm(&module, &h), Err(VerifyError::CompressionError));
}

#[test]
fn assemble_payload_rejects_only_oversize() {
    let h = hash_of(sample_files());
    let small = assemble_payload(&h, 7, vec![1, 2, 3]);
    assert_eq!(small.unwrap().len(), HEADER_LEN + 3);
    let big = assemble_payload(&h, 7, vec![0u8; MAX_DEPLOY_SIZE - HEADER_LEN + 1]);
    assert_eq!(big, Err(VerifyError::CompressionError));
}

#[test]
fn prelude_has_exact_template_bytes() {
    let p = build_prelude(3);
    let mut expected = vec![0x7fu8];
    expected.extend_from_slice(&[0u8; 24]);
    expected.extend_from_slice(&3u64.to_be_bytes());
    expected.extend_from_slice(&[0x80, 0x60, 0x2a, 0x60, 0x00, 0x39, 0x60, 0x00, 0xf3]);
    assert_eq!(p, expected);
    assert_eq!(p.len(), PRELUDE_LEN);
}

#[test]
fn calldata_round_trip() {
    let payload = vec![9u8, 8, 7, 6, 5];
    let calldata = program_deployment_calldata(&payload);
    assert_eq!(calldata.len(), PRELUDE_LEN + payload.len());
    let (prelude, body) = extract_calldata(&calldata).unwrap();
    assert_eq!(prelude, build_prelude(payload.len() as u64));
    assert_eq!(body, payload);
}

#[test]
fn full_pipeline_round_trip() {
    // one trivial source file and a manifest, a module, the whole chain
    let files = vec![
        file("src/lib.rs", b"fn user_main() {}\n"),
        file("Cargo.toml", b"[package]\nname = \"noop\"\n"),
    ];
    let module = sample_module();
    let h = hash_files(files, &cfg());
    let payload = compress_wasm(&module, &h).unwrap();
    let calldata = program_deployment_calldata(&payload);
    let (prelude, body) = extract_calldata(&calldata).unwrap();
    assert_eq!(prelude, build_prelude(payload.len() as u64));
    assert_eq!(body, payload);
}

#[test]
fn extract_rejects_short_blobs() {
    assert_eq!(
        extract_calldata(&Vec::new()),
        Err(VerifyError::MalformedCalldataError)
    );
    assert_eq!(
        extract_calldata(&vec![0x7f; 10]),
        Err(VerifyError::MalformedCalldataError)
    );
    assert_eq!(
        extract_calldata(&vec![0u8; PRELUDE_LEN - 1]),
        Err(VerifyError::MalformedCalldataError)
    );
}

#[test]
fn extract_rejects_wrong_pattern() {
    let payload = vec![1u8, 2, 3];
    let mut calldata = program_deployment_calldata(&payload);
    calldata[0] = 0x60; // not the push opcode the template starts with
    assert_eq!(
        extract_calldata(&calldata),
        Err(VerifyError::MalformedCalldataError)
    );
    // a length immediate that contradicts the blob's length
    let mut c2 = program_deployment_calldata(&payload);
    c2[32] ^= 0x01;
    assert_eq!(extract_calldata(&c2), Err(VerifyError::MalformedCalldataError));
}

#[test]
fn extract_accepts_empty_payload() {
    let calldata = program_deployment_calldata(&Vec::new());
    let (prelude, body) = extract_calldata(&calldata).unwrap();
    assert_eq!(prelude, calldata);
    assert!(body.is_empty());
}

#[test]
fn compare_equal_inputs_matches() {
    let payload = vec![1u8; 100];
    let local = program_deployment_calldata(&payload);
    let remote = local.clone();
    assert!(matches!(
        compare_calldata(&local, &remote),
        VerificationOutcome::Matched
    ));
}

#[test]
fn compare_same_prelude_different_body() {
    let local = program_deployment_calldata(&vec![1u8, 2, 3, 4]);
    let remote = program_deployment_calldata(&vec![1u8, 2, 9, 4]);
    match compare_calldata(&local, &remote) {
        VerificationOutcome::Mismatched(MismatchPart::Body, expected, actual) => {
            assert_eq!(expected, vec![1u8, 2, 3, 4]);
            assert_eq!(actual, vec![1u8, 2, 9, 4]);
        }
        other => panic!("expected a body mismatch, got {:?}", other),
    }
}

#[test]
fn compare_different_preludes() {
    // differing payload sizes put differing length immediates in the
    // preludes
    let local = program_deployment_calldata(&vec![1u8, 2, 3, 4]);
    let remote = program_deployment_calldata(&vec![1u8, 2, 3]);
    match compare_calldata(&local, &remote) {
        VerificationOutcome::Mismatched(MismatchPart::Prelude, expected, actual) => {
            assert_eq!(expected, build_prelude(4));
            assert_eq!(actual, build_prelude(3));
        }
        other => panic!("expected a prelude mismatch, got {:?}", other),
    }
}

#[test]
fn verify_reconstruction_matches_byte_equal_remote() {
    let module = sample_module();
    let h = hash_of(sample_files());
    let payload = compress_wasm(&module, &h).unwrap();
    let remote = program_deployment_calldata(&payload);
    let outcome = verify_reconstruction(sample_files(), &cfg(), &module, &remote).unwrap();
    assert!(matches!(outcome, VerificationOutcome::Matched));
}

#[test]
fn verify_reconstruction_localizes_source_drift_to_body() {
    // the remote side was deployed from slightly different sources:
    // same payload length is not guaranteed, so check the reported part
    let module = sample_module();
    let mut other = sample_files();
    other[0].contents[7] ^= 0xff;
    let other_payload = compress_wasm(&module, &hash_files(other, &cfg())).unwrap();
    let remote = program_deployment_calldata(&other_payload);
    let local_payload = compress_wasm(&module, &hash_of(sample_files())).unwrap();
    let outcome = verify_reconstruction(sample_files(), &cfg(), &module, &remote).unwrap();
    if local_payload.len() == other_payload.len() {
        assert!(matches!(
            outcome,
            VerificationOutcome::Mismatched(MismatchPart::Body, _, _)
        ));
    } else {
        assert!(matches!(
            outcome,
            VerificationOutcome::Mismatched(MismatchPart::Prelude, _, _)
        ));
    }
}

#[test]
fn in_scope_paths_are_sources_manifests_and_locks() {
    assert!(is_in_scope_path(&b"src/main.rs".to_vec()));
    assert!(is_in_scope_path(&b"lib.rs".to_vec()));
    assert!(is_in_scope_path(&b"Cargo.toml".to_vec()));
    assert!(is_in_scope_path(&b"Cargo.lock".to_vec()));
    assert!(is_in_scope_path(&b"nested/dir/Cargo.toml".to_vec()));
    assert!(!is_in_scope_path(&b"README.md".to_vec()));
    assert!(!is_in_scope_path(&b"src/main.rs.bak".to_vec()));
    assert!(!is_in_scope_path(&b"notCargo.toml".to_vec()));
    assert!(!is_in_scope_path(&b"rs".to_vec()));
}

#[test]
fn auth_opts_counts_key_sources() {
    let none = AuthOpts {
        private_key_path: None,
        private_key: None,
        keystore_path: None,
        keystore_password_path: None,
    };
    assert_eq!(none.key_source_count(), 0);
    let one = AuthOpts {
        private_key_path: None,
        private_key: Some("0x01".to_string()),
        keystore_path: None,
        keystore_password_path: None,
    };
    assert_eq!(one.key_source_count(), 1);
    let two = AuthOpts {
        private_key_path: Some("key.txt".to_string()),
        private_key: None,
        keystore_path: Some("keystore.json".to_string()),
        keystore_password_path: None,
    };
    assert_eq!(two.key_source_count(), 2);
}
