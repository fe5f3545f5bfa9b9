//! Reproducible-build verification for WebAssembly contracts deployed
//! on-chain: hash a source snapshot, compress the compiled module,
//! reconstruct the deployment calldata, and compare it byte-for-byte
//! against the observed transaction input.

use vstd::prelude::*;

pub mod bytes;
pub mod calldata;
pub mod compress;
pub mod files;
pub mod hashing;
pub mod text;
pub mod verify;

verus! {

/// Number of bytes in a project hash digest.
pub const HASH_LEN: usize = 32;

/// A 32-byte digest binding a build to its exact source snapshot and
/// build configuration.
pub struct ProjectHash {
    pub bytes: Vec<u8>,
}

impl ProjectHash {
    /// A well-formed digest holds exactly 32 bytes.
    pub open spec fn wf(self) -> bool {
        self.bytes@.len() == HASH_LEN
    }
}

/// Everything that can abort a verification run, tagged with the stage
/// at which it occurred.
#[derive(Clone, Copy, Debug, PartialEq, Eq)]
pub enum VerifyError {
    /// A source file or the project tree could not be read.
    IOError,
    /// The compiler exited nonzero.
    BuildError,
    /// The compressed module exceeds what one deployment transaction may
    /// carry.
    CompressionError,
    /// A byte blob is too short or does not match the deployment prelude
    /// pattern.
    MalformedCalldataError,
    /// The transaction query failed in transport.
    RpcError,
    /// No transaction exists under the given hash.
    NotFoundError,
}

/// Where a signing key comes from.  Exactly one source should be given;
/// `key_source_count` lets a caller check that before using the options.
pub struct AuthOpts {
    /// Path to a text file holding a hex-encoded private key.
    pub private_key_path: Option<String>,
    /// A hex-encoded private key given directly.
    pub private_key: Option<String>,
    /// Path to an Ethereum wallet keystore file.
    pub keystore_path: Option<String>,
    /// Path to a file holding the keystore password.
    pub keystore_password_path: Option<String>,
}

impl AuthOpts {
    /// How many of the three key sources are given.
    pub fn key_source_count(&self) -> (r: u32)
        ensures
            r == (if self.private_key_path is Some { 1int } else { 0int }) + (
            if self.private_key is Some { 1int } else { 0int }) + (
            if self.keystore_path is Some { 1int } else { 0int }),
    {
        let mut r: u32 = 0;
        if self.private_key_path.is_some() {
            r = r + 1;
        }
        if self.private_key.is_some() {
            r = r + 1;
        }
        if self.keystore_path.is_some() {
            r = r + 1;
        }
        r
    }
}

} // verus!
