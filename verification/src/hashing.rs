//! The project hasher: a deterministic digest binding a build to its
//! exact source snapshot and build configuration.
//!
//! The file set is first brought into its canonical order, then each
//! (path, contents) pair is serialized with length prefixes, the
//! serialized build configuration is appended, and the whole stream is
//! digested with Keccak-256.  The length prefixes make the serialization
//! injective, so two different snapshots never feed the digest the same
//! stream.

use vstd::prelude::*;

use crate::bytes::{be64, be64_bytes, lemma_be64_injective, lemma_concat_peel, push_all};
use crate::files::{file_leq, file_views, lemma_file_le_total_ordering, sort_file_set, sort_files,
    FileView, SourceFile};
use crate::ProjectHash;

verus! {

/// Optimization level the module is compiled with.  Both sides of a
/// verification must use the same one for byte-identical output.
#[derive(Clone, Copy, Debug)]
pub enum OptLevel {
    S,
    Z,
}

/// Toolchain channel the module is compiled with.
#[derive(Clone, Copy, Debug)]
pub enum Channel {
    Stable,
    Nightly,
}

/// The build configuration that, together with the source snapshot,
/// determines the produced module byte for byte.
#[derive(Clone, Copy, Debug)]
pub struct BuildConfig {
    pub opt_level: OptLevel,
    pub channel: Channel,
}

pub open spec fn opt_level_byte(o: OptLevel) -> u8 {
    match o {
        OptLevel::S => 1u8,
        OptLevel::Z => 2u8,
    }
}

pub open spec fn channel_byte(c: Channel) -> u8 {
    match c {
        Channel::Stable => 1u8,
        Channel::Nightly => 2u8,
    }
}

/// The serialized build configuration: one byte per setting.
pub open spec fn config_bytes(c: BuildConfig) -> Seq<u8> {
    seq![opt_level_byte(c.opt_level), channel_byte(c.channel)]
}

/// A file whose path and contents lengths fit the 8-byte length prefix.
pub open spec fn file_wf(f: FileView) -> bool {
    f.path.len() <= u64::MAX && f.contents.len() <= u64::MAX
}

pub open spec fn files_wf(s: Seq<FileView>) -> bool {
    forall|i: int| 0 <= i < s.len() ==> file_wf(#[trigger] s[i])
}

/// The length-prefixed serialization of one file.
pub open spec fn file_bytes(f: FileView) -> Seq<u8> {
    be64(f.path.len() as u64) + f.path + be64(f.contents.len() as u64) + f.contents
}

/// The serialization of a file sequence, in the given order.
pub open spec fn files_bytes(s: Seq<FileView>) -> Seq<u8>
    decreases s.len(),
{
    if s.len() == 0 {
        Seq::empty()
    } else {
        file_bytes(s[0]) + files_bytes(s.drop_first())
    }
}

/// The full byte stream the digest is computed over.
pub open spec fn hash_stream(s: Seq<FileView>, c: BuildConfig) -> Seq<u8> {
    files_bytes(s) + config_bytes(c)
}

/// The Keccak-256 digest of a byte sequence, as the outside hasher
/// computes it.
pub uninterp spec fn keccak_of(data: Seq<u8>) -> Seq<u8>;

/// The project hash of a file set under a build configuration: the
/// digest of the canonical serialization.  A pure function of the file
/// multiset and the configuration.
pub open spec fn project_hash_of(files: Seq<FileView>, c: BuildConfig) -> Seq<u8> {
    keccak_of(hash_stream(sort_files(files), c))
}

/// Relies on tiny_keccak's Keccak-256 hasher: the digest has exactly 32
/// bytes and depends on the input bytes alone.
#[verifier::external_body]
fn keccak256(data: &Vec<u8>) -> (r: Vec<u8>)
    ensures
        r@ == keccak_of(data@),
        r@.len() == 32,
{
    let mut out = [0u8; 32];
    let mut k = tiny_keccak::Keccak::v256();
    tiny_keccak::Hasher::update(&mut k, data.as_slice());
    tiny_keccak::Hasher::finalize(k, &mut out);
    out.to_vec()
}

fn opt_level_byte_exec(o: &OptLevel) -> (r: u8)
    ensures
        r == opt_level_byte(*o),
{
    match o {
        OptLevel::S => 1,
        OptLevel::Z => 2,
    }
}

fn channel_byte_exec(c: &Channel) -> (r: u8)
    ensures
        r == channel_byte(*c),
{
    match c {
        Channel::Stable => 1,
        Channel::Nightly => 2,
    }
}

proof fn lemma_files_bytes_snoc(s: Seq<FileView>, f: FileView)
    ensures
        files_bytes(s.push(f)) == files_bytes(s) + file_bytes(f),
    decreases s.len(),
{
    if s.len() == 0 {
        let p = s.push(f);
        assert(p[0] == f);
        assert(p.drop_first() =~= s);
        assert(files_bytes(p) == file_bytes(f) + files_bytes(s));
        assert(files_bytes(s) == Seq::<u8>::empty());
        assert(file_bytes(f) + Seq::<u8>::empty() =~= Seq::<u8>::empty() + file_bytes(f));
    } else {
        assert(s.push(f).drop_first() =~= s.drop_first().push(f));
        lemma_files_bytes_snoc(s.drop_first(), f);
        assert(s.push(f)[0] == s[0]);
        assert(files_bytes(s.push(f)) == file_bytes(s[0]) + (files_bytes(s.drop_first())
            + file_bytes(f)));
        assert(files_bytes(s) == file_bytes(s[0]) + files_bytes(s.drop_first()));
        assert(file_bytes(s[0]) + (files_bytes(s.drop_first()) + file_bytes(f)) =~= (file_bytes(
            s[0],
        ) + files_bytes(s.drop_first())) + file_bytes(f));
    }
}

/// Hashes a source snapshot together with a build configuration.
///
/// The result is a pure function of the set of files handed in — not of
/// the order in which they were gathered — and of the configuration.
pub fn hash_files(files: Vec<SourceFile>, cfg: &BuildConfig) -> (r: ProjectHash)
    ensures
        r.wf(),
        r.bytes@ == project_hash_of(file_views(files@), *cfg),
{
    let ghost orig: Seq<FileView> = file_views(files@);
    let sorted = sort_file_set(files);
    let ghost sv: Seq<FileView> = file_views(sorted@);
    let mut stream: Vec<u8> = Vec::new();
    let mut i: usize = 0;
    proof {
        assert(sv.take(0) =~= Seq::<FileView>::empty());
    }
    while i < sorted.len()
        invariant
            i <= sorted@.len(),
            sv == file_views(sorted@),
            stream@ == files_bytes(sv.take(i as int)),
        decreases sorted@.len() - i,
    {
        let f = &sorted[i];
        let path_len = be64_bytes(f.path.len() as u64);
        push_all(&mut stream, &path_len);
        push_all(&mut stream, &f.path);
        let contents_len = be64_bytes(f.contents.len() as u64);
        push_all(&mut stream, &contents_len);
        push_all(&mut stream, &f.contents);
        proof {
            assert(sv.take(i as int + 1) =~= sv.take(i as int).push(sv[i as int]));
            lemma_files_bytes_snoc(sv.take(i as int), sv[i as int]);
            assert(stream@ =~= files_bytes(sv.take(i as int)) + file_bytes(sv[i as int]));
        }
        i = i + 1;
    }
    stream.push(opt_level_byte_exec(&cfg.opt_level));
    stream.push(channel_byte_exec(&cfg.channel));
    proof {
        assert(sv.take(sv.len() as int) =~= sv);
        assert(stream@ =~= hash_stream(sv, *cfg));
    }
    let digest = keccak256(&stream);
    ProjectHash { bytes: digest }
}

/// The project hash is deterministic: the same snapshot and
/// configuration always give the same digest.
pub proof fn lemma_project_hash_deterministic(
    files: Seq<FileView>,
    cfg: BuildConfig,
    h1: Seq<u8>,
    h2: Seq<u8>,
)
    requires
        h1 == project_hash_of(files, cfg),
        h2 == project_hash_of(files, cfg),
    ensures
        h1 == h2,
{
}

proof fn lemma_file_bytes_prefix_injective(fa: FileView, fb: FileView, ra: Seq<u8>, rb: Seq<u8>)
    requires
        file_wf(fa),
        file_wf(fb),
        file_bytes(fa) + ra == file_bytes(fb) + rb,
    ensures
        fa == fb,
        ra == rb,
{
    let pla = be64(fa.path.len() as u64);
    let plb = be64(fb.path.len() as u64);
    let cla = be64(fa.contents.len() as u64);
    let clb = be64(fb.contents.len() as u64);
    // restate both sides right-associated so the heads can be peeled off
    assert(file_bytes(fa) + ra =~= pla + (fa.path + (cla + (fa.contents + ra))));
    assert(file_bytes(fb) + rb =~= plb + (fb.path + (clb + (fb.contents + rb))));
    lemma_concat_peel(
        pla,
        fa.path + (cla + (fa.contents + ra)),
        plb,
        fb.path + (clb + (fb.contents + rb)),
    );
    lemma_be64_injective(fa.path.len() as u64, fb.path.len() as u64);
    assert(fa.path.len() == fb.path.len());
    lemma_concat_peel(fa.path, cla + (fa.contents + ra), fb.path, clb + (fb.contents + rb));
    lemma_concat_peel(cla, fa.contents + ra, clb, fb.contents + rb);
    lemma_be64_injective(fa.contents.len() as u64, fb.contents.len() as u64);
    assert(fa.contents.len() == fb.contents.len());
    lemma_concat_peel(fa.contents, ra, fb.contents, rb);
    assert(fa =~= fb);
}

/// The length-prefixed serialization of a file sequence is injective:
/// any change to any file — one flipped byte included — changes the
/// serialized stream.
pub proof fn lemma_files_bytes_injective(a: Seq<FileView>, b: Seq<FileView>)
    requires
        files_wf(a),
        files_wf(b),
        files_bytes(a) == files_bytes(b),
    ensures
        a == b,
    decreases a.len(),
{
    if a.len() == 0 && b.len() == 0 {
        assert(a =~= b);
    } else if a.len() == 0 {
        assert(files_bytes(b) == file_bytes(b[0]) + files_bytes(b.drop_first()));
        assert(files_bytes(b).len() >= 16);
        assert(false);
    } else if b.len() == 0 {
        assert(files_bytes(a) == file_bytes(a[0]) + files_bytes(a.drop_first()));
        assert(files_bytes(a).len() >= 16);
        assert(false);
    } else {
        lemma_file_bytes_prefix_injective(
            a[0],
            b[0],
            files_bytes(a.drop_first()),
            files_bytes(b.drop_first()),
        );
        assert(files_wf(a.drop_first())) by {
            assert forall|i: int| 0 <= i < a.drop_first().len() implies file_wf(
                #[trigger] a.drop_first()[i],
            ) by {
                assert(a.drop_first()[i] == a[i + 1]);
            }
        }
        assert(files_wf(b.drop_first())) by {
            assert forall|i: int| 0 <= i < b.drop_first().len() implies file_wf(
                #[trigger] b.drop_first()[i],
            ) by {
                assert(b.drop_first()[i] == b[i + 1]);
            }
        }
        lemma_files_bytes_injective(a.drop_first(), b.drop_first());
        assert forall|i: int| 0 <= i < a.len() implies a[i] == b[i] by {
            if i > 0 {
                assert(a[i] == a.drop_first()[i - 1]);
                assert(b[i] == b.drop_first()[i - 1]);
            }
        }
        assert(a =~= b);
    }
}

proof fn lemma_opt_level_byte_injective(x: OptLevel, y: OptLevel)
    requires
        opt_level_byte(x) == opt_level_byte(y),
    ensures
        x == y,
{
    match (x, y) {
        (OptLevel::S, OptLevel::S) => {},
        (OptLevel::Z, OptLevel::Z) => {},
        (OptLevel::S, OptLevel::Z) => {},
        (OptLevel::Z, OptLevel::S) => {},
    }
}

proof fn lemma_channel_byte_injective(x: Channel, y: Channel)
    requires
        channel_byte(x) == channel_byte(y),
    ensures
        x == y,
{
    match (x, y) {
        (Channel::Stable, Channel::Stable) => {},
        (Channel::Nightly, Channel::Nightly) => {},
        (Channel::Stable, Channel::Nightly) => {},
        (Channel::Nightly, Channel::Stable) => {},
    }
}

/// The digest input stream is injective: it pins down both the file
/// sequence and the build configuration.
pub proof fn lemma_hash_stream_injective(
    a: Seq<FileView>,
    b: Seq<FileView>,
    ca: BuildConfig,
    cb: BuildConfig,
)
    requires
        files_wf(a),
        files_wf(b),
        hash_stream(a, ca) == hash_stream(b, cb),
    ensures
        a == b,
        ca == cb,
{
    assert((files_bytes(a) + config_bytes(ca)).len() == files_bytes(a).len() + 2);
    assert((files_bytes(b) + config_bytes(cb)).len() == files_bytes(b).len() + 2);
    assert(files_bytes(a).len() == files_bytes(b).len());
    lemma_concat_peel(files_bytes(a), config_bytes(ca), files_bytes(b), config_bytes(cb));
    lemma_files_bytes_injective(a, b);
    assert(config_bytes(ca)[0] == config_bytes(cb)[0]);
    assert(config_bytes(ca)[1] == config_bytes(cb)[1]);
    lemma_opt_level_byte_injective(ca.opt_level, cb.opt_level);
    lemma_channel_byte_injective(ca.channel, cb.channel);
}

/// Sensitivity: any change at all to the file set — one flipped byte in
/// any file included — changes the byte stream the digest is computed
/// over.  The digest itself then differs whenever Keccak-256 is
/// collision-free on the two streams, which is the hash's defining
/// property and not derivable of an opaque digest.
pub proof fn lemma_project_hash_sensitivity(a: Seq<FileView>, b: Seq<FileView>, cfg: BuildConfig)
    requires
        files_wf(a),
        files_wf(b),
        a.to_multiset() != b.to_multiset(),
    ensures
        hash_stream(sort_files(a), cfg) != hash_stream(sort_files(b), cfg),
{
    lemma_file_le_total_ordering();
    a.lemma_sort_by_ensures(file_leq());
    b.lemma_sort_by_ensures(file_leq());
    if hash_stream(sort_files(a), cfg) == hash_stream(sort_files(b), cfg) {
        assert(files_wf(sort_files(a))) by {
            assert forall|i: int| 0 <= i < sort_files(a).len() implies file_wf(
                #[trigger] sort_files(a)[i],
            ) by {
                let x = sort_files(a)[i];
                assert(sort_files(a).contains(x));
                assert(a.contains(x));
                let j = choose|j: int| 0 <= j <= a.len() && a[j] == x;
                assert(file_wf(a[j]));
            }
        }
        assert(files_wf(sort_files(b))) by {
            assert forall|i: int| 0 <= i < sort_files(b).len() implies file_wf(
                #[trigger] sort_files(b)[i],
            ) by {
                let x = sort_files(b)[i];
                assert(sort_files(b).contains(x));
                assert(b.contains(x));
                let j = choose|j: int| 0 <= j <= b.len() && b[j] == x;
                assert(file_wf(b[j]));
            }
        }
        lemma_hash_stream_injective(sort_files(a), sort_files(b), cfg, cfg);
        assert(a.to_multiset() == b.to_multiset());
        assert(false);
    }
}

/// Replacing one file of a snapshot by a different one — one flipped
/// byte in its contents included — changes the file multiset.
proof fn lemma_update_changes_multiset(s: Seq<FileView>, k: int, f: FileView)
    requires
        0 <= k < s.len(),
        f != s[k],
    ensures
        s.update(k, f).to_multiset() != s.to_multiset(),
{
    let m = s.to_multiset();
    vstd::seq_lib::to_multiset_update(s, k, f);
    assert(m.insert(f).count(f) == m.count(f) + 1);
    assert(m.insert(f).remove(s[k]).count(f) == m.insert(f).count(f));
    assert(s.update(k, f).to_multiset().count(f) != m.count(f));
}

/// Sensitivity to a single change: flipping one byte anywhere in one
/// in-scope file gives a snapshot whose digest input stream differs
/// from the original's, whatever the traversal order of either.
pub proof fn lemma_flipped_byte_sensitivity(
    a: Seq<FileView>,
    k: int,
    f: FileView,
    cfg: BuildConfig,
)
    requires
        files_wf(a),
        file_wf(f),
        0 <= k < a.len(),
        f != a[k],
    ensures
        hash_stream(sort_files(a), cfg) != hash_stream(sort_files(a.update(k, f)), cfg),
{
    lemma_update_changes_multiset(a, k, f);
    assert(files_wf(a.update(k, f))) by {
        assert forall|i: int| 0 <= i < a.update(k, f).len() implies file_wf(
            #[trigger] a.update(k, f)[i],
        ) by {
            if i != k {
                assert(a.update(k, f)[i] == a[i]);
            }
        }
    }
    lemma_project_hash_sensitivity(a, a.update(k, f), cfg);
}

/// The project hash does not depend on traversal order: any two
/// gatherings of the same files — the same multiset, in any order —
/// hash to the same digest.
pub proof fn lemma_project_hash_order_independent(
    a: Seq<FileView>,
    b: Seq<FileView>,
    cfg: BuildConfig,
)
    requires
        a.to_multiset() == b.to_multiset(),
    ensures
        project_hash_of(a, cfg) == project_hash_of(b, cfg),
{
    lemma_file_le_total_ordering();
    a.lemma_sort_by_ensures(file_leq());
    b.lemma_sort_by_ensures(file_leq());
    assert(sort_files(a).to_multiset() == sort_files(b).to_multiset());
    vstd::seq_lib::lemma_sorted_unique(sort_files(a), sort_files(b), file_leq());
    assert(sort_files(a) == sort_files(b));
}

} // verus!
