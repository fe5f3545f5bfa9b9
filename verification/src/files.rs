//! The source snapshot that defines a build: an ordered set of
//! (relative path, byte contents) pairs.  Hashing must not depend on the
//! order in which the filesystem happened to yield the files, so the set
//! is brought into a canonical order before it is serialized.

use vstd::multiset::Multiset;
use vstd::prelude::*;

use crate::bytes::{bytes_le, bytes_le_exec, lemma_bytes_le_antisymmetric,
    lemma_bytes_le_reflexive, lemma_bytes_le_total, lemma_bytes_le_transitive, push_all, vecs_eq};

verus! {

broadcast use vstd::seq_lib::group_to_multiset_ensures;

/// One source file: its project-relative path and its contents.
pub struct SourceFile {
    pub path: Vec<u8>,
    pub contents: Vec<u8>,
}

/// The mathematical value of a source file.
#[verifier::ext_equal]
pub ghost struct FileView {
    pub path: Seq<u8>,
    pub contents: Seq<u8>,
}

impl View for SourceFile {
    type V = FileView;

    open spec fn view(&self) -> FileView {
        FileView { path: self.path@, contents: self.contents@ }
    }
}

/// The mathematical values of a sequence of source files.
pub open spec fn file_views(s: Seq<SourceFile>) -> Seq<FileView> {
    Seq::new(s.len(), |i: int| s[i]@)
}

/// Whether `s` ends in `suffix`.
pub open spec fn ends_with(s: Seq<u8>, suffix: Seq<u8>) -> bool {
    s.len() >= suffix.len() && s.skip(s.len() - suffix.len()) == suffix
}

/// Whether the last path component of `s` is exactly `name`.
pub open spec fn has_file_name(s: Seq<u8>, name: Seq<u8>) -> bool {
    s == name || ends_with(s, seq![0x2fu8] + name)
}

/// The `.rs` suffix of a Rust source file.
pub open spec fn rs_suffix() -> Seq<u8> {
    seq![0x2eu8, 0x72u8, 0x73u8]
}

/// The manifest file name, `Cargo.toml`.
pub open spec fn manifest_name() -> Seq<u8> {
    seq![0x43u8, 0x61u8, 0x72u8, 0x67u8, 0x6fu8, 0x2eu8, 0x74u8, 0x6fu8, 0x6du8, 0x6cu8]
}

/// The lock file name, `Cargo.lock`.
pub open spec fn lock_name() -> Seq<u8> {
    seq![0x43u8, 0x61u8, 0x72u8, 0x67u8, 0x6fu8, 0x2eu8, 0x6cu8, 0x6fu8, 0x63u8, 0x6bu8]
}

/// Which paths the default snapshot takes in: every Rust source file,
/// and the manifest and lock files anywhere in the project tree.
pub open spec fn in_scope_path(path: Seq<u8>) -> bool {
    ||| ends_with(path, rs_suffix())
    ||| has_file_name(path, manifest_name())
    ||| has_file_name(path, lock_name())
}

fn ends_with_exec(s: &Vec<u8>, suffix: &Vec<u8>) -> (r: bool)
    ensures
        r == ends_with(s@, suffix@),
{
    if s.len() < suffix.len() {
        return false;
    }
    let off = s.len() - suffix.len();
    let mut i: usize = 0;
    while i < suffix.len()
        invariant
            off == s@.len() - suffix@.len(),
            s@.len() <= usize::MAX,
            i <= suffix@.len(),
            forall|k: int| 0 <= k < i ==> s@[off + k] == suffix@[k],
        decreases suffix@.len() - i,
    {
        proof {
            assert(off + i < s@.len());
        }
        if s[off + i] != suffix[i] {
            proof {
                assert(s@.skip(off as int)[i as int] == s@[off + i]);
            }
            return false;
        }
        i = i + 1;
    }
    proof {
        assert(s@.skip(off as int) =~= suffix@);
    }
    true
}

fn rs_suffix_exec() -> (r: Vec<u8>)
    ensures
        r@ == rs_suffix(),
{
    let mut r: Vec<u8> = Vec::new();
    r.push(0x2e);
    r.push(0x72);
    r.push(0x73);
    proof {
        assert(r@ =~= rs_suffix());
    }
    r
}

fn manifest_name_exec() -> (r: Vec<u8>)
    ensures
        r@ == manifest_name(),
{
    let mut r: Vec<u8> = Vec::new();
    r.push(0x43);
    r.push(0x61);
    r.push(0x72);
    r.push(0x67);
    r.push(0x6f);
    r.push(0x2e);
    r.push(0x74);
    r.push(0x6f);
    r.push(0x6d);
    r.push(0x6c);
    proof {
        assert(r@ =~= manifest_name());
    }
    r
}

fn lock_name_exec() -> (r: Vec<u8>)
    ensures
        r@ == lock_name(),
{
    let mut r: Vec<u8> = Vec::new();
    r.push(0x43);
    r.push(0x61);
    r.push(0x72);
    r.push(0x67);
    r.push(0x6f);
    r.push(0x2e);
    r.push(0x6c);
    r.push(0x6f);
    r.push(0x63);
    r.push(0x6b);
    proof {
        assert(r@ =~= lock_name());
    }
    r
}

fn has_file_name_exec(s: &Vec<u8>, name: &Vec<u8>) -> (r: bool)
    ensures
        r == has_file_name(s@, name@),
{
    if vecs_eq(s, name) {
        return true;
    }
    let mut pattern: Vec<u8> = Vec::new();
    pattern.push(0x2f);
    push_all(&mut pattern, name);
    proof {
        assert(pattern@ =~= seq![0x2fu8] + name@);
    }
    ends_with_exec(s, &pattern)
}

/// Decides whether a path is in scope for the default snapshot.
pub fn is_in_scope_path(path: &Vec<u8>) -> (r: bool)
    ensures
        r == in_scope_path(path@),
{
    let rs = rs_suffix_exec();
    if ends_with_exec(path, &rs) {
        return true;
    }
    let manifest = manifest_name_exec();
    if has_file_name_exec(path, &manifest) {
        return true;
    }
    let lock = lock_name_exec();
    has_file_name_exec(path, &lock)
}

/// Files ordered lexicographically by path; ties (two entries for the
/// same path) are broken by the contents, so the order is total.
pub open spec fn file_le(a: FileView, b: FileView) -> bool {
    if a.path == b.path {
        bytes_le(a.contents, b.contents)
    } else {
        bytes_le(a.path, b.path)
    }
}

/// `file_le` as a first-class relation.
pub open spec fn file_leq() -> spec_fn(FileView, FileView) -> bool {
    |a: FileView, b: FileView| file_le(a, b)
}

pub proof fn lemma_file_le_reflexive(a: FileView)
    ensures
        file_le(a, a),
{
    lemma_bytes_le_reflexive(a.contents);
}

pub proof fn lemma_file_le_total(a: FileView, b: FileView)
    ensures
        file_le(a, b) || file_le(b, a),
{
    if a.path == b.path {
        lemma_bytes_le_total(a.contents, b.contents);
    } else {
        lemma_bytes_le_total(a.path, b.path);
    }
}

pub proof fn lemma_file_le_antisymmetric(a: FileView, b: FileView)
    requires
        file_le(a, b),
        file_le(b, a),
    ensures
        a == b,
{
    if a.path == b.path {
        lemma_bytes_le_antisymmetric(a.contents, b.contents);
    } else {
        lemma_bytes_le_antisymmetric(a.path, b.path);
    }
}

pub proof fn lemma_file_le_transitive(a: FileView, b: FileView, c: FileView)
    requires
        file_le(a, b),
        file_le(b, c),
    ensures
        file_le(a, c),
{
    if a.path == b.path && b.path == c.path {
        lemma_bytes_le_transitive(a.contents, b.contents, c.contents);
    } else if a.path == b.path {
        // a and b share a path, c differs from it
        assert(file_le(a, c) == bytes_le(a.path, c.path));
    } else if b.path == c.path {
        assert(file_le(a, c) == bytes_le(a.path, c.path));
    } else {
        lemma_bytes_le_transitive(a.path, b.path, c.path);
        if a.path == c.path {
            lemma_bytes_le_antisymmetric(a.path, b.path);
        }
    }
}

/// `file_le` is a total ordering in the sense of `vstd::relations`.
pub proof fn lemma_file_le_total_ordering()
    ensures
        vstd::relations::total_ordering(file_leq()),
{
    let leq = file_leq();
    assert forall|a: FileView| #[trigger] leq(a, a) by {
        lemma_file_le_reflexive(a);
    }
    assert forall|a: FileView, b: FileView| #[trigger] leq(a, b) && #[trigger] leq(b, a)
        implies a == b by {
        lemma_file_le_antisymmetric(a, b);
    }
    assert forall|a: FileView, b: FileView, c: FileView|
        #[trigger] leq(a, b) && #[trigger] leq(b, c) implies leq(a, c) by {
        lemma_file_le_transitive(a, b, c);
    }
    assert forall|a: FileView, b: FileView| !(#[trigger] leq(a, b)) implies #[trigger] leq(b, a) by {
        lemma_file_le_total(a, b);
    }
}

/// The canonical order of a file set.
pub open spec fn sort_files(s: Seq<FileView>) -> Seq<FileView> {
    s.sort_by(file_leq())
}

/// Decides `file_le` on concrete files.
fn file_le_exec(a: &SourceFile, b: &SourceFile) -> (r: bool)
    ensures
        r == file_le(a@, b@),
{
    if vecs_eq(&a.path, &b.path) {
        bytes_le_exec(&a.contents, &b.contents)
    } else {
        bytes_le_exec(&a.path, &b.path)
    }
}

/// Returns the index of a least file of a non-empty set.
fn min_index(input: &Vec<SourceFile>) -> (m: usize)
    requires
        input@.len() > 0,
    ensures
        m < input@.len(),
        forall|k: int| 0 <= k < input@.len() ==> file_le(input@[m as int]@, #[trigger] input@[k]@),
{
    let mut m: usize = 0;
    let mut k: usize = 1;
    proof {
        lemma_file_le_reflexive(input@[0]@);
    }
    while k < input.len()
        invariant
            1 <= k <= input@.len(),
            m < k,
            forall|j: int| 0 <= j < k ==> file_le(input@[m as int]@, #[trigger] input@[j]@),
        decreases input@.len() - k,
    {
        if file_le_exec(&input[k], &input[m]) {
            proof {
                assert forall|j: int| 0 <= j < k + 1
                    implies file_le(input@[k as int]@, #[trigger] input@[j]@) by {
                    if j < k {
                        lemma_file_le_transitive(input@[k as int]@, input@[m as int]@, input@[j]@);
                    } else {
                        lemma_file_le_reflexive(input@[k as int]@);
                    }
                }
            }
            m = k;
        } else {
            proof {
                lemma_file_le_total(input@[m as int]@, input@[k as int]@);
            }
        }
        k = k + 1;
    }
    m
}

proof fn lemma_file_views_remove(s: Seq<SourceFile>, m: int)
    requires
        0 <= m < s.len(),
    ensures
        file_views(s.remove(m)) == file_views(s).remove(m),
{
    assert forall|k: int| 0 <= k < s.len() - 1
        implies file_views(s.remove(m))[k] == file_views(s).remove(m)[k] by {
        if k < m {
            assert(s.remove(m)[k] == s[k]);
        } else {
            assert(s.remove(m)[k] == s[k + 1]);
        }
    }
    assert(file_views(s.remove(m)) =~= file_views(s).remove(m));
}

proof fn lemma_file_views_push(s: Seq<SourceFile>, f: SourceFile)
    ensures
        file_views(s.push(f)) == file_views(s).push(f@),
{
    assert(file_views(s.push(f)) =~= file_views(s).push(f@));
}

/// Brings a file set into its canonical order.  The result is the unique
/// reordering of the input that is sorted by `file_le`, so it does not
/// depend on the order in which the input was gathered.
pub fn sort_file_set(files: Vec<SourceFile>) -> (r: Vec<SourceFile>)
    ensures
        file_views(r@) == sort_files(file_views(files@)),
{
    let ghost orig: Seq<FileView> = file_views(files@);
    let mut input = files;
    let mut out: Vec<SourceFile> = Vec::new();
    proof {
        assert(file_views(out@).to_multiset().add(file_views(input@).to_multiset()) =~= orig
            .to_multiset());
    }
    while input.len() > 0
        invariant
            vstd::relations::sorted_by(file_views(out@), file_leq()),
            file_views(out@).to_multiset().add(file_views(input@).to_multiset())
                == orig.to_multiset(),
            forall|i: int, k: int|
                0 <= i < out@.len() && 0 <= k < input@.len() ==> file_le(
                    #[trigger] file_views(out@)[i],
                    #[trigger] file_views(input@)[k],
                ),
        decreases input@.len(),
    {
        let ghost in0: Seq<SourceFile> = input@;
        let ghost out0: Seq<SourceFile> = out@;
        let m = min_index(&input);
        let f = input.remove(m);
        proof {
            lemma_file_views_remove(in0, m as int);
            assert(file_views(in0).to_multiset().count(f@) > 0) by {
                assert(file_views(in0)[m as int] == f@);
                assert(file_views(in0).contains(f@));
            }
            assert(file_views(input@).to_multiset() == file_views(in0).to_multiset().remove(f@));
        }
        out.push(f);
        proof {
            lemma_file_views_push(out0, f);
            // the pushed file keeps the output sorted: it dominates every
            // element already placed
            assert forall|i: int, j: int| 0 <= i < j < file_views(out@).len()
                implies file_leq()(file_views(out@)[i], file_views(out@)[j]) by {
                if j < file_views(out0).len() {
                    assert(file_leq()(file_views(out0)[i], file_views(out0)[j]));
                } else {
                    assert(file_views(out@)[j] == f@);
                    assert(file_le(file_views(out0)[i], file_views(in0)[m as int]));
                }
            }
            // every element still to place dominates the pushed file
            assert forall|i: int, k: int|
                0 <= i < out@.len() && 0 <= k < input@.len() implies file_le(
                    file_views(out@)[i],
                    file_views(input@)[k],
                ) by {
                let x = file_views(input@)[k];
                if k < m {
                    assert(x == file_views(in0)[k]);
                } else {
                    assert(x == file_views(in0)[k + 1]);
                }
                if i < out0.len() {
                    assert(file_le(file_views(out0)[i], x));
                } else {
                    assert(file_views(out@)[i] == f@);
                    assert(file_le(file_views(in0)[m as int], x));
                }
            }
            // multiset bookkeeping: moving one occurrence from input to out
            let a0 = file_views(out0).to_multiset();
            let b0 = file_views(in0).to_multiset();
            let a1 = file_views(out@).to_multiset();
            let b1 = file_views(input@).to_multiset();
            assert(a1 == a0.insert(f@));
            assert(b1 == b0.remove(f@));
            assert(b0.count(f@) > 0);
            assert forall|y: FileView| a1.count(y) + b1.count(y) == a0.count(y) + b0.count(
                y,
            ) by {
            }
            assert(a1.add(b1) =~= a0.add(b0));
        }
    }
    proof {
        assert(file_views(input@).len() == 0);
        assert(file_views(input@).to_multiset().len() == 0);
        assert(file_views(input@).to_multiset() =~= Multiset::empty());
        assert(file_views(out@).to_multiset() =~= orig.to_multiset());
        lemma_file_le_total_ordering();
        orig.lemma_sort_by_ensures(file_leq());
        vstd::seq_lib::lemma_sorted_unique(file_views(out@), orig.sort_by(file_leq()), file_leq());
        assert(file_views(out@) =~= sort_files(orig));
    }
    out
}

} // verus!
