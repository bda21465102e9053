//! Directory listings: the byte-wise order of paths, sorting, and the sorted
//! list of `.wav` files of a directory.
use vstd::prelude::*;
use vstd::relations::{sorted_by, total_ordering};
use vstd::seq_lib::lemma_sorted_unique;
use vstd::string::StringSliceAdditionalSpecFns;

use crate::path::{has_extension, has_extension_spec, join, join_spec};

verus! {

broadcast use vstd::seq_lib::group_to_multiset_ensures;

/// The extension of the sound files that a sample pack holds.
pub const WAV_EXTENSION: &'static str = "wav";

/// One entry of a directory, as the directory listing reports it: its name
/// and whether it is a regular file (after following links).
pub struct DirEntry {
    pub name: Vec<u8>,
    pub is_file: bool,
}

/// Lexicographic order on byte strings; a proper prefix comes first. This is
/// the order of `[u8]`, and the order of paths that share their directory.
pub open spec fn bytes_le(a: Seq<u8>, b: Seq<u8>) -> bool
    decreases a.len(),
{
    if a.len() == 0 {
        true
    } else if b.len() == 0 {
        false
    } else if a[0] != b[0] {
        a[0] < b[0]
    } else {
        bytes_le(a.drop_first(), b.drop_first())
    }
}

/// `bytes_le` as a relation.
pub open spec fn path_order() -> spec_fn(Seq<u8>, Seq<u8>) -> bool {
    |a: Seq<u8>, b: Seq<u8>| bytes_le(a, b)
}

/// The byte strings of a sequence of vectors.
pub open spec fn views(s: Seq<Vec<u8>>) -> Seq<Seq<u8>> {
    s.map_values(|v: Vec<u8>| v@)
}

/// The paths, in the order of the entries, of the regular files of `dir` whose
/// extension is `wav` up to ASCII case.
pub open spec fn wav_candidates(dir: Seq<u8>, entries: Seq<DirEntry>) -> Seq<Seq<u8>>
    decreases entries.len(),
{
    if entries.len() == 0 {
        seq![]
    } else {
        let rest = wav_candidates(dir, entries.drop_last());
        let e = entries.last();
        let p = join_spec(dir, e.name@);
        if e.is_file && has_extension_spec(p, WAV_EXTENSION.spec_bytes()) {
            rest.push(p)
        } else {
            rest
        }
    }
}

proof fn lemma_bytes_le_reflexive(a: Seq<u8>)
    ensures
        bytes_le(a, a),
    decreases a.len(),
{
    if a.len() > 0 {
        lemma_bytes_le_reflexive(a.drop_first());
    }
}

proof fn lemma_bytes_le_antisymmetric(a: Seq<u8>, b: Seq<u8>)
    requires
        bytes_le(a, b),
        bytes_le(b, a),
    ensures
        a == b,
    decreases a.len(),
{
    if a.len() > 0 && b.len() > 0 {
        lemma_bytes_le_antisymmetric(a.drop_first(), b.drop_first());
        assert(a =~= seq![a[0]] + a.drop_first());
        assert(b =~= seq![b[0]] + b.drop_first());
    }
}

proof fn lemma_bytes_le_transitive(a: Seq<u8>, b: Seq<u8>, c: Seq<u8>)
    requires
        bytes_le(a, b),
        bytes_le(b, c),
    ensures
        bytes_le(a, c),
    decreases a.len(),
{
    if a.len() > 0 && b.len() > 0 && c.len() > 0 && a[0] == b[0] && b[0] == c[0] {
        lemma_bytes_le_transitive(a.drop_first(), b.drop_first(), c.drop_first());
    }
}

proof fn lemma_bytes_le_total(a: Seq<u8>, b: Seq<u8>)
    ensures
        bytes_le(a, b) || bytes_le(b, a),
    decreases a.len(),
{
    if a.len() > 0 && b.len() > 0 && a[0] == b[0] {
        lemma_bytes_le_total(a.drop_first(), b.drop_first());
    }
}

/// The byte-wise order of paths is a total order.
pub proof fn lemma_path_order_total()
    ensures
        total_ordering(path_order()),
{
    let r = path_order();
    assert forall|x: Seq<u8>| #[trigger] r(x, x) by {
        lemma_bytes_le_reflexive(x);
    }
    assert forall|x: Seq<u8>, y: Seq<u8>| #[trigger] r(x, y) && #[trigger] r(y, x) implies x == y by {
        lemma_bytes_le_antisymmetric(x, y);
    }
    assert forall|x: Seq<u8>, y: Seq<u8>, z: Seq<u8>| #[trigger] r(x, y) && #[trigger] r(y, z) implies r(
        x,
        z,
    ) by {
        lemma_bytes_le_transitive(x, y, z);
    }
    assert forall|x: Seq<u8>, y: Seq<u8>| #[trigger] r(x, y) || #[trigger] r(y, x) by {
        lemma_bytes_le_total(x, y);
    }
}

/// Whether `a` comes before `b` or equals it in the byte-wise order.
pub fn le_bytes(a: &[u8], b: &[u8]) -> (r: bool)
    ensures
        r == bytes_le(a@, b@),
{
    let mut i: usize = 0;
    assert(a@.skip(0) =~= a@);
    assert(b@.skip(0) =~= b@);
    while i < a.len() && i < b.len() && a[i] == b[i]
        invariant
            i <= a@.len(),
            i <= b@.len(),
            bytes_le(a@, b@) == bytes_le(a@.skip(i as int), b@.skip(i as int)),
        decreases a@.len() - i,
    {
        assert(a@.skip(i as int).drop_first() =~= a@.skip(i + 1));
        assert(b@.skip(i as int).drop_first() =~= b@.skip(i + 1));
        i = i + 1;
    }
    if i == a.len() {
        true
    } else if i == b.len() {
        false
    } else {
        a[i] < b[i]
    }
}

/// The paths sorted in byte-wise order, as sorting `PathBuf`s of one directory
/// does.
pub fn sort_paths(paths: &Vec<Vec<u8>>) -> (r: Vec<Vec<u8>>)
    ensures
        views(r@) == views(paths@).sort_by(path_order()),
{
    proof {
        lemma_path_order_total();
    }
    let ghost ord = path_order();
    let mut r: Vec<Vec<u8>> = Vec::new();
    let n = paths.len();
    let mut i: usize = 0;
    while i < n
        invariant
            n == paths@.len(),
            i <= n,
            total_ordering(ord),
            ord == path_order(),
            sorted_by(views(r@), ord),
            views(r@).to_multiset() == views(paths@.take(i as int)).to_multiset(),
        decreases n - i,
    {
        let x = crate::path::copy_range(paths[i].as_slice(), 0, paths[i].len());
        assert(x@ =~= paths@[i as int]@);
        let mut pos: usize = 0;
        while pos < r.len() && le_bytes(r[pos].as_slice(), x.as_slice())
            invariant
                pos <= r@.len(),
                forall|k: int| 0 <= k < pos ==> bytes_le(#[trigger] r@[k]@, x@),
            decreases r@.len() - pos,
        {
            pos = pos + 1;
        }
        let ghost v = views(r@);
        r.insert(pos, x);
        proof {
            assert(views(r@) =~= v.insert(pos as int, x@));
            assert(pos < v.len() ==> bytes_le(x@, v[pos as int])) by {
                if pos < v.len() {
                    lemma_bytes_le_total(x@, v[pos as int]);
                }
            }
            let t = views(r@);
            assert forall|a: int, b: int| 0 <= a < b < t.len() implies #[trigger] ord(t[a], t[b]) by {
                if a < pos && b < pos {
                    assert(ord(v[a], v[b]));
                } else if a < pos && b == pos {
                } else if a < pos {
                    assert(ord(v[a], v[b - 1]));
                } else if a == pos {
                    assert(ord(v[pos as int], v[b - 1]));
                    lemma_bytes_le_transitive(x@, v[pos as int], v[b - 1]);
                } else {
                    assert(ord(v[a - 1], v[b - 1]));
                }
            }
            assert(paths@.take(i + 1) =~= paths@.take(i as int).push(paths@[i as int]));
            assert(views(paths@.take(i + 1)) =~= views(paths@.take(i as int)).push(x@));
        }
        i = i + 1;
    }
    proof {
        assert(paths@.take(n as int) =~= paths@);
        views(paths@).lemma_sort_by_ensures(ord);
        lemma_sorted_unique(views(r@), views(paths@).sort_by(ord), ord);
    }
    r
}

/// The regular files of `dir` whose extension is `wav` (up to ASCII case),
/// joined onto `dir` and sorted byte-wise: the sound files of a sample
/// directory in the order they are processed.
pub fn list_wavs(dir: &[u8], entries: &Vec<DirEntry>) -> (r: Vec<Vec<u8>>)
    ensures
        views(r@) == wav_candidates(dir@, entries@).sort_by(path_order()),
{
    let mut found: Vec<Vec<u8>> = Vec::new();
    let n = entries.len();
    let mut i: usize = 0;
    while i < n
        invariant
            n == entries@.len(),
            i <= n,
            views(found@) == wav_candidates(dir@, entries@.take(i as int)),
        decreases n - i,
    {
        let e = &entries[i];
        let p = join(dir, e.name.as_slice());
        assert(entries@.take(i + 1).drop_last() =~= entries@.take(i as int));
        if e.is_file && has_extension(p.as_slice(), WAV_EXTENSION.as_bytes()) {
            let ghost before = views(found@);
            found.push(p);
            assert(views(found@) =~= before.push(p@));
        }
        i = i + 1;
    }
    assert(entries@.take(n as int) =~= entries@);
    sort_paths(&found)
}

/// The candidates are exactly the joined paths of the regular `wav` files.
proof fn lemma_wav_candidates_members(dir: Seq<u8>, entries: Seq<DirEntry>, p: Seq<u8>)
    ensures
        wav_candidates(dir, entries).contains(p) <==> exists|i: int|
            0 <= i < entries.len() && #[trigger] entries[i].is_file && p == join_spec(dir, entries[i].name@)
                && has_extension_spec(p, WAV_EXTENSION.spec_bytes()),
    decreases entries.len(),
{
    if entries.len() > 0 {
        let init = entries.drop_last();
        lemma_wav_candidates_members(dir, init, p);
        let rest = wav_candidates(dir, init);
        let e = entries.last();
        let q = join_spec(dir, e.name@);
        let took = e.is_file && has_extension_spec(q, WAV_EXTENSION.spec_bytes());
        if took {
            assert(wav_candidates(dir, entries) == rest.push(q));
            if rest.push(q).contains(p) && !rest.contains(p) {
                let k = choose|k: int| 0 <= k < rest.push(q).len() && rest.push(q)[k] == p;
                assert(k == rest.len());
            }
            if rest.contains(p) {
                let k = choose|k: int| 0 <= k < rest.len() && rest[k] == p;
                assert(rest.push(q)[k] == p);
            }
            if p == q {
                assert(rest.push(q)[rest.len() as int] == q);
            }
        }
        if exists|i: int|
            0 <= i < entries.len() && #[trigger] entries[i].is_file && p == join_spec(dir, entries[i].name@)
                && has_extension_spec(p, WAV_EXTENSION.spec_bytes()) {
            let i = choose|i: int|
                0 <= i < entries.len() && #[trigger] entries[i].is_file && p == join_spec(dir, entries[i].name@)
                    && has_extension_spec(p, WAV_EXTENSION.spec_bytes());
            if i < entries.len() - 1 {
                assert(init[i] == entries[i]);
            }
        }
        if rest.contains(p) {
            let i = choose|i: int|
                0 <= i < init.len() && #[trigger] init[i].is_file && p == join_spec(dir, init[i].name@)
                    && has_extension_spec(p, WAV_EXTENSION.spec_bytes());
            assert(entries[i] == init[i]);
        }
    }
}

/// A directory listing holds exactly the regular files of the directory whose
/// extension is `wav` up to ASCII case, each joined onto the directory.
pub proof fn lemma_listing_is_the_wav_files(dir: Seq<u8>, entries: Seq<DirEntry>, p: Seq<u8>)
    ensures
        wav_candidates(dir, entries).sort_by(path_order()).contains(p) <==> exists|i: int|
            0 <= i < entries.len() && #[trigger] entries[i].is_file && p == join_spec(dir, entries[i].name@)
                && has_extension_spec(p, WAV_EXTENSION.spec_bytes()),
{
    let c = wav_candidates(dir, entries);
    lemma_path_order_total();
    c.lemma_sort_by_ensures(path_order());
    lemma_wav_candidates_members(dir, entries, p);
    let sorted = c.sort_by(path_order());
    if c.contains(p) {
        assert(c.to_multiset().count(p) > 0);
        assert(sorted.to_multiset().count(p) > 0);
    }
}

} // verus!
