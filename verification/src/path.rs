//! Unix paths as byte strings: absolute paths, joining, and the file name,
//! stem and extension of a path, with the meaning that `std::path` gives them
//! on Unix.
use vstd::prelude::*;

verus! {

/// The path separator `/`.
pub const SEP: u8 = 0x2f;

/// The dot `.`.
pub const DOT: u8 = 0x2e;

/// A path is absolute when it starts with the separator.
pub open spec fn is_absolute_spec(p: Seq<u8>) -> bool {
    p.len() > 0 && p[0] == SEP
}

/// `base` joined with `rel`: `rel` itself when it is absolute, else `rel`
/// appended to `base`, with a separator between them when `base` is not empty
/// and does not already end with one.
pub open spec fn join_spec(base: Seq<u8>, rel: Seq<u8>) -> Seq<u8> {
    if is_absolute_spec(rel) {
        rel
    } else if base.len() > 0 && base.last() != SEP {
        base.push(SEP) + rel
    } else {
        base + rel
    }
}

/// A path made absolute against the working directory `cwd`.
pub open spec fn absolutize_spec(p: Seq<u8>, cwd: Seq<u8>) -> Seq<u8> {
    if is_absolute_spec(p) {
        p
    } else {
        join_spec(cwd, p)
    }
}

/// The index at which the last segment of `p` starts: just after the last
/// separator, or 0 when there is none.
pub open spec fn segment_start(p: Seq<u8>) -> int
    decreases p.len(),
{
    if p.len() == 0 {
        0
    } else if p.last() == SEP {
        p.len() as int
    } else {
        segment_start(p.drop_last())
    }
}

/// The last normal component of a path. Trailing separators and `.`
/// components are skipped; a path that ends in `..`, that is empty, that is
/// the root, or that is `.` has none.
pub open spec fn file_name_spec(p: Seq<u8>) -> Option<Seq<u8>>
    decreases p.len(),
{
    if p.len() == 0 {
        None
    } else if p.last() == SEP {
        file_name_spec(p.drop_last())
    } else {
        let start = segment_start(p);
        let seg = p.subrange(start, p.len() as int);
        if seg == seq![DOT] {
            if start == 0 {
                None
            } else {
                proof {
                    lemma_segment_start_bounds(p);
                }
                file_name_spec(p.subrange(0, start))
            }
        } else if seg == seq![DOT, DOT] {
            None
        } else {
            Some(seg)
        }
    }
}

/// The index of the last dot in `f`, or -1 when there is none.
pub open spec fn last_dot(f: Seq<u8>) -> int
    decreases f.len(),
{
    if f.len() == 0 {
        -1
    } else if f.last() == DOT {
        f.len() - 1
    } else {
        last_dot(f.drop_last())
    }
}

/// The extension of a file name: what follows its last dot, unless the name is
/// `..`, has no dot, or has its only dot in front.
pub open spec fn name_extension(f: Seq<u8>) -> Option<Seq<u8>> {
    let i = last_dot(f);
    if f == seq![DOT, DOT] || i <= 0 {
        None
    } else {
        Some(f.subrange(i + 1, f.len() as int))
    }
}

/// The stem of a file name: what precedes its last dot, or the whole name
/// where `name_extension` finds no extension.
pub open spec fn name_stem(f: Seq<u8>) -> Seq<u8> {
    let i = last_dot(f);
    if f == seq![DOT, DOT] || i <= 0 {
        f
    } else {
        f.subrange(0, i)
    }
}

/// The extension of the file name of a path.
pub open spec fn extension_spec(p: Seq<u8>) -> Option<Seq<u8>> {
    match file_name_spec(p) {
        Some(f) => name_extension(f),
        None => None,
    }
}

/// The stem of the file name of a path.
pub open spec fn file_stem_spec(p: Seq<u8>) -> Option<Seq<u8>> {
    match file_name_spec(p) {
        Some(f) => Some(name_stem(f)),
        None => None,
    }
}

/// ASCII letters folded to lower case; every other byte unchanged.
pub open spec fn ascii_lower(b: u8) -> u8 {
    if 0x41 <= b <= 0x5a {
        (b + 0x20) as u8
    } else {
        b
    }
}

/// Two byte strings are equal once ASCII letters are folded to one case.
pub open spec fn eq_ignore_ascii_case_spec(a: Seq<u8>, b: Seq<u8>) -> bool {
    a.len() == b.len() && forall|i: int| 0 <= i < a.len() ==> ascii_lower(#[trigger] a[i]) == ascii_lower(b[i])
}

/// The path has an extension, and it equals `ext` up to ASCII case.
pub open spec fn has_extension_spec(p: Seq<u8>, ext: Seq<u8>) -> bool {
    match extension_spec(p) {
        Some(e) => eq_ignore_ascii_case_spec(e, ext),
        None => false,
    }
}

/// A single normal path component: not empty, no separator, not `.` or `..`.
pub open spec fn is_normal_name(n: Seq<u8>) -> bool {
    &&& n.len() > 0
    &&& forall|i: int| 0 <= i < n.len() ==> #[trigger] n[i] != SEP
    &&& n != seq![DOT]
    &&& n != seq![DOT, DOT]
}

pub proof fn lemma_segment_start_bounds(p: Seq<u8>)
    ensures
        0 <= segment_start(p) <= p.len(),
        p.len() > 0 && p.last() != SEP ==> segment_start(p) < p.len(),
        forall|k: int| segment_start(p) <= k < p.len() ==> p[k] != SEP,
        segment_start(p) > 0 ==> p[segment_start(p) - 1] == SEP,
    decreases p.len(),
{
    if p.len() > 0 && p.last() != SEP {
        let q = p.drop_last();
        lemma_segment_start_bounds(q);
        assert forall|k: int| segment_start(p) <= k < p.len() implies p[k] != SEP by {
            if k < p.len() - 1 {
                assert(q[k] == p[k]);
            }
        }
    }
}

/// The segment start of a prefix does not move when the bytes cut off hold
/// no separator.
proof fn lemma_segment_start_prefix(p: Seq<u8>, s: int, e: int)
    requires
        0 <= s <= e <= p.len(),
        forall|k: int| s <= k < e ==> p[k] != SEP,
    ensures
        segment_start(p.subrange(0, e)) == segment_start(p.subrange(0, s)),
    decreases e - s,
{
    if e > s {
        assert(p.subrange(0, e).drop_last() =~= p.subrange(0, e - 1));
        lemma_segment_start_prefix(p, s, e - 1);
    }
}

/// The segment of a prefix that ends right after a separator starts there.
proof fn lemma_segment_start_at_sep(p: Seq<u8>, s: int)
    requires
        0 <= s <= p.len(),
        s == 0 || p[s - 1] == SEP,
    ensures
        segment_start(p.subrange(0, s)) == s,
{
}

pub proof fn lemma_last_dot_bounds(f: Seq<u8>)
    ensures
        -1 <= last_dot(f) < f.len(),
        last_dot(f) >= 0 ==> f[last_dot(f)] == DOT,
        forall|k: int| last_dot(f) < k < f.len() ==> f[k] != DOT,
    decreases f.len(),
{
    if f.len() > 0 && f.last() != DOT {
        let q = f.drop_last();
        lemma_last_dot_bounds(q);
        assert forall|k: int| last_dot(f) < k < f.len() implies f[k] != DOT by {
            if k < f.len() - 1 {
                assert(q[k] == f[k]);
            }
        }
    }
}

/// Copies `src` onto the end of `out`.
pub fn push_all(out: &mut Vec<u8>, src: &[u8])
    ensures
        final(out)@ == old(out)@ + src@,
{
    let ghost start = out@;
    let n = src.len();
    let mut i: usize = 0;
    while i < n
        invariant
            n == src@.len(),
            i <= n,
            out@ == start + src@.subrange(0, i as int),
        decreases n - i,
    {
        out.push(src[i]);
        i = i + 1;
        assert(src@.subrange(0, i as int) =~= src@.subrange(0, (i - 1) as int).push(src@[i - 1]));
    }
    assert(src@.subrange(0, n as int) =~= src@);
}

/// A fresh vector holding `src[from..to]`.
pub fn copy_range<T: Copy>(src: &[T], from: usize, to: usize) -> (r: Vec<T>)
    requires
        from <= to <= src@.len(),
    ensures
        r@ == src@.subrange(from as int, to as int),
{
    let mut r: Vec<T> = Vec::new();
    let mut i: usize = from;
    while i < to
        invariant
            from <= i <= to <= src@.len(),
            r@ == src@.subrange(from as int, i as int),
        decreases to - i,
    {
        r.push(src[i]);
        i = i + 1;
        assert(src@.subrange(from as int, i as int) =~= src@.subrange(from as int, (i - 1) as int).push(
            src@[i - 1],
        ));
    }
    r
}

/// Whether two byte strings are equal.
pub fn bytes_eq(a: &[u8], b: &[u8]) -> (r: bool)
    ensures
        r == (a@ == b@),
{
    if a.len() != b.len() {
        return false;
    }
    let n = a.len();
    let mut i: usize = 0;
    while i < n
        invariant
            n == a@.len(),
            n == b@.len(),
            i <= n,
            forall|k: int| 0 <= k < i ==> a@[k] == b@[k],
        decreases n - i,
    {
        if a[i] != b[i] {
            return false;
        }
        i = i + 1;
    }
    assert(a@ =~= b@);
    true
}

/// Whether `s` ends with `suffix`.
pub fn ends_with(s: &[u8], suffix: &[u8]) -> (r: bool)
    ensures
        r == (suffix@.len() <= s@.len() && s@.subrange(s@.len() - suffix@.len(), s@.len() as int)
            == suffix@),
{
    if suffix.len() > s.len() {
        return false;
    }
    let off = s.len() - suffix.len();
    let n = suffix.len();
    let mut i: usize = 0;
    while i < n
        invariant
            n == suffix@.len(),
            off + n == s@.len(),
            s@.len() == s.len(),
            i <= n,
            forall|k: int| 0 <= k < i ==> s@[off + k] == suffix@[k],
        decreases n - i,
    {
        if s[off + i] != suffix[i] {
            assert(s@.subrange(off as int, s@.len() as int)[i as int] != suffix@[i as int]);
            return false;
        }
        i = i + 1;
    }
    assert(s@.subrange(off as int, s@.len() as int) =~= suffix@);
    true
}

/// Whether the path is absolute.
pub fn is_absolute(p: &[u8]) -> (r: bool)
    ensures
        r == is_absolute_spec(p@),
{
    p.len() > 0 && p[0] == SEP
}

/// `base` joined with `rel`, as `PathBuf::join` does on Unix.
pub fn join(base: &[u8], rel: &[u8]) -> (r: Vec<u8>)
    ensures
        r@ == join_spec(base@, rel@),
{
    let mut r: Vec<u8> = Vec::new();
    if is_absolute(rel) {
        push_all(&mut r, rel);
        assert(r@ =~= rel@);
        return r;
    }
    push_all(&mut r, base);
    if base.len() > 0 && base[base.len() - 1] != SEP {
        r.push(SEP);
    }
    push_all(&mut r, rel);
    assert(r@ =~= join_spec(base@, rel@));
    r
}

/// The path made absolute against the working directory `cwd`.
pub fn absolutize(p: &[u8], cwd: &[u8]) -> (r: Vec<u8>)
    ensures
        r@ == absolutize_spec(p@, cwd@),
{
    if is_absolute(p) {
        let mut r: Vec<u8> = Vec::new();
        push_all(&mut r, p);
        assert(r@ =~= p@);
        r
    } else {
        join(cwd, p)
    }
}

/// The file name of a path, as `Path::file_name` gives it on Unix.
pub fn file_name(p: &[u8]) -> (r: Option<Vec<u8>>)
    ensures
        match r {
            Some(v) => file_name_spec(p@) == Some(v@),
            None => file_name_spec(p@) is None,
        },
{
    let mut end: usize = p.len();
    assert(p@.subrange(0, end as int) =~= p@);
    loop
        invariant
            end <= p@.len(),
            file_name_spec(p@) == file_name_spec(p@.subrange(0, end as int)),
        decreases end,
    {
        let ghost q = p@.subrange(0, end as int);
        if end == 0 {
            return None;
        }
        if p[end - 1] == SEP {
            assert(q.drop_last() =~= p@.subrange(0, end - 1));
            end = end - 1;
        } else {
            let mut start: usize = end;
            while start > 0 && p[start - 1] != SEP
                invariant
                    start <= end <= p@.len(),
                    forall|k: int| start <= k < end ==> p@[k] != SEP,
                decreases start,
            {
                start = start - 1;
            }
            proof {
                lemma_segment_start_prefix(p@, start as int, end as int);
                lemma_segment_start_at_sep(p@, start as int);
                assert(q.subrange(start as int, q.len() as int) =~= p@.subrange(
                    start as int,
                    end as int,
                ));
                assert(q.subrange(0, start as int) =~= p@.subrange(0, start as int));
            }
            let len = end - start;
            if len == 1 && p[start] == DOT {
                assert(p@.subrange(start as int, end as int) =~= seq![DOT]);
                if start == 0 {
                    return None;
                }
                end = start;
            } else if len == 2 && p[start] == DOT && p[start + 1] == DOT {
                assert(p@.subrange(start as int, end as int) =~= seq![DOT, DOT]);
                return None;
            } else {
                let seg = copy_range(p, start, end);
                proof {
                    if seg@ == seq![DOT] {
                        assert(seg@[0] == p@[start as int]);
                    }
                    if seg@ == seq![DOT, DOT] {
                        assert(seg@[0] == p@[start as int]);
                        assert(seg@[1] == p@[start + 1]);
                    }
                }
                return Some(seg);
            }
        }
    }
}

/// The index of the last dot in `f`, or `f.len()` when there is none.
fn find_last_dot(f: &[u8]) -> (r: usize)
    ensures
        r <= f@.len(),
        r == f@.len() <==> last_dot(f@) == -1,
        r < f@.len() ==> r == last_dot(f@),
{
    let mut i: usize = f.len();
    assert(f@.subrange(0, i as int) =~= f@);
    while i > 0 && f[i - 1] != DOT
        invariant
            i <= f@.len(),
            last_dot(f@) == last_dot(f@.subrange(0, i as int)),
        decreases i,
    {
        assert(f@.subrange(0, i as int).drop_last() =~= f@.subrange(0, i - 1));
        i = i - 1;
    }
    if i == 0 {
        f.len()
    } else {
        i - 1
    }
}

/// The extension of a file name (see `name_extension`).
pub fn extension_of_name(f: &[u8]) -> (r: Option<Vec<u8>>)
    ensures
        match r {
            Some(v) => name_extension(f@) == Some(v@),
            None => name_extension(f@) is None,
        },
{
    proof {
        lemma_last_dot_bounds(f@);
    }
    let is_dotdot = f.len() == 2 && f[0] == DOT && f[1] == DOT;
    assert(is_dotdot <==> f@ == seq![DOT, DOT]) by {
        if f@ == seq![DOT, DOT] {
            assert(f@[0] == DOT && f@[1] == DOT);
        }
        if is_dotdot {
            assert(f@ =~= seq![DOT, DOT]);
        }
    }
    let i = find_last_dot(f);
    if is_dotdot || i == f.len() || i == 0 {
        None
    } else {
        Some(copy_range(f, i + 1, f.len()))
    }
}

/// The stem of a file name (see `name_stem`).
pub fn stem_of_name(f: &[u8]) -> (r: Vec<u8>)
    ensures
        r@ == name_stem(f@),
{
    proof {
        lemma_last_dot_bounds(f@);
    }
    let is_dotdot = f.len() == 2 && f[0] == DOT && f[1] == DOT;
    assert(is_dotdot <==> f@ == seq![DOT, DOT]) by {
        if f@ == seq![DOT, DOT] {
            assert(f@[0] == DOT && f@[1] == DOT);
        }
        if is_dotdot {
            assert(f@ =~= seq![DOT, DOT]);
        }
    }
    let i = find_last_dot(f);
    if is_dotdot || i == f.len() || i == 0 {
        copy_range(f, 0, f.len())
    } else {
        copy_range(f, 0, i)
    }
}

/// The extension of the file name of a path, as `Path::extension` gives it.
pub fn extension(p: &[u8]) -> (r: Option<Vec<u8>>)
    ensures
        match r {
            Some(v) => extension_spec(p@) == Some(v@),
            None => extension_spec(p@) is None,
        },
{
    match file_name(p) {
        Some(f) => extension_of_name(f.as_slice()),
        None => None,
    }
}

/// The stem of the file name of a path, as `Path::file_stem` gives it.
pub fn file_stem(p: &[u8]) -> (r: Option<Vec<u8>>)
    ensures
        match r {
            Some(v) => file_stem_spec(p@) == Some(v@),
            None => file_stem_spec(p@) is None,
        },
{
    match file_name(p) {
        Some(f) => Some(stem_of_name(f.as_slice())),
        None => None,
    }
}

fn to_ascii_lower(b: u8) -> (r: u8)
    ensures
        r == ascii_lower(b),
{
    if 0x41 <= b && b <= 0x5a {
        b + 0x20
    } else {
        b
    }
}

/// Whether two byte strings are equal up to ASCII case.
pub fn eq_ignore_ascii_case(a: &[u8], b: &[u8]) -> (r: bool)
    ensures
        r == eq_ignore_ascii_case_spec(a@, b@),
{
    if a.len() != b.len() {
        return false;
    }
    let n = a.len();
    let mut i: usize = 0;
    while i < n
        invariant
            n == a@.len(),
            n == b@.len(),
            i <= n,
            forall|k: int| 0 <= k < i ==> ascii_lower(#[trigger] a@[k]) == ascii_lower(b@[k]),
        decreases n - i,
    {
        if to_ascii_lower(a[i]) != to_ascii_lower(b[i]) {
            return false;
        }
        i = i + 1;
    }
    true
}

/// Whether the path has the extension `ext`, compared up to ASCII case.
pub fn has_extension(p: &[u8], ext: &[u8]) -> (r: bool)
    ensures
        r == has_extension_spec(p@, ext@),
{
    match extension(p) {
        Some(e) => eq_ignore_ascii_case(e.as_slice(), ext),
        None => false,
    }
}

/// The file name of a normal name joined onto any directory is that name.
pub proof fn lemma_join_file_name(dir: Seq<u8>, name: Seq<u8>)
    requires
        is_normal_name(name),
    ensures
        file_name_spec(join_spec(dir, name)) == Some(name),
{
    let p = join_spec(dir, name);
    let n = name.len();
    assert(!is_absolute_spec(name)) by {
        assert(name[0] != SEP);
    }
    assert(p.subrange(p.len() - n, p.len() as int) =~= name);
    assert(p.last() == name.last());
    let s = p.len() - n;
    assert(s == 0 || p[s - 1] == SEP);
    lemma_segment_start_prefix(p, s, p.len() as int);
    assert(p.subrange(0, p.len() as int) =~= p);
    lemma_segment_start_at_sep(p, s);
}

/// Making a path absolute against an absolute directory gives an absolute
/// path, and doing it again changes nothing.
pub proof fn lemma_absolutize_absolute(p: Seq<u8>, cwd: Seq<u8>, other: Seq<u8>)
    requires
        is_absolute_spec(cwd),
    ensures
        is_absolute_spec(absolutize_spec(p, cwd)),
        absolutize_spec(absolutize_spec(p, cwd), other) == absolutize_spec(p, cwd),
{
    if !is_absolute_spec(p) {
        let r = join_spec(cwd, p);
        assert(r[0] == cwd[0]);
    }
}

/// Joining a name onto a directory and then making the result absolute is
/// the same as joining the name onto the directory made absolute.
pub proof fn lemma_absolutize_join(dir: Seq<u8>, name: Seq<u8>, cwd: Seq<u8>)
    ensures
        absolutize_spec(join_spec(dir, name), cwd) == join_spec(absolutize_spec(dir, cwd), name),
{
    if is_absolute_spec(name) {
    } else if is_absolute_spec(dir) {
        assert(join_spec(dir, name)[0] == dir[0]);
    } else if dir.len() == 0 {
        assert(join_spec(dir, name) =~= name);
        if cwd.len() > 0 && cwd.last() != SEP {
            assert(join_spec(cwd, dir) =~= cwd.push(SEP));
            assert(join_spec(cwd, dir).last() == SEP);
            assert(join_spec(join_spec(cwd, dir), name) =~= join_spec(cwd, name));
        } else {
            assert(join_spec(cwd, dir) =~= cwd);
        }
    } else {
        let jn = join_spec(dir, name);
        assert(jn[0] == dir[0]);
        let cd = join_spec(cwd, dir);
        assert(cd.len() > 0 && cd.last() == dir.last());
        assert(join_spec(cwd, jn) =~= join_spec(cd, name));
    }
}

/// A file name is a single normal component.
pub proof fn lemma_file_name_normal(p: Seq<u8>)
    ensures
        file_name_spec(p) matches Some(f) ==> is_normal_name(f),
    decreases p.len(),
{
    if p.len() == 0 {
    } else if p.last() == SEP {
        lemma_file_name_normal(p.drop_last());
    } else {
        let start = segment_start(p);
        lemma_segment_start_bounds(p);
        let seg = p.subrange(start, p.len() as int);
        if seg == seq![DOT] {
            if start != 0 {
                lemma_file_name_normal(p.subrange(0, start));
            }
        } else if seg != seq![DOT, DOT] {
            assert forall|i: int| 0 <= i < seg.len() implies #[trigger] seg[i] != SEP by {
                assert(seg[i] == p[start + i]);
            }
        }
    }
}

/// The last dot of a name that ends in a dot and a dot-free extension is that
/// dot.
pub proof fn lemma_last_dot_append(prefix: Seq<u8>, ext: Seq<u8>)
    requires
        forall|i: int| 0 <= i < ext.len() ==> #[trigger] ext[i] != DOT,
    ensures
        last_dot(prefix + seq![DOT].add(ext)) == prefix.len(),
    decreases ext.len(),
{
    let s = prefix + seq![DOT].add(ext);
    if ext.len() == 0 {
        assert(s.last() == DOT);
    } else {
        assert(s.drop_last() =~= prefix + seq![DOT].add(ext.drop_last()));
        assert(s.last() == ext.last());
        lemma_last_dot_append(prefix, ext.drop_last());
    }
}

} // verus!
