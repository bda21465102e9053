//! Text as the analysis scripts write it: Unicode white space, trimming, the
//! lines of a text, and UTF-8 well-formedness of byte strings.
use vstd::prelude::*;
use vstd::utf8::valid_utf8;

use crate::path::copy_range;

verus! {

/// Unicode `White_Space`, the characters that `char::is_whitespace` accepts.
pub open spec fn is_whitespace_spec(c: char) -> bool {
    let u = c as u32;
    ||| 0x09 <= u <= 0x0d
    ||| u == 0x20
    ||| u == 0x85
    ||| u == 0xa0
    ||| u == 0x1680
    ||| 0x2000 <= u <= 0x200a
    ||| u == 0x2028
    ||| u == 0x2029
    ||| u == 0x202f
    ||| u == 0x205f
    ||| u == 0x3000
}

/// The text without its trailing white space.
pub open spec fn trim_end_spec(s: Seq<char>) -> Seq<char>
    decreases s.len(),
{
    if s.len() > 0 && is_whitespace_spec(s.last()) {
        trim_end_spec(s.drop_last())
    } else {
        s
    }
}

/// The text without its leading white space.
pub open spec fn trim_start_spec(s: Seq<char>) -> Seq<char>
    decreases s.len(),
{
    if s.len() > 0 && is_whitespace_spec(s[0]) {
        trim_start_spec(s.drop_first())
    } else {
        s
    }
}

/// The text without white space at either end.
pub open spec fn trim_spec(s: Seq<char>) -> Seq<char> {
    trim_start_spec(trim_end_spec(s))
}

/// The index of the first line feed, or the length when there is none.
pub open spec fn first_newline(s: Seq<char>) -> int
    decreases s.len(),
{
    if s.len() == 0 {
        0
    } else if s[0] == '\n' {
        0
    } else {
        1 + first_newline(s.drop_first())
    }
}

/// A line without the carriage return that ended it.
pub open spec fn strip_cr(l: Seq<char>) -> Seq<char> {
    if l.len() > 0 && l.last() == '\r' {
        l.drop_last()
    } else {
        l
    }
}

/// The lines of a text, as `str::lines` gives them: split at each line feed,
/// a carriage return right before a line feed dropped, and no empty line after
/// a final line feed.
pub open spec fn lines_spec(s: Seq<char>) -> Seq<Seq<char>>
    decreases s.len(),
{
    if s.len() == 0 {
        seq![]
    } else {
        let i = first_newline(s);
        if i < s.len() {
            proof {
                lemma_first_newline(s);
            }
            seq![strip_cr(s.subrange(0, i))] + lines_spec(s.subrange(i + 1, s.len() as int))
        } else {
            seq![s]
        }
    }
}

/// Line `n` of a quality metric file, trimmed, where the file's text is taken
/// without its trailing white space; none when the text has no such line.
pub open spec fn metric_line_spec(s: Seq<char>, n: int) -> Option<Seq<char>> {
    let ls = lines_spec(trim_end_spec(s));
    if 0 <= n < ls.len() {
        Some(trim_spec(ls[n]))
    } else {
        None
    }
}

/// The character strings of a sequence of vectors.
pub open spec fn char_views(s: Seq<Vec<char>>) -> Seq<Seq<char>> {
    s.map_values(|v: Vec<char>| v@)
}

pub proof fn lemma_first_newline(s: Seq<char>)
    ensures
        0 <= first_newline(s) <= s.len(),
        first_newline(s) < s.len() ==> s[first_newline(s)] == '\n',
        forall|k: int| 0 <= k < first_newline(s) ==> s[k] != '\n',
    decreases s.len(),
{
    if s.len() > 0 && s[0] != '\n' {
        let t = s.drop_first();
        lemma_first_newline(t);
        assert forall|k: int| 0 <= k < first_newline(s) implies s[k] != '\n' by {
            if k > 0 {
                assert(t[k - 1] == s[k]);
            }
        }
    }
}

/// A position with no line feed before it and a line feed or the end at it is
/// the first line feed.
proof fn lemma_first_newline_at(s: Seq<char>, q: int)
    requires
        0 <= q <= s.len(),
        forall|k: int| 0 <= k < q ==> s[k] != '\n',
        q == s.len() || s[q] == '\n',
    ensures
        first_newline(s) == q,
    decreases q,
{
    if q > 0 {
        let t = s.drop_first();
        lemma_first_newline_at(t, q - 1);
    }
}

pub proof fn lemma_trim_end_shape(s: Seq<char>)
    ensures
        trim_end_spec(s).len() <= s.len(),
        trim_end_spec(s) == s.subrange(0, trim_end_spec(s).len() as int),
        trim_end_spec(s).len() > 0 ==> !is_whitespace_spec(trim_end_spec(s).last()),
        forall|k: int| trim_end_spec(s).len() <= k < s.len() ==> is_whitespace_spec(#[trigger] s[k]),
    decreases s.len(),
{
    if s.len() > 0 && is_whitespace_spec(s.last()) {
        let t = s.drop_last();
        lemma_trim_end_shape(t);
        assert(t.subrange(0, trim_end_spec(t).len() as int) =~= s.subrange(
            0,
            trim_end_spec(t).len() as int,
        ));
        assert forall|k: int| trim_end_spec(s).len() <= k < s.len() implies is_whitespace_spec(
            #[trigger] s[k],
        ) by {
            if k < s.len() - 1 {
                assert(t[k] == s[k]);
            }
        }
    } else {
        assert(s.subrange(0, s.len() as int) =~= s);
    }
}

pub proof fn lemma_trim_start_shape(s: Seq<char>)
    ensures
        trim_start_spec(s).len() <= s.len(),
        trim_start_spec(s) == s.subrange(s.len() - trim_start_spec(s).len(), s.len() as int),
        trim_start_spec(s).len() > 0 ==> !is_whitespace_spec(trim_start_spec(s)[0]),
        forall|k: int| 0 <= k < s.len() - trim_start_spec(s).len() ==> is_whitespace_spec(#[trigger] s[k]),
    decreases s.len(),
{
    if s.len() > 0 && is_whitespace_spec(s[0]) {
        let t = s.drop_first();
        lemma_trim_start_shape(t);
        assert(t.subrange(t.len() - trim_start_spec(t).len(), t.len() as int) =~= s.subrange(
            s.len() - trim_start_spec(t).len(),
            s.len() as int,
        ));
        assert forall|k: int| 0 <= k < s.len() - trim_start_spec(s).len() implies is_whitespace_spec(
            #[trigger] s[k],
        ) by {
            if k > 0 {
                assert(t[k - 1] == s[k]);
            }
        }
    } else {
        assert(s.subrange(0, s.len() as int) =~= s);
    }
}

/// Whether the character is Unicode white space, as `char::is_whitespace`.
pub fn is_whitespace(c: char) -> (r: bool)
    ensures
        r == is_whitespace_spec(c),
{
    let u = c as u32;
    (0x09 <= u && u <= 0x0d) || u == 0x20 || u == 0x85 || u == 0xa0 || u == 0x1680 || (0x2000 <= u
        && u <= 0x200a) || u == 0x2028 || u == 0x2029 || u == 0x202f || u == 0x205f || u == 0x3000
}

/// The text without its trailing white space, as `str::trim_end`.
pub fn trim_end(s: &[char]) -> (r: Vec<char>)
    ensures
        r@ == trim_end_spec(s@),
{
    let mut end: usize = s.len();
    assert(s@.subrange(0, end as int) =~= s@);
    while end > 0 && is_whitespace(s[end - 1])
        invariant
            end <= s@.len(),
            trim_end_spec(s@) == trim_end_spec(s@.subrange(0, end as int)),
        decreases end,
    {
        assert(s@.subrange(0, end as int).drop_last() =~= s@.subrange(0, end - 1));
        end = end - 1;
    }
    copy_range(s, 0, end)
}

/// The text without white space at either end, as `str::trim`.
pub fn trim(s: &[char]) -> (r: Vec<char>)
    ensures
        r@ == trim_spec(s@),
{
    let t = trim_end(s);
    let mut start: usize = 0;
    let n = t.len();
    assert(t@.subrange(0, n as int) =~= t@);
    while start < n && is_whitespace(t[start])
        invariant
            n == t@.len(),
            start <= n,
            trim_start_spec(t@) == trim_start_spec(t@.subrange(start as int, n as int)),
        decreases n - start,
    {
        assert(t@.subrange(start as int, n as int).drop_first() =~= t@.subrange(start + 1, n as int));
        start = start + 1;
    }
    copy_range(t.as_slice(), start, n)
}

/// The lines of a text, as `str::lines` gives them.
pub fn split_lines(s: &[char]) -> (r: Vec<Vec<char>>)
    ensures
        char_views(r@) == lines_spec(s@),
{
    let n = s.len();
    let mut out: Vec<Vec<char>> = Vec::new();
    let mut start: usize = 0;
    assert(s@.subrange(0, n as int) =~= s@);
    while start < n
        invariant
            n == s@.len(),
            start <= n,
            char_views(out@) + lines_spec(s@.subrange(start as int, n as int)) == lines_spec(s@),
        decreases n - start,
    {
        let ghost rest = s@.subrange(start as int, n as int);
        let mut j: usize = start;
        while j < n && s[j] != '\n'
            invariant
                start <= j <= n,
                n == s@.len(),
                forall|k: int| start <= k < j ==> s@[k] != '\n',
            decreases n - j,
        {
            j = j + 1;
        }
        proof {
            lemma_first_newline_at(rest, j - start);
        }
        let ghost before = char_views(out@);
        if j < n {
            let mut line = copy_range(s, start, j);
            if j > start && s[j - 1] == '\r' {
                line.pop();
            }
            proof {
                assert(rest.subrange(0, j - start) =~= s@.subrange(start as int, j as int));
                assert(line@ =~= strip_cr(rest.subrange(0, j - start)));
                assert(rest.subrange(j - start + 1, rest.len() as int) =~= s@.subrange(
                    j + 1,
                    n as int,
                ));
            }
            out.push(line);
            proof {
                assert(char_views(out@) =~= before.push(line@));
                assert(before.push(line@) + lines_spec(s@.subrange(j + 1, n as int)) =~= before + (
                seq![line@] + lines_spec(s@.subrange(j + 1, n as int))));
            }
            start = j + 1;
        } else {
            let line = copy_range(s, start, n);
            out.push(line);
            proof {
                assert(char_views(out@) =~= before.push(line@));
                assert(s@.subrange(n as int, n as int) =~= Seq::<char>::empty());
                assert(lines_spec(Seq::<char>::empty()) =~= Seq::<Seq<char>>::empty());
                assert(char_views(out@) + lines_spec(s@.subrange(n as int, n as int)) =~= before + seq![
                    rest,
                ]);
            }
            start = n;
        }
    }
    proof {
        assert(s@.subrange(n as int, n as int) =~= Seq::<char>::empty());
        assert(char_views(out@) + Seq::<Seq<char>>::empty() =~= char_views(out@));
    }
    out
}

/// Line `line_num` of the text of a quality metric file: the text is taken
/// without its trailing white space, and the line is trimmed.
pub fn metric_line(contents: &[char], line_num: usize) -> (r: Option<Vec<char>>)
    ensures
        match r {
            Some(l) => metric_line_spec(contents@, line_num as int) == Some(l@),
            None => metric_line_spec(contents@, line_num as int) is None,
        },
{
    let t = trim_end(contents);
    let ls = split_lines(t.as_slice());
    if line_num < ls.len() {
        assert(char_views(ls@)[line_num as int] == ls@[line_num as int]@);
        Some(trim(ls[line_num].as_slice()))
    } else {
        None
    }
}

/// Whether two character strings are equal.
pub fn chars_eq(a: &[char], b: &[char]) -> (r: bool)
    ensures
        r == (a@ == b@),
{
    if a.len() != b.len() {
        return false;
    }
    let n = a.len();
    let mut i: usize = 0;
    while i < n
        invariant
            n == a@.len(),
            n == b@.len(),
            i <= n,
            forall|k: int| 0 <= k < i ==> a@[k] == b@[k],
        decreases n - i,
    {
        if a[i] != b[i] {
            return false;
        }
        i = i + 1;
    }
    assert(a@ =~= b@);
    true
}

/// Whether the bytes are well-formed UTF-8.
///
/// Trusted: calls `std::str::from_utf8`, whose documentation says it accepts
/// exactly the well-formed UTF-8 byte strings; the contract states that by
/// vstd's definition of well-formed UTF-8 (no overlong forms, no surrogates,
/// nothing above U+10FFFF).
#[verifier::external_body]
pub(crate) fn is_utf8(bytes: &[u8]) -> (r: bool)
    ensures
        r == valid_utf8(bytes@),
{
    std::str::from_utf8(bytes).is_ok()
}

/// The lines of a metric file's text carry no white space at their ends and
/// no line feed.
pub proof fn lemma_metric_line_trimmed(s: Seq<char>, n: int)
    requires
        metric_line_spec(s, n) is Some,
    ensures
        ({
            let l = metric_line_spec(s, n)->0;
            &&& l.len() > 0 ==> !is_whitespace_spec(l[0]) && !is_whitespace_spec(l.last())
            &&& forall|k: int| 0 <= k < l.len() ==> #[trigger] l[k] != '\n'
        }),
{
    let ls = lines_spec(trim_end_spec(s));
    let line = ls[n];
    lemma_lines_have_no_newline(trim_end_spec(s));
    let e = trim_end_spec(line);
    lemma_trim_end_shape(line);
    lemma_trim_start_shape(e);
    let l = trim_start_spec(e);
    assert forall|k: int| 0 <= k < l.len() implies #[trigger] l[k] != '\n' by {
        assert(l[k] == e[e.len() - l.len() + k]);
        assert(e[e.len() - l.len() + k] == line[e.len() - l.len() + k]);
        assert(ls[n][e.len() - l.len() + k] != '\n');
    }
    if l.len() > 0 {
        assert(l.last() == e.last());
    }
}

/// No line of a text holds a line feed.
pub proof fn lemma_lines_have_no_newline(s: Seq<char>)
    ensures
        forall|i: int, k: int|
            0 <= i < lines_spec(s).len() && 0 <= k < lines_spec(s)[i].len() ==> #[trigger] lines_spec(
                s,
            )[i][k] != '\n',
    decreases s.len(),
{
    if s.len() > 0 {
        let j = first_newline(s);
        lemma_first_newline(s);
        if j < s.len() {
            let rest = s.subrange(j + 1, s.len() as int);
            lemma_lines_have_no_newline(rest);
            let head = strip_cr(s.subrange(0, j));
            assert forall|i: int, k: int|
                0 <= i < lines_spec(s).len() && 0 <= k < lines_spec(s)[i].len() implies #[trigger] lines_spec(
                s,
            )[i][k] != '\n' by {
                if i == 0 {
                    assert(lines_spec(s)[0] == head);
                    assert(head[k] == s[k]);
                } else {
                    assert(lines_spec(s)[i] == lines_spec(rest)[i - 1]);
                }
            }
        }
    }
}

} // verus!
