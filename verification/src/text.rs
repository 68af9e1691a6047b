//! Verified string primitives: character-exact equality and literal
//! substring containment over `Seq<char>` views.

use vstd::prelude::*;
use vstd::string::StrSliceExecFns;

verus! {

/// `needle` occurs as a contiguous subsequence of `hay`.
pub open spec fn contains_seq(hay: Seq<char>, needle: Seq<char>) -> bool {
    exists|i: int|
        0 <= i && i + needle.len() <= hay.len() && #[trigger] hay.subrange(
            i,
            i + needle.len() as int,
        ) == needle
}

/// Character-exact string equality.
pub fn str_eq(a: &str, b: &str) -> (r: bool)
    ensures
        r == (a@ == b@),
{
    let a_len = a.unicode_len();
    let b_len = b.unicode_len();
    if a_len != b_len {
        return false;
    }
    let mut i: usize = 0;
    while i < a_len
        invariant
            i <= a_len,
            a_len == a@.len(),
            a_len == b@.len(),
            forall|j: int| 0 <= j < i ==> a@[j] == b@[j],
        decreases a_len - i,
    {
        if a.get_char(i) != b.get_char(i) {
            return false;
        }
        i += 1;
    }
    proof {
        assert(a@ =~= b@);
    }
    true
}

/// `needle` occurs in `hay` starting at character position `offset`.
fn match_at(hay: &str, needle: &str, offset: usize) -> (r: bool)
    requires
        offset + needle@.len() <= hay@.len(),
    ensures
        r == (hay@.subrange(offset as int, offset + needle@.len()) == needle@),
{
    let h_len = hay.unicode_len();
    let n_len = needle.unicode_len();
    let mut j: usize = 0;
    while j < n_len
        invariant
            j <= n_len,
            n_len == needle@.len(),
            h_len == hay@.len(),
            offset + n_len <= h_len,
            forall|k: int| 0 <= k < j ==> hay@[offset + k] == needle@[k],
        decreases n_len - j,
    {
        if hay.get_char(offset + j) != needle.get_char(j) {
            proof {
                assert(hay@.subrange(offset as int, offset + n_len as int)[j as int] == hay@[
                    offset + j
                ]);
            }
            return false;
        }
        j += 1;
    }
    proof {
        assert(hay@.subrange(offset as int, offset + n_len as int) =~= needle@);
    }
    true
}

/// Literal substring containment test: `needle` occurs somewhere in `hay`.
/// The empty needle is contained in every string.
pub fn contains_str(hay: &str, needle: &str) -> (r: bool)
    ensures
        r == contains_seq(hay@, needle@),
{
    let h_len = hay.unicode_len();
    let n_len = needle.unicode_len();
    if n_len > h_len {
        return false;
    }
    let limit = h_len - n_len;
    let mut i: usize = 0;
    while i < limit
        invariant
            n_len <= h_len,
            h_len == hay@.len(),
            n_len == needle@.len(),
            limit == h_len - n_len,
            i <= limit,
            forall|k: int|
                0 <= k < i ==> #[trigger] hay@.subrange(k, k + needle@.len()) != needle@,
        decreases limit - i,
    {
        if match_at(hay, needle, i) {
            return true;
        }
        i += 1;
    }
    if match_at(hay, needle, limit) {
        return true;
    }
    proof {
        assert(forall|k: int|
            0 <= k && k + needle@.len() <= hay@.len() ==> #[trigger] hay@.subrange(
                k,
                k + needle@.len(),
            ) != needle@);
    }
    false
}

/// `line` with one trailing carriage return removed, if it has one.
pub open spec fn strip_cr(line: Seq<char>) -> Seq<char> {
    if line.len() > 0 && line.last() == '\r' {
        line.drop_last()
    } else {
        line
    }
}

/// The lines of `cur + rest`, where `cur` is a partial line already read
/// and `rest` is the input still to come. A line ends at `'\n'` (a `'\r'`
/// directly before the `'\n'` is removed); the final line needs no
/// terminator, and a terminator on the last line adds no empty line.
pub open spec fn lines_from(cur: Seq<char>, rest: Seq<char>) -> Seq<Seq<char>>
    decreases rest.len(),
{
    if rest.len() == 0 {
        if cur.len() == 0 {
            Seq::empty()
        } else {
            seq![cur]
        }
    } else if rest[0] == '\n' {
        seq![strip_cr(cur)] + lines_from(Seq::empty(), rest.skip(1))
    } else {
        lines_from(cur.push(rest[0]), rest.skip(1))
    }
}

/// The lines of `s`, split at line boundaries (`'\n'` or `"\r\n"`),
/// boundaries removed, with no empty artifact after a trailing boundary.
pub open spec fn spec_lines(s: Seq<char>) -> Seq<Seq<char>> {
    lines_from(Seq::empty(), s)
}

/// The views of a sequence of string slices.
pub open spec fn line_views(lines: Seq<&str>) -> Seq<Seq<char>> {
    lines.map_values(|line: &str| line@)
}

/// Split `contents` into its lines, in order.
pub fn split_lines<'a>(contents: &'a str) -> (r: Vec<&'a str>)
    ensures
        line_views(r@) == spec_lines(contents@),
{
    let n = contents.unicode_len();
    let mut lines: Vec<&'a str> = Vec::new();
    let mut start: usize = 0;
    let mut i: usize = 0;
    proof {
        assert(contents@.subrange(0, 0) =~= Seq::<char>::empty());
        assert(contents@.skip(0) =~= contents@);
        assert(line_views(lines@) + lines_from(Seq::empty(), contents@) =~= spec_lines(
            contents@,
        ));
    }
    while i < n
        invariant
            start <= i <= n,
            n == contents@.len(),
            spec_lines(contents@) == line_views(lines@) + lines_from(
                contents@.subrange(start as int, i as int),
                contents@.skip(i as int),
            ),
        decreases n - i,
    {
        let ghost cur = contents@.subrange(start as int, i as int);
        let ghost rest = contents@.skip(i as int);
        proof {
            assert(rest[0] == contents@[i as int]);
        }
        let c = contents.get_char(i);
        if c == '\n' {
            let mut end = i;
            if end > start && contents.get_char(end - 1) == '\r' {
                end = end - 1;
            }
            let line = contents.substring_char(start, end);
            proof {
                assert(line@ =~= strip_cr(cur)) by {
                    if i > start && contents@[i - 1] == '\r' {
                        assert(cur.last() == contents@[i - 1]);
                        assert(strip_cr(cur) =~= contents@.subrange(
                            start as int,
                            i - 1,
                        ));
                    } else {
                        assert(strip_cr(cur) == cur);
                    }
                }
                assert(line_views(lines@.push(line)) =~= line_views(lines@) + seq![line@]);
                assert(rest.skip(1) =~= contents@.skip(i + 1));
                assert(contents@.subrange(i + 1, i + 1) =~= Seq::<char>::empty());
            }
            lines.push(line);
            start = i + 1;
        } else {
            proof {
                assert(cur.push(c) =~= contents@.subrange(start as int, i + 1));
                assert(rest.skip(1) =~= contents@.skip(i + 1));
            }
        }
        i += 1;
    }
    if start < n {
        let line = contents.substring_char(start, n);
        proof {
            assert(contents@.skip(n as int) =~= Seq::<char>::empty());
            assert(line@ == contents@.subrange(start as int, n as int));
            assert(line_views(lines@.push(line)) =~= line_views(lines@) + seq![line@]);
        }
        lines.push(line);
    } else {
        proof {
            assert(contents@.subrange(start as int, n as int).len() == 0);
            assert(contents@.skip(n as int) =~= Seq::<char>::empty());
        }
    }
    proof {
        assert(line_views(lines@) =~= spec_lines(contents@));
    }
    lines
}

} // verus!
