//! Line searching: scan file contents line by line and report each line
//! that contains the query as a literal substring, together with its
//! zero-based line index, in ascending index order.

use vstd::prelude::*;
use vstd::string::StrSliceExecFns;

use crate::text::contains_seq;
use crate::text::contains_str;
use crate::text::spec_lines;
use crate::text::split_lines;

verus! {

/// What `str::to_lowercase` returns for a given character sequence; the
/// result depends on the characters alone.
pub uninterp spec fn lower_of(s: Seq<char>) -> Seq<char>;

/// Relies on `str::to_lowercase` of the standard library: the lowercase
/// equivalent of the string, a function of its characters alone; the
/// empty string stays empty.
#[verifier::external_body]
fn lowercase(s: &str) -> (r: String)
    ensures
        r@ == lower_of(s@),
        s@.len() == 0 ==> r@.len() == 0,
{
    s.to_lowercase()
}

/// Each line of `lines` paired with its index.
pub open spec fn indexed(lines: Seq<Seq<char>>) -> Seq<(int, Seq<char>)> {
    Seq::new(lines.len(), |i: int| (i, lines[i]))
}

/// A line paired with its index passes when it contains `query` literally.
pub open spec fn line_pred(query: Seq<char>) -> spec_fn((int, Seq<char>)) -> bool {
    |p: (int, Seq<char>)| contains_seq(p.1, query)
}

/// A line paired with its index passes when its lowercase form contains
/// the lowercase form of `query`.
pub open spec fn line_pred_ci(query: Seq<char>) -> spec_fn((int, Seq<char>)) -> bool {
    |p: (int, Seq<char>)| contains_seq(lower_of(p.1), lower_of(query))
}

/// The indexed lines of `contents` that contain `query`, in order.
pub open spec fn search_spec(query: Seq<char>, contents: Seq<char>) -> Seq<(int, Seq<char>)> {
    indexed(spec_lines(contents)).filter(line_pred(query))
}

/// The indexed lines of `contents` whose lowercase form contains the
/// lowercase form of `query`, in order.
pub open spec fn search_ci_spec(query: Seq<char>, contents: Seq<char>) -> Seq<(int, Seq<char>)> {
    indexed(spec_lines(contents)).filter(line_pred_ci(query))
}

/// The views of a sequence of index/line pairs.
pub open spec fn pair_views(r: Seq<(usize, &str)>) -> Seq<(int, Seq<char>)> {
    r.map_values(|p: (usize, &str)| (p.0 as int, p.1@))
}

/// Case-sensitive line search: exactly the lines of `contents` that
/// contain `query` as a literal substring, each with its zero-based
/// index, in ascending index order. The empty query matches every line.
pub fn search<'a>(query: &'a str, contents: &'a str) -> (r: Vec<(usize, &'a str)>)
    ensures
        pair_views(r@) == search_spec(query@, contents@),
{
    let lines = split_lines(contents);
    let ghost lns = spec_lines(contents@);
    let mut results: Vec<(usize, &'a str)> = Vec::new();
    let mut i: usize = 0;
    proof {
        assert(pair_views(results@) =~= indexed(lns).take(0).filter(line_pred(query@)));
    }
    while i < lines.len()
        invariant
            i <= lines@.len(),
            lines@.map_values(|line: &str| line@) == lns,
            lns == spec_lines(contents@),
            pair_views(results@) == indexed(lns).take(i as int).filter(line_pred(query@)),
        decreases lines@.len() - i,
    {
        let line = lines[i];
        let found = contains_str(line, query);
        proof {
            lemma_filter_take_step(lns, line_pred(query@), i as int);
            assert(line@ == lns[i as int]);
            assert(line_pred(query@)((i as int, lns[i as int])) == found);
            if found {
                assert(pair_views(results@.push((i, line))) =~= pair_views(results@).push(
                    (i as int, lns[i as int]),
                ));
            }
        }
        if found {
            results.push((i, line));
        }
        i += 1;
    }
    proof {
        assert(indexed(lns).take(lns.len() as int) =~= indexed(lns));
    }
    results
}

/// Case-insensitive line search: exactly the lines of `contents` whose
/// lowercase form contains the lowercase form of `query`, each with its
/// zero-based index and its original (non-lowercased) text, in ascending
/// index order. The empty query matches every line.
pub fn search_case_insensitive<'a>(query: &'a str, contents: &'a str) -> (r: Vec<
    (usize, &'a str),
>)
    ensures
        pair_views(r@) == search_ci_spec(query@, contents@),
        query@.len() == 0 ==> pair_views(r@) == indexed(spec_lines(contents@)),
{
    let query_lower = lowercase(query);
    let lines = split_lines(contents);
    let ghost lns = spec_lines(contents@);
    let mut results: Vec<(usize, &'a str)> = Vec::new();
    let mut i: usize = 0;
    proof {
        assert(pair_views(results@) =~= indexed(lns).take(0).filter(line_pred_ci(query@)));
    }
    while i < lines.len()
        invariant
            i <= lines@.len(),
            lines@.map_values(|line: &str| line@) == lns,
            lns == spec_lines(contents@),
            query_lower@ == lower_of(query@),
            pair_views(results@) == indexed(lns).take(i as int).filter(line_pred_ci(query@)),
        decreases lines@.len() - i,
    {
        let line = lines[i];
        let line_lower = lowercase(line);
        let found = contains_str(line_lower.as_str(), query_lower.as_str());
        proof {
            lemma_filter_take_step(lns, line_pred_ci(query@), i as int);
            assert(line@ == lns[i as int]);
            assert(line_pred_ci(query@)((i as int, lns[i as int])) == found);
            if found {
                assert(pair_views(results@.push((i, line))) =~= pair_views(results@).push(
                    (i as int, lns[i as int]),
                ));
            }
        }
        if found {
            results.push((i, line));
        }
        i += 1;
    }
    proof {
        assert(indexed(lns).take(lns.len() as int) =~= indexed(lns));
        if query@.len() == 0 {
            assert(lower_of(query@).len() == 0);
            assert forall|k: int| 0 <= k < indexed(lns).len() implies line_pred_ci(query@)(
                #[trigger] indexed(lns)[k],
            ) by {
                let folded_query = lower_of(query@);
                assert(lower_of(lns[k]).subrange(0, 0 + folded_query.len() as int)
                    =~= folded_query);
                assert(contains_seq(lower_of(lns[k]), folded_query));
            }
            lemma_filter_keeps_all(indexed(lns), line_pred_ci(query@));
        }
    }
    results
}

/// Filtering keeps a sequence whole when every element passes.
proof fn lemma_filter_keeps_all(s: Seq<(int, Seq<char>)>, pred: spec_fn((int, Seq<char>)) -> bool)
    requires
        forall|k: int| 0 <= k < s.len() ==> pred(#[trigger] s[k]),
    ensures
        s.filter(pred) == s,
    decreases s.len(),
{
    reveal(Seq::filter);
    if s.len() > 0 {
        assert(forall|k: int| 0 <= k < s.drop_last().len() ==> #[trigger] s.drop_last()[k]
            == s[k]);
        lemma_filter_keeps_all(s.drop_last(), pred);
        assert(s.drop_last().push(s.last()) =~= s);
    }
}

/// The empty query matches every line: searching for it returns all
/// lines of `contents`, each with its original index, in order.
pub proof fn lemma_empty_query_matches_all(contents: Seq<char>)
    ensures
        search_spec(Seq::empty(), contents) == indexed(spec_lines(contents)),
{
    let lns = spec_lines(contents);
    assert(forall|k: int| 0 <= k < indexed(lns).len() ==> line_pred(Seq::empty())(
        #[trigger] indexed(lns)[k],
    )) by {
        assert forall|k: int| 0 <= k < indexed(lns).len() implies line_pred(Seq::empty())(
            indexed(lns)[k],
        ) by {
            let line = lns[k];
            let empty = Seq::<char>::empty();
            assert(line.subrange(0, 0 + empty.len() as int) =~= empty);
            assert(contains_seq(line, empty));
        }
    }
    lemma_filter_keeps_all(indexed(lns), line_pred(Seq::empty()));
}

/// Searching is deterministic: any two case-sensitive results for the
/// same query and contents carry the same indices and the same line
/// text, so running the search twice yields identical output.
pub proof fn lemma_search_deterministic(
    r1: Seq<(usize, &str)>,
    r2: Seq<(usize, &str)>,
    query: Seq<char>,
    contents: Seq<char>,
)
    requires
        pair_views(r1) == search_spec(query, contents),
        pair_views(r2) == search_spec(query, contents),
    ensures
        pair_views(r1) == pair_views(r2),
{
}

/// Case-insensitive searching is deterministic in the same way: the
/// result is a function of the query and the contents alone.
pub proof fn lemma_search_ci_deterministic(
    r1: Seq<(usize, &str)>,
    r2: Seq<(usize, &str)>,
    query: Seq<char>,
    contents: Seq<char>,
)
    requires
        pair_views(r1) == search_ci_spec(query, contents),
        pair_views(r2) == search_ci_spec(query, contents),
    ensures
        pair_views(r1) == pair_views(r2),
{
}

/// Filtering one more indexed line extends the filtered prefix by that
/// line exactly when it passes the predicate.
proof fn lemma_filter_take_step(
    lns: Seq<Seq<char>>,
    pred: spec_fn((int, Seq<char>)) -> bool,
    i: int,
)
    requires
        0 <= i < lns.len(),
    ensures
        indexed(lns).take(i + 1).filter(pred) == if pred((i, lns[i])) {
            indexed(lns).take(i).filter(pred).push((i, lns[i]))
        } else {
            indexed(lns).take(i).filter(pred)
        },
{
    reveal(Seq::filter);
    let cur = indexed(lns).take(i + 1);
    assert(cur.last() == (i, lns[i]));
    assert(cur.drop_last() =~= indexed(lns).take(i));
}

} // verus!
