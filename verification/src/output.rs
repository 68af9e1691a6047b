//! Result rendering: each matching line becomes one output row of the
//! form `row[<index>]:<line>`.

use vstd::prelude::*;
use vstd::string::StringExecFns;

use crate::params::Params;
use crate::search::pair_views;
use crate::search::search_ci_spec;
use crate::search::search_spec;
use crate::search::search;
use crate::search::search_case_insensitive;

verus! {

/// The character for a single decimal digit.
pub open spec fn digit_char(d: nat) -> char {
    if d == 0 {
        '0'
    } else if d == 1 {
        '1'
    } else if d == 2 {
        '2'
    } else if d == 3 {
        '3'
    } else if d == 4 {
        '4'
    } else if d == 5 {
        '5'
    } else if d == 6 {
        '6'
    } else if d == 7 {
        '7'
    } else if d == 8 {
        '8'
    } else {
        '9'
    }
}

/// The decimal representation of `n`, most significant digit first, with
/// no leading zero except for `n == 0` itself.
pub open spec fn dec_rep(n: nat) -> Seq<char>
    decreases n,
{
    if n < 10 {
        seq![digit_char(n)]
    } else {
        dec_rep(n / 10).push(digit_char(n % 10))
    }
}

/// One output row: `row[<index>]:<line>`.
pub open spec fn row_text(index: nat, line: Seq<char>) -> Seq<char> {
    seq!['r', 'o', 'w', '['] + dec_rep(index) + seq![']', ':'] + line
}

/// Rendering of one index/line pair as an output row.
pub open spec fn row_of() -> spec_fn((int, Seq<char>)) -> Seq<char> {
    |p: (int, Seq<char>)| row_text(p.0 as nat, p.1)
}

/// The rendered rows for every matching line of `contents`, in order,
/// case-insensitively when `ignore_case` is set.
pub open spec fn rows_spec(ignore_case: bool, query: Seq<char>, contents: Seq<char>) -> Seq<
    Seq<char>,
> {
    let matches = if ignore_case {
        search_ci_spec(query, contents)
    } else {
        search_spec(query, contents)
    };
    matches.map_values(row_of())
}

/// The views of a sequence of owned strings.
pub open spec fn row_views(rows: Seq<String>) -> Seq<Seq<char>> {
    rows.map_values(|row: String| row@)
}

/// The one-character string for a single decimal digit.
fn digit_str(d: usize) -> (r: &'static str)
    requires
        d < 10,
    ensures
        r@ == seq![digit_char(d as nat)],
{
    proof {
        reveal_strlit("0");
        reveal_strlit("1");
        reveal_strlit("2");
        reveal_strlit("3");
        reveal_strlit("4");
        reveal_strlit("5");
        reveal_strlit("6");
        reveal_strlit("7");
        reveal_strlit("8");
        reveal_strlit("9");
    }
    let r = if d == 0 {
        "0"
    } else if d == 1 {
        "1"
    } else if d == 2 {
        "2"
    } else if d == 3 {
        "3"
    } else if d == 4 {
        "4"
    } else if d == 5 {
        "5"
    } else if d == 6 {
        "6"
    } else if d == 7 {
        "7"
    } else if d == 8 {
        "8"
    } else {
        "9"
    };
    proof {
        assert(r@ =~= seq![digit_char(d as nat)]);
    }
    r
}

/// Append the decimal representation of `n` to `out`.
fn push_decimal(n: usize, out: &mut String)
    ensures
        final(out)@ == old(out)@ + dec_rep(n as nat),
    decreases n,
{
    if n < 10 {
        out.append(digit_str(n));
        proof {
            assert(old(out)@ + seq![digit_char(n as nat)] =~= final(out)@);
        }
    } else {
        proof {
            assert(n / 10 < n) by (nonlinear_arith)
                requires
                    n >= 10,
            ;
        }
        push_decimal(n / 10, out);
        out.append(digit_str(n % 10));
        proof {
            assert(old(out)@ + dec_rep(n as nat) =~= final(out)@);
        }
    }
}

/// Render one result pair as the row `row[<index>]:<line>`.
pub fn render_row(index: usize, line: &str) -> (r: String)
    ensures
        r@ == row_text(index as nat, line@),
{
    let mut out = String::from_str("row[");
    proof {
        reveal_strlit("row[");
        assert(out@ =~= seq!['r', 'o', 'w', '[']);
    }
    push_decimal(index, &mut out);
    out.append("]:");
    out.append(line);
    proof {
        reveal_strlit("]:");
        assert("]:"@ =~= seq![']', ':']);
        assert(out@ =~= row_text(index as nat, line@));
    }
    out
}

/// The rendered rows for a configured search over `contents`: the result
/// of the variant that `params.ignore_case` selects, one row per
/// matching line, in the order the search returns them.
pub fn matching_rows(params: &Params, contents: &str) -> (r: Vec<String>)
    ensures
        row_views(r@) == rows_spec(params.ignore_case, params.query@, contents@),
{
    let results = if params.ignore_case {
        search_case_insensitive(params.query.as_str(), contents)
    } else {
        search(params.query.as_str(), contents)
    };
    let ghost matches = pair_views(results@);
    let mut rows: Vec<String> = Vec::new();
    let mut i: usize = 0;
    proof {
        assert(row_views(rows@) =~= matches.take(0).map_values(row_of()));
    }
    while i < results.len()
        invariant
            i <= results@.len(),
            matches == pair_views(results@),
            matches == if params.ignore_case {
                search_ci_spec(params.query@, contents@)
            } else {
                search_spec(params.query@, contents@)
            },
            row_views(rows@) == matches.take(i as int).map_values(row_of()),
        decreases results@.len() - i,
    {
        let (index, line) = results[i];
        let row = render_row(index, line);
        proof {
            assert(matches[i as int] == (index as int, line@));
            assert(row_of()((index as int, line@)) == row@);
            let prev = matches.take(i as int).map_values(row_of());
            let next = matches.take(i + 1).map_values(row_of());
            assert(rows@.len() == i) by {
                assert(row_views(rows@).len() == prev.len());
            }
            assert forall|k: int| 0 <= k < next.len() implies row_views(rows@.push(row))[k]
                == next[k] by {
                assert(next[k] == row_of()(matches.take(i + 1)[k]));
                if k < i {
                    assert(row_views(rows@)[k] == prev[k]);
                    assert(rows@.push(row)[k] == rows@[k]);
                    assert(matches.take(i + 1)[k] == matches.take(i as int)[k]);
                } else {
                    assert(rows@.push(row)[k] == row);
                    assert(matches.take(i + 1)[k] == matches[i as int]);
                }
            }
            assert(row_views(rows@.push(row)) =~= next);
        }
        rows.push(row);
        i += 1;
    }
    proof {
        assert(matches.take(matches.len() as int) =~= matches);
    }
    rows
}

} // verus!
