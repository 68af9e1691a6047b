//! Command-line parameter parsing: raw invocation tokens become a
//! validated search configuration, or an error when a required value is
//! missing.

use vstd::prelude::*;
use vstd::string::StringExecFns;

use crate::text::str_eq;

verus! {

/// The prefix that introduces a query value.
pub open spec fn query_prefix() -> Seq<char> {
    seq!['-', 'q', '=']
}

/// The prefix that introduces a file-path value.
pub open spec fn path_prefix() -> Seq<char> {
    seq!['-', 'f', '=']
}

/// The token that switches matching to case-insensitive.
pub open spec fn flag_token() -> Seq<char> {
    seq!['-', 'i']
}

/// `s` begins with `prefix`.
pub open spec fn starts_with(s: Seq<char>, prefix: Seq<char>) -> bool {
    prefix.len() <= s.len() && s.subrange(0, prefix.len() as int) == prefix
}

/// The value carried by the last token of `args` that begins with
/// `prefix`, or the empty sequence when no token does. Later tokens win.
pub open spec fn last_value(args: Seq<String>, prefix: Seq<char>) -> Seq<char>
    decreases args.len(),
{
    if args.len() == 0 {
        Seq::empty()
    } else if starts_with(args.last()@, prefix) {
        args.last()@.skip(prefix.len() as int)
    } else {
        last_value(args.drop_last(), prefix)
    }
}

/// Some token of `args` is exactly `-i`.
pub open spec fn has_flag(args: Seq<String>) -> bool {
    exists|i: int| 0 <= i < args.len() && #[trigger] args[i]@ == flag_token()
}

/// Both required values are present and non-empty after parsing `args`.
pub open spec fn parse_ok(args: Seq<String>) -> bool {
    last_value(args, query_prefix()).len() > 0 && last_value(args, path_prefix()).len() > 0
}

/// Relies on `regex::Regex::new`, `regex::escape` and
/// `regex::Regex::captures`: the pattern `(?s)^<prefix, escaped>(.*)`
/// matches exactly the strings that begin with `prefix`, and its capture
/// group holds everything after the prefix. `Regex::new` fails on a
/// valid pattern only when the compiled program exceeds its size limit,
/// so the prefix is kept short to rule that out.
#[verifier::external_body]
fn capture_after_prefix(prefix: &str, arg: &str) -> (r: Option<String>)
    requires
        prefix@.len() <= 8,
    ensures
        r matches Some(value) ==> starts_with(arg@, prefix@) && value@ == arg@.skip(
            prefix@.len() as int,
        ),
        r is None ==> !starts_with(arg@, prefix@),
{
    let pattern = format!("(?s)^{}(.*)", regex::escape(prefix));
    let re = regex::Regex::new(&pattern).unwrap();
    match re.captures(arg) {
        Some(caps) => Some(caps.get(1).unwrap().as_str().to_string()),
        None => None,
    }
}

/// A validated search configuration: what to look for, where, and how.
/// `build` only constructs it with a non-empty query and file path.
#[derive(Debug, PartialEq)]
pub struct Params {
    pub query: String,
    pub file_path: String,
    pub ignore_case: bool,
}

impl Params {
    /// Parse the full list of invocation tokens, the program name first.
    /// `-q=<value>` sets the query, `-f=<value>` the file path (later
    /// tokens overwrite earlier ones), `-i` turns on case-insensitive
    /// matching; other tokens are ignored. Fails exactly when the query
    /// or the file path ends up empty.
    pub fn build(args: &Vec<String>) -> (r: Result<Params, &'static str>)
        requires
            args@.len() >= 1,
        ensures
            r is Ok <==> parse_ok(args@.skip(1)),
            r matches Ok(p) ==> {
                &&& p.query@ == last_value(args@.skip(1), query_prefix())
                &&& p.file_path@ == last_value(args@.skip(1), path_prefix())
                &&& p.ignore_case == has_flag(args@.skip(1))
            },
            r matches Err(m) ==> m@ == "Not enough valid param"@,
    {
        let mut query: String = String::new();
        let mut file_path: String = String::new();
        let mut ignore_case = false;
        let mut i: usize = 1;
        proof {
            assert(args@.subrange(1, 1) =~= Seq::<String>::empty());
        }
        while i < args.len()
            invariant
                1 <= i <= args@.len(),
                query@ == last_value(args@.subrange(1, i as int), query_prefix()),
                file_path@ == last_value(args@.subrange(1, i as int), path_prefix()),
                ignore_case == has_flag(args@.subrange(1, i as int)),
            decreases args@.len() - i,
        {
            let ghost prev = args@.subrange(1, i as int);
            let ghost next = args@.subrange(1, i + 1);
            proof {
                assert(next.drop_last() =~= prev);
                assert(next.last() == args@[i as int]);
            }
            let arg = &args[i];
            if str_eq(arg.as_str(), "-i") {
                ignore_case = true;
                proof {
                    reveal_strlit("-i");
                    assert("-i"@ =~= flag_token());
                    assert(arg@ == flag_token());
                    assert(next[i - 1] == arg);
                    assert(has_flag(next));
                    assert(!starts_with(arg@, query_prefix()));
                    assert(!starts_with(arg@, path_prefix()));
                }
            } else {
                proof {
                    reveal_strlit("-i");
                    reveal_strlit("-q=");
                    reveal_strlit("-f=");
                    assert("-i"@ =~= flag_token());
                    assert("-q="@ =~= query_prefix());
                    assert("-f="@ =~= path_prefix());
                    assert(arg@ != flag_token());
                    assert(forall|k: int| 0 <= k < next.len() ==> #[trigger] next[k]@
                        == if k < prev.len() {
                        prev[k]@
                    } else {
                        arg@
                    });
                    assert(has_flag(next) == has_flag(prev));
                }
                if let Some(value) = capture_after_prefix("-q=", arg.as_str()) {
                    query = value;
                }
                if let Some(value) = capture_after_prefix("-f=", arg.as_str()) {
                    file_path = value;
                }
            }
            i += 1;
        }
        proof {
            assert(args@.subrange(1, args@.len() as int) =~= args@.skip(1));
        }
        if query.as_str().is_empty() || file_path.as_str().is_empty() {
            return Err("Not enough valid param");
        }
        Ok(Params { query, file_path, ignore_case })
    }
}

/// A token that begins with `prefix` overrides all earlier tokens: after
/// appending it, the parsed value is exactly what follows the prefix.
pub proof fn lemma_last_wins(args: Seq<String>, token: String, prefix: Seq<char>)
    requires
        starts_with(token@, prefix),
    ensures
        last_value(args.push(token), prefix) == token@.skip(prefix.len() as int),
{
    assert(args.push(token).last() == token);
}

/// When no token of `args` begins with `prefix`, the parsed value for
/// that prefix stays empty, so `build` reports the parameter missing.
pub proof fn lemma_missing_prefix(args: Seq<String>, prefix: Seq<char>)
    requires
        forall|i: int| 0 <= i < args.len() ==> !starts_with(#[trigger] args[i]@, prefix),
    ensures
        last_value(args, prefix) == Seq::<char>::empty(),
    decreases args.len(),
{
    if args.len() > 0 {
        assert(args.last() == args[args.len() - 1]);
        assert(forall|i: int|
            0 <= i < args.drop_last().len() ==> #[trigger] args.drop_last()[i] == args[i]);
        lemma_missing_prefix(args.drop_last(), prefix);
    }
}

} // verus!
