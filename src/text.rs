use vstd::prelude::*;
use vstd::string::*;

verus! {

/// The character of a decimal digit.
pub open spec fn digit_char(d: nat) -> char {
    seq!['0', '1', '2', '3', '4', '5', '6', '7', '8', '9'][(d % 10) as int]
}

/// The decimal representation of `n`, without sign or leading zeros.
pub open spec fn decimal(n: nat) -> Seq<char>
    decreases n,
{
    if n < 10 {
        seq![digit_char(n)]
    } else {
        decimal(n / 10).push(digit_char(n % 10))
    }
}

/// `s` with every non-overlapping occurrence of `pat`, scanned from the left,
/// replaced by `by`.
pub open spec fn replaced(s: Seq<char>, pat: Seq<char>, by: Seq<char>) -> Seq<char>
    decreases s.len(),
{
    if pat.len() == 0 || s.len() < pat.len() {
        s
    } else if s.subrange(0, pat.len() as int) == pat {
        by + replaced(s.subrange(pat.len() as int, s.len() as int), pat, by)
    } else {
        seq![s[0]] + replaced(s.subrange(1, s.len() as int), pat, by)
    }
}

/// Relies on `usize`'s `Display` (through `to_string`): the plain decimal digits.
#[verifier::external_body]
pub(crate) fn decimal_string(n: usize) -> (r: String)
    ensures
        r@ == decimal(n as nat),
{
    n.to_string()
}

/// Relies on `str::replace`: each non-overlapping match of a non-empty pattern,
/// from the left, is replaced.
#[verifier::external_body]
pub(crate) fn replace_all(s: &str, pat: &str, by: &str) -> (r: String)
    requires
        pat@.len() > 0,
    ensures
        r@ == replaced(s@, pat@, by@),
{
    s.replace(pat, by)
}

/// `s` wrapped in single quotes.
pub open spec fn quoted(s: Seq<char>) -> Seq<char> {
    seq!['\''] + s + seq!['\'']
}

pub fn quote(s: &str) -> (r: String)
    ensures
        r@ == quoted(s@),
{
    let mut r = String::from_str("'");
    r.append(s);
    r.append("'");
    proof {
        reveal_strlit("'");
    }
    assert(r@ =~= quoted(s@));
    r
}

/// The character sequence of an optional string.
pub open spec fn opt_view(o: Option<String>) -> Option<Seq<char>> {
    match o {
        Some(s) => Some(s@),
        None => None,
    }
}

/// Whether the first component of a path is `~`.
pub open spec fn starts_with_tilde(p: Seq<char>) -> bool {
    p == seq!['~'] || (p.len() >= 2 && p[0] == '~' && p[1] == '/')
}

/// `rest` appended to the directory `dir`, with one separator between them.
pub open spec fn joined(dir: Seq<char>, rest: Seq<char>) -> Seq<char> {
    if dir.len() > 0 && dir.last() == '/' {
        dir + rest
    } else {
        dir + seq!['/'] + rest
    }
}

/// A path with a leading `~` component replaced by the home directory `home`;
/// other paths are unchanged. `None` when the home directory is needed but unknown.
pub open spec fn tilde_expanded(p: Seq<char>, home: Option<Seq<char>>) -> Option<Seq<char>> {
    if !starts_with_tilde(p) {
        Some(p)
    } else if p.len() == 1 {
        home
    } else {
        match home {
            None => None,
            Some(h) => Some(joined(h, p.subrange(2, p.len() as int))),
        }
    }
}

pub fn join_path(dir: &str, rest: &str) -> (r: String)
    ensures
        r@ == joined(dir@, rest@),
{
    let n = dir.unicode_len();
    let mut r = String::from_str(dir);
    if n == 0 || dir.get_char(n - 1) != '/' {
        r.append("/");
        proof {
            reveal_strlit("/");
        }
    }
    r.append(rest);
    assert(r@ =~= joined(dir@, rest@));
    r
}

/// Expands a leading `~` of `path` with the given home directory.
pub fn expand_tilde_with(path: &str, home: Option<String>) -> (r: Option<String>)
    ensures
        r matches Some(x) ==> tilde_expanded(path@, opt_view(home)) == Some(x@),
        r is None ==> tilde_expanded(path@, opt_view(home)) is None,
{
    let n = path.unicode_len();
    let tilde = n >= 1 && path.get_char(0) == '~' && (n == 1 || path.get_char(1) == '/');
    if !tilde {
        assert(!starts_with_tilde(path@));
        return Some(String::from_str(path));
    }
    if n == 1 {
        assert(path@ =~= seq!['~']);
        return home;
    }
    assert(starts_with_tilde(path@));
    match home {
        None => None,
        Some(h) => {
            let rest = path.substring_char(2, n);
            Some(join_path(h.as_str(), rest))
        },
    }
}

} // verus!
