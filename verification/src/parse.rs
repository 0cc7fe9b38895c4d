//! Parsing one raw `path:value` token into a candidate route.
//!
//! The token splits on its first `:`; the left side becomes the normalized
//! path, the right side is read according to the kind of route being built:
//! a filesystem target, a redirect URI, or a numeric status code.

use crate::route::{Action, Route};
use crate::text::{is_lower, normal_of, normalize};
use vstd::prelude::*;
use vstd::string::StrSliceExecFns;
use vstd::string::StringExecFns;

verus! {

/// Why a raw token was rejected: no `:` separator, a right side that does
/// not read as the target type, or a value that fails its validity check.
#[derive(Debug)]
pub enum ArgError {
    Format,
    Convert,
    Invalid(String),
}

impl ArgError {
    /// The diagnostic line for this error, as it is reported to the user.
    pub fn describe(&self) -> (r: String)
        ensures
            r@ == match *self {
                ArgError::Format => "Expected format [URL_PATH]:<VALUE>"@,
                ArgError::Convert => "Failed to convert value"@,
                ArgError::Invalid(v) => "Value passed is not valid: "@ + v@,
            },
    {
        match self {
            ArgError::Format => String::from_str("Expected format [URL_PATH]:<VALUE>"),
            ArgError::Convert => String::from_str("Failed to convert value"),
            ArgError::Invalid(v) => String::from_str("Value passed is not valid: ").concat(
                v.as_str(),
            ),
        }
    }
}

/// The index of the first `:` in the sequence, or its length if none.
pub open spec fn first_sep(s: Seq<char>) -> int
    decreases s.len(),
{
    if s.len() == 0 {
        0
    } else if s[0] == ':' {
        0
    } else {
        1 + first_sep(s.drop_first())
    }
}

/// The token has a `:` separator at all.
pub open spec fn has_sep(s: Seq<char>) -> bool {
    first_sep(s) < s.len()
}

/// The path side of a token: what stands before the first `:`, normalized.
pub open spec fn token_path(s: Seq<char>) -> Seq<char> {
    normal_of(s.take(first_sep(s)))
}

/// The value side of a token: everything after the first `:`, verbatim.
pub open spec fn token_value(s: Seq<char>) -> Seq<char> {
    s.skip(first_sep(s) + 1)
}

/// What `first_sep` points at: the first separator, if any.
pub proof fn lemma_first_sep(s: Seq<char>)
    ensures
        0 <= first_sep(s) <= s.len(),
        first_sep(s) < s.len() ==> s[first_sep(s)] == ':',
        forall|k: int| 0 <= k < first_sep(s) ==> s[k] != ':',
        (exists|k: int| 0 <= k < s.len() && s[k] == ':') ==> first_sep(s) < s.len(),
    decreases s.len(),
{
    if s.len() > 0 && s[0] != ':' {
        let t = s.drop_first();
        lemma_first_sep(t);
        assert forall|k: int| 0 <= k < first_sep(s) implies s[k] != ':' by {
            if k > 0 {
                assert(t[k - 1] != ':');
            }
        }
        if exists|k: int| 0 <= k < s.len() && s[k] == ':' {
            let k = choose|k: int| 0 <= k < s.len() && #[trigger] s[k] == ':';
            assert(t[k - 1] == ':');
        }
    }
}

/// Uniqueness: a separator at `i` with none before it is the first one.
proof fn lemma_first_sep_at(s: Seq<char>, i: int)
    requires
        0 <= i < s.len(),
        s[i] == ':',
        forall|k: int| 0 <= k < i ==> s[k] != ':',
    ensures
        first_sep(s) == i,
    decreases i,
{
    if i > 0 {
        let t = s.drop_first();
        assert(t[i - 1] == ':');
        assert forall|k: int| 0 <= k < i - 1 implies t[k] != ':' by {
            assert(s[k + 1] != ':');
        }
        lemma_first_sep_at(t, i - 1);
    }
}

/// Find the first `:` in a string.
fn find_sep(s: &str) -> (r: Option<usize>)
    ensures
        match r {
            Some(i) => i == first_sep(s@) && i < s@.len(),
            None => first_sep(s@) == s@.len(),
        },
{
    let len = s.unicode_len();
    let mut i: usize = 0;
    while i < len
        invariant
            i <= len,
            len == s@.len(),
            forall|k: int| 0 <= k < i ==> s@[k] != ':',
        decreases len - i,
    {
        if s.get_char(i) == ':' {
            proof {
                lemma_first_sep_at(s@, i as int);
            }
            return Some(i);
        }
        i += 1;
    }
    proof {
        lemma_first_sep(s@);
        if first_sep(s@) < s@.len() {
            assert(s@[first_sep(s@)] == ':');
        }
    }
    None
}

/// Split a raw token on its first `:`: the normalized path on the left, the
/// verbatim value on the right.  Fails with `Format` when there is no `:`.
pub fn split_route_token(token: &str) -> (r: Result<(String, String), ArgError>)
    ensures
        match r {
            Ok(parts) => has_sep(token@) && parts.0@ == token_path(token@) && parts.1@
                == token_value(token@) && is_lower(parts.0@),
            Err(e) => !has_sep(token@) && e is Format,
        },
{
    let len = token.unicode_len();
    match find_sep(token) {
        Some(i) => {
            let left = token.substring_char(0, i);
            let right = token.substring_char(i + 1, len);
            proof {
                assert(token@.subrange(0, i as int) =~= token@.take(first_sep(token@)));
                assert(token@.subrange(i + 1, token@.len() as int) =~= token@.skip(
                    first_sep(token@) + 1,
                ));
            }
            let path = normalize(left);
            Ok((path, String::from_str(right)))
        },
        None => Err(ArgError::Format),
    }
}

/// An ASCII decimal digit.
pub open spec fn is_digit(c: char) -> bool {
    '0' <= c && c <= '9'
}

/// The numeric value of an ASCII digit.
pub open spec fn digit_val(c: char) -> int {
    c as u32 - '0' as u32
}

/// The status code a string denotes: exactly three ASCII digits, the first
/// one nonzero, read as a decimal number — so always in 100..=999.  This is
/// how the HTTP status line reads a code.
pub open spec fn status_of(s: Seq<char>) -> Option<u16> {
    if s.len() == 3 && is_digit(s[0]) && is_digit(s[1]) && is_digit(s[2]) && s[0] != '0' {
        Some((100 * digit_val(s[0]) + 10 * digit_val(s[1]) + digit_val(s[2])) as u16)
    } else {
        None
    }
}

/// Read a string as a three-digit status code.
pub fn parse_status_value(s: &str) -> (r: Option<u16>)
    ensures
        r == status_of(s@),
        r matches Some(code) ==> 100 <= code <= 999,
{
    let len = s.unicode_len();
    if len != 3 {
        return None;
    }
    let c0 = s.get_char(0);
    let c1 = s.get_char(1);
    let c2 = s.get_char(2);
    if '1' <= c0 && c0 <= '9' && '0' <= c1 && c1 <= '9' && '0' <= c2 && c2 <= '9' {
        let code: u16 = 100 * (c0 as u16 - 48) + 10 * (c1 as u16 - 48) + (c2 as u16 - 48);
        Some(code)
    } else {
        None
    }
}

/// Whether the `http` crate's URI grammar accepts the string; the answer is
/// a function of the string alone.
pub uninterp spec fn is_uri(s: Seq<char>) -> bool;

/// Relies on `hyper::http::Uri`'s `FromStr` impl (the `http` crate's URI
/// parser): acceptance depends on the characters of the string alone, and
/// nothing more of the answer is assumed here.
#[verifier::external_body]
fn uri_ok(s: &str) -> (r: bool)
    ensures
        r == is_uri(s@),
{
    <hyper::http::Uri as core::str::FromStr>::from_str(s).is_ok()
}

/// What the filesystem reported for a target path at table-construction
/// time: nothing there, a file, or a directory.
#[derive(Debug)]
pub enum FsProbe {
    Missing,
    File,
    Dir,
}

/// Parse one redirect token: `path:uri`.  The URI must be accepted by the
/// HTTP URI grammar, and is stored verbatim.
pub fn parse_redirect_route(token: &str) -> (r: Result<Route, ArgError>)
    ensures
        match r {
            Ok(route) => {
                &&& has_sep(token@)
                &&& is_uri(token_value(token@))
                &&& route.path@ == token_path(token@)
                &&& route.method is None
                &&& (route.action matches Action::Redirect(u) && u@ == token_value(token@))
                &&& route.wf()
            },
            Err(e) => {
                ||| (e is Format && !has_sep(token@))
                ||| (e is Convert && has_sep(token@) && !is_uri(token_value(token@)))
            },
        },
{
    let parts = match split_route_token(token) {
        Ok(p) => p,
        Err(e) => {
            return Err(e);
        },
    };
    if uri_ok(parts.1.as_str()) {
        Ok(Route { path: parts.0, method: None, action: Action::Redirect(parts.1) })
    } else {
        Err(ArgError::Convert)
    }
}

/// Parse one status token: `path:code`, with a three-digit status code.
pub fn parse_status_route(token: &str) -> (r: Result<Route, ArgError>)
    ensures
        match r {
            Ok(route) => {
                &&& has_sep(token@)
                &&& route.path@ == token_path(token@)
                &&& route.method is None
                &&& (route.action matches Action::StatusCode(code) && Some(code) == status_of(
                    token_value(token@),
                ))
                &&& route.wf()
            },
            Err(e) => {
                ||| (e is Format && !has_sep(token@))
                ||| (e is Convert && has_sep(token@) && status_of(token_value(token@)) is None)
            },
        },
{
    let parts = match split_route_token(token) {
        Ok(p) => p,
        Err(e) => {
            return Err(e);
        },
    };
    match parse_status_value(parts.1.as_str()) {
        Some(code) => Ok(
            Route { path: parts.0, method: None, action: Action::StatusCode(code) },
        ),
        None => Err(ArgError::Convert),
    }
}

/// Parse one filesystem token: `path:target`, deciding by the probe whether
/// the target serves a directory tree or a single file.  A target the
/// filesystem does not know is invalid: the route would never serve.
pub fn parse_file_route(token: &str, probe: FsProbe) -> (r: Result<Route, ArgError>)
    ensures
        match r {
            Ok(route) => {
                &&& has_sep(token@)
                &&& !(probe is Missing)
                &&& route.path@ == token_path(token@)
                &&& route.method is None
                &&& (probe is Dir ==> (route.action matches Action::ServePath(p) && p@
                    == token_value(token@)))
                &&& (probe is File ==> (route.action matches Action::ServeFile(p) && p@
                    == token_value(token@)))
                &&& route.wf()
            },
            Err(e) => {
                ||| (e is Format && !has_sep(token@))
                ||| (e matches ArgError::Invalid(v) && has_sep(token@) && probe is Missing && v@
                    == token_value(token@))
            },
        },
{
    let parts = match split_route_token(token) {
        Ok(p) => p,
        Err(e) => {
            return Err(e);
        },
    };
    match probe {
        FsProbe::Missing => Err(ArgError::Invalid(parts.1)),
        FsProbe::File => Ok(
            Route { path: parts.0, method: None, action: Action::ServeFile(parts.1) },
        ),
        FsProbe::Dir => Ok(
            Route { path: parts.0, method: None, action: Action::ServePath(parts.1) },
        ),
    }
}

} // verus!
