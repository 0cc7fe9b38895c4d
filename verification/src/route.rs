//! Routes and the comparator that orders them.
//!
//! A route binds a normalized path, and optionally a request method, to an
//! action.  One total-order comparator on `(path, method)` keys is shared
//! between table construction and lookup; a missing method sorts like any
//! method (it is a wildcard), so a route without a method compares equal to
//! every probe with the same path.

use crate::text::{flip, is_lower, lemma_lex_cmp_eq, lemma_lex_cmp_flip, lemma_lex_cmp_trans,
    lex_cmp, cmp_str, render_of};
use core::cmp::Ordering;
use vstd::prelude::*;
use vstd::string::StringExecFns;

verus! {

/// The behavior a matched route triggers: serve one file, serve a directory
/// tree, redirect to a URI, or answer with a fixed status code.
#[derive(Debug)]
pub enum Action {
    ServeFile(String),
    ServePath(String),
    Redirect(String),
    StatusCode(u16),
}

impl Action {
    /// A valid action: a fixed status code lies in the range the HTTP
    /// status line admits.
    pub open spec fn wf(self) -> bool {
        match self {
            Action::StatusCode(code) => 100 <= code <= 999,
            _ => true,
        }
    }

    /// The one-line description of this action, as the startup report
    /// prints it.
    pub fn describe(&self) -> (r: String)
        requires
            self.wf(),
        ensures
            r@ == action_text(*self),
    {
        match self {
            Action::ServeFile(p) => String::from_str("Serving file ").concat(p.as_str()),
            Action::ServePath(p) => String::from_str("Serving path ").concat(p.as_str()),
            Action::Redirect(u) => String::from_str("Redirecting to ").concat(u.as_str()),
            Action::StatusCode(code) => {
                let text = status_text(*code);
                String::from_str("Responding ").concat(text.as_str())
            },
        }
    }
}

/// The status line rendering of a code, as the HTTP status text table gives
/// it: a function of the code alone.
pub uninterp spec fn status_rendering(code: u16) -> Seq<char>;

/// Relies on `hyper::StatusCode`: `from_u16` accepts exactly the codes in
/// 100..=999, and the `Display` impl renders the code with its canonical
/// reason from the code alone.
#[verifier::external_body]
pub(crate) fn status_text(code: u16) -> (r: String)
    requires
        100 <= code <= 999,
    ensures
        r@ == status_rendering(code),
{
    match hyper::StatusCode::from_u16(code) {
        Ok(status) => status.to_string(),
        Err(_) => String::new(),
    }
}

/// How an action announces itself on the startup report.
pub open spec fn action_text(a: Action) -> Seq<char> {
    match a {
        Action::ServeFile(p) => "Serving file "@ + p@,
        Action::ServePath(p) => "Serving path "@ + p@,
        Action::Redirect(u) => "Redirecting to "@ + u@,
        Action::StatusCode(code) => "Responding "@ + status_rendering(code),
    }
}

impl Clone for Action {
    fn clone(&self) -> (r: Self)
        ensures
            r == *self,
    {
        match self {
            Action::ServeFile(p) => Action::ServeFile(p.clone()),
            Action::ServePath(p) => Action::ServePath(p.clone()),
            Action::Redirect(u) => Action::Redirect(u.clone()),
            Action::StatusCode(c) => Action::StatusCode(*c),
        }
    }
}

/// One accepted binding: a normalized path, an optional method, an action.
#[derive(Debug)]
pub struct Route {
    pub path: String,
    pub method: Option<String>,
    pub action: Action,
}

impl Clone for Route {
    fn clone(&self) -> (r: Self)
        ensures
            r == *self,
    {
        Route {
            path: self.path.clone(),
            method: match &self.method {
                Some(m) => Some(m.clone()),
                None => None,
            },
            action: self.action.clone(),
        }
    }
}

/// The `(path, method)` key of a stored route or of a lookup probe.
pub struct Key {
    pub path: Seq<char>,
    pub method: Option<Seq<char>>,
}

/// The shared comparator on keys: lexicographic on the path, then on the
/// method name; a side without a method compares equal to any method.
pub open spec fn key_cmp(a: Key, b: Key) -> Ordering {
    match lex_cmp(a.path, b.path) {
        Ordering::Equal => match (a.method, b.method) {
            (Some(ma), Some(mb)) => lex_cmp(ma, mb),
            _ => Ordering::Equal,
        },
        o => o,
    }
}

/// A probe with path `q` and method `qm` matches a stored key: same path,
/// and either side's missing method is a wildcard.
pub open spec fn key_matches(a: Key, b: Key) -> bool {
    a.path == b.path && (a.method is None || b.method is None || a.method == b.method)
}

impl Route {
    /// The key this route is ordered by.
    pub open spec fn key(self) -> Key {
        Key { path: self.path@, method: self.method.deep_view() }
    }

    /// A well-formed route: the stored path is already lower-cased (it came
    /// out of normalization) and the action is valid.
    pub open spec fn wf(self) -> bool {
        is_lower(self.path@) && self.action.wf()
    }

    /// The display form of the stored path: the leading `/` put back.
    pub fn display_path(&self) -> (r: String)
        ensures
            r@ == render_of(self.path@),
    {
        proof {
            reveal_strlit("/");
        }
        let r = String::from_str("/").concat(self.path.as_str());
        proof {
            assert(r@ =~= render_of(self.path@));
        }
        r
    }

    /// The route's line on the startup report: displayed path and action.
    pub fn describe(&self) -> (r: String)
        requires
            self.wf(),
        ensures
            r@ == render_of(self.path@) + " -> "@ + action_text(self.action),
    {
        let a = self.action.describe();
        let r = self.display_path().concat(" -> ").concat(a.as_str());
        proof {
            assert(r@ =~= render_of(self.path@) + " -> "@ + action_text(self.action));
        }
        r
    }

    /// Compare this route's key against a probe key, with the one
    /// comparator both construction and lookup use.
    pub fn compare(&self, path: &str, method: Option<&str>) -> (o: Ordering)
        ensures
            o == key_cmp(self.key(), Key { path: path@, method: method.deep_view() }),
    {
        match cmp_str(self.path.as_str(), path) {
            Ordering::Equal => match (&self.method, method) {
                (Some(ma), Some(mb)) => cmp_str(ma.as_str(), mb),
                _ => Ordering::Equal,
            },
            o => o,
        }
    }
}

/// Two routes are equal when their paths and methods are: the key decides,
/// the action does not take part.
impl PartialEq for Route {
    fn eq(&self, other: &Self) -> (r: bool) {
        let methods_equal: bool = match (&self.method, &other.method) {
            (Some(a), Some(b)) => *a == *b,
            (None, None) => true,
            _ => false,
        };
        self.path == other.path && methods_equal
    }
}

impl vstd::std_specs::cmp::PartialEqSpecImpl for Route {
    open spec fn obeys_eq_spec() -> bool {
        true
    }

    open spec fn eq_spec(&self, other: &Route) -> bool {
        self.path@ == other.path@ && self.method.deep_view() == other.method.deep_view()
    }
}

/// Routes are ordered by the shared key comparator.
impl PartialOrd for Route {
    fn partial_cmp(&self, other: &Self) -> (r: Option<Ordering>) {
        let other_method: Option<&str> = match &other.method {
            Some(m) => Some(m.as_str()),
            None => None,
        };
        Some(self.compare(other.path.as_str(), other_method))
    }
}

impl vstd::std_specs::cmp::PartialOrdSpecImpl for Route {
    open spec fn obeys_partial_cmp_spec() -> bool {
        true
    }

    open spec fn partial_cmp_spec(&self, other: &Route) -> Option<Ordering> {
        Some(key_cmp(self.key(), other.key()))
    }
}

/// The comparator answers `Equal` exactly on matching keys.
pub proof fn lemma_key_cmp_matches(a: Key, b: Key)
    ensures
        (key_cmp(a, b) == Ordering::Equal) <==> key_matches(a, b),
{
    lemma_lex_cmp_eq(a.path, b.path);
    if lex_cmp(a.path, b.path) == Ordering::Equal {
        match (a.method, b.method) {
            (Some(ma), Some(mb)) => lemma_lex_cmp_eq(ma, mb),
            _ => {},
        }
    }
}

/// Swapping the arguments of the comparator flips the answer.
pub proof fn lemma_key_cmp_flip(a: Key, b: Key)
    ensures
        key_cmp(b, a) == flip(key_cmp(a, b)),
{
    lemma_lex_cmp_flip(a.path, b.path);
    match (a.method, b.method) {
        (Some(ma), Some(mb)) => lemma_lex_cmp_flip(ma, mb),
        _ => {},
    }
}

/// The comparator's strict order is transitive.
pub proof fn lemma_key_cmp_trans(a: Key, b: Key, c: Key)
    requires
        key_cmp(a, b) == Ordering::Less,
        key_cmp(b, c) == Ordering::Less,
    ensures
        key_cmp(a, c) == Ordering::Less,
{
    lemma_lex_cmp_eq(a.path, b.path);
    lemma_lex_cmp_eq(b.path, c.path);
    match (lex_cmp(a.path, b.path), lex_cmp(b.path, c.path)) {
        (Ordering::Less, Ordering::Less) => {
            lemma_lex_cmp_trans(a.path, b.path, c.path);
        },
        (Ordering::Less, Ordering::Equal) => {},
        (Ordering::Equal, Ordering::Less) => {},
        (Ordering::Equal, Ordering::Equal) => {
            if a.method is Some && b.method is Some && c.method is Some {
                lemma_lex_cmp_trans(a.method->0, b.method->0, c.method->0);
            }
        },
        _ => {},
    }
}

} // verus!
