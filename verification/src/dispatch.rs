//! Turning a request into a response descriptor.
//!
//! The dispatcher looks the request's path and method up in the table and
//! translates the matched action: a fixed status code becomes a complete
//! response, a redirect becomes a moved-permanently response with a
//! `Location` header, and the two filesystem actions become delegations to
//! the external file- and directory-serving collaborators.

use crate::route::{key_matches, status_rendering, status_text, Action, Key, Route};
use crate::table::{find, table_wf};
use crate::text::normal_of;
use vstd::prelude::*;
use vstd::string::StringExecFns;

verus! {

/// What the transport should do for one request: answer with a complete
/// response, or hand the work to the file- or tree-serving collaborator.
#[derive(Debug)]
pub enum Descriptor {
    Respond { status: u16, location: Option<String>, body: String },
    SendFile { path: String },
    SendTree { root: String, remainder: String },
}

/// The fixed answer for a request nothing matches: 404 with a plain body.
pub open spec fn is_not_found(d: Descriptor) -> bool {
    d matches Descriptor::Respond { status, location, body } && status == 404 && location is None
        && body@ == "Not found"@
}

/// Produce the fixed "not found" response descriptor.
pub fn not_found() -> (d: Descriptor)
    ensures
        is_not_found(d),
{
    Descriptor::Respond { status: 404, location: None, body: String::from_str("Not found") }
}

/// How a matched action answers: a fixed code answers with its status line
/// as body; a redirect answers 301 with the URI as `Location` and body; the
/// filesystem actions delegate, a directory tree together with what remains
/// of the request path past the matched route's path.
pub open spec fn action_reply(a: Action, np: Seq<char>, route_path: Seq<char>, d: Descriptor) -> bool {
    match a {
        Action::StatusCode(code) => d matches Descriptor::Respond { status, location, body }
            && status == code && location is None && body@ == status_rendering(code),
        Action::Redirect(u) => d matches Descriptor::Respond { status, location, body } && status
            == 301 && (location matches Some(l) && l@ == u@) && body@ == u@,
        Action::ServeFile(p) => d matches Descriptor::SendFile { path } && path@ == p@,
        Action::ServePath(r) => d matches Descriptor::SendTree { root, remainder } && root@ == r@
            && remainder@ == np.skip(route_path.len() as int),
    }
}

/// A route of the table matches the probe at index `i`.
pub open spec fn matched_at(t: Seq<Route>, probe: Key, i: int) -> bool {
    0 <= i < t.len() && key_matches(t[i].key(), probe)
}

/// Dispatch one request: look the normalized path and the method up, and
/// translate the matched action into a descriptor; with no match, the fixed
/// "not found" descriptor.
pub fn dispatch(table: &Vec<Route>, path: &str, method: Option<&str>) -> (d: Descriptor)
    requires
        table_wf(table@),
    ensures
        ({
            let probe = Key { path: normal_of(path@), method: method.deep_view() };
            &&& (forall|i: int|
                0 <= i < table@.len() ==> !key_matches(#[trigger] table@[i].key(), probe))
                ==> is_not_found(d)
            &&& (exists|i: int| matched_at(table@, probe, i)) ==> exists|i: int|
                #[trigger] matched_at(table@, probe, i) && action_reply(
                    table@[i].action,
                    probe.path,
                    table@[i].path@,
                    d,
                )
        }),
{
    let ghost probe = Key { path: normal_of(path@), method: method.deep_view() };
    match find(table, path, method) {
        None => not_found(),
        Some(route) => {
            let ghost i = choose|i: int| 0 <= i < table@.len() && table@[i] == *route;
            proof {
                assert(matched_at(table@, probe, i));
                assert(table@[i].wf());
            }
            match &route.action {
                Action::StatusCode(code) => {
                    let body = status_text(*code);
                    Descriptor::Respond { status: *code, location: None, body }
                },
                Action::Redirect(u) => {
                    let location = Some(u.clone());
                    let body = u.clone();
                    Descriptor::Respond { status: 301, location, body }
                },
                Action::ServeFile(p) => Descriptor::SendFile { path: p.clone() },
                Action::ServePath(root) => {
                    proof {
                        assert(probe.path.skip(route.path@.len() as int) =~= Seq::<
                            char,
                        >::empty());
                    }
                    Descriptor::SendTree { root: root.clone(), remainder: String::new() }
                },
            }
        },
    }
}

} // verus!
