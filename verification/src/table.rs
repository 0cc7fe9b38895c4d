//! The route table: an ordered, deduplicated sequence of routes, built once
//! from the parsed candidates and then only searched.
//!
//! Construction inserts each candidate at its binary-search position; a
//! candidate whose key an already-accepted route answers `Equal` for is
//! discarded and reported, so the earlier candidate wins.  Lookup is a
//! binary search with the very same comparator.

use crate::route::{key_cmp, key_matches, lemma_key_cmp_flip, lemma_key_cmp_matches,
    lemma_key_cmp_trans, Action, Key, Route};
use crate::text::{lemma_render_round_trip, normal_of, render_of};
use core::cmp::Ordering;
use vstd::prelude::*;

verus! {

/// The table is strictly ascending under the shared comparator: in
/// particular no two stored keys answer `Equal` for each other.
pub open spec fn table_sorted(t: Seq<Route>) -> bool {
    forall|i: int, j: int|
        0 <= i < j < t.len() ==> key_cmp(#[trigger] t[i].key(), #[trigger] t[j].key())
            == Ordering::Less
}

/// A well-formed table: sorted, made of well-formed routes.
pub open spec fn table_wf(t: Seq<Route>) -> bool {
    table_sorted(t) && forall|i: int| 0 <= i < t.len() ==> (#[trigger] t[i]).wf()
}

/// Binary search for a probe key.  `Ok(i)` answers the entry comparing
/// `Equal`; `Err(p)` is the insertion position, everything before it
/// strictly below the probe and everything from it on strictly above.
fn search(table: &Vec<Route>, path: &str, method: Option<&str>) -> (r: Result<usize, usize>)
    requires
        table_sorted(table@),
    ensures
        ({
            let probe = Key { path: path@, method: method.deep_view() };
            match r {
                Ok(i) => i < table@.len() && key_cmp(table@[i as int].key(), probe)
                    == Ordering::Equal,
                Err(p) => p <= table@.len() && (forall|j: int|
                    0 <= j < p ==> key_cmp(#[trigger] table@[j].key(), probe) == Ordering::Less)
                    && (forall|j: int|
                    p <= j < table@.len() ==> key_cmp(#[trigger] table@[j].key(), probe)
                        == Ordering::Greater),
            }
        }),
{
    let ghost probe = Key { path: path@, method: method.deep_view() };
    let mut lo: usize = 0;
    let mut hi: usize = table.len();
    while lo < hi
        invariant
            lo <= hi <= table@.len(),
            table_sorted(table@),
            probe == (Key { path: path@, method: method.deep_view() }),
            forall|j: int| 0 <= j < lo ==> key_cmp(#[trigger] table@[j].key(), probe)
                == Ordering::Less,
            forall|j: int|
                hi <= j < table@.len() ==> key_cmp(#[trigger] table@[j].key(), probe)
                    == Ordering::Greater,
        decreases hi - lo,
    {
        let mid = lo + (hi - lo) / 2;
        let o = table[mid].compare(path, method);
        match o {
            Ordering::Equal => {
                return Ok(mid);
            },
            Ordering::Less => {
                proof {
                    assert forall|j: int| 0 <= j < mid + 1 implies key_cmp(
                        #[trigger] table@[j].key(),
                        probe,
                    ) == Ordering::Less by {
                        if j < mid {
                            lemma_key_cmp_trans(table@[j].key(), table@[mid as int].key(), probe);
                        }
                    }
                }
                lo = mid + 1;
            },
            Ordering::Greater => {
                proof {
                    assert forall|j: int| mid <= j < table@.len() implies key_cmp(
                        #[trigger] table@[j].key(),
                        probe,
                    ) == Ordering::Greater by {
                        if j > mid {
                            lemma_key_cmp_flip(table@[mid as int].key(), probe);
                            lemma_key_cmp_trans(
                                probe,
                                table@[mid as int].key(),
                                table@[j].key(),
                            );
                            lemma_key_cmp_flip(probe, table@[j].key());
                        }
                    }
                }
                hi = mid;
            },
        }
    }
    Err(lo)
}

/// Look a request up: normalize its path, then binary-search the table.
/// Answers the matching route, or `None` when no stored key matches; a
/// stored route without a method matches any request method.
pub fn find<'a>(table: &'a Vec<Route>, path: &str, method: Option<&str>) -> (r: Option<
    &'a Route,
>)
    requires
        table_sorted(table@),
    ensures
        ({
            let probe = Key { path: normal_of(path@), method: method.deep_view() };
            match r {
                Some(route) => (exists|i: int|
                    0 <= i < table@.len() && table@[i] == *route) && key_matches(
                    route.key(),
                    probe,
                ),
                None => forall|i: int|
                    0 <= i < table@.len() ==> !key_matches(#[trigger] table@[i].key(), probe),
            }
        }),
{
    let np = crate::text::normalize(path);
    let ghost probe = Key { path: normal_of(path@), method: method.deep_view() };
    match search(table, np.as_str(), method) {
        Ok(i) => {
            proof {
                lemma_key_cmp_matches(table@[i as int].key(), probe);
            }
            Some(&table[i])
        },
        Err(_) => {
            proof {
                assert forall|i: int| 0 <= i < table@.len() implies !key_matches(
                    #[trigger] table@[i].key(),
                    probe,
                ) by {
                    lemma_key_cmp_matches(table@[i].key(), probe);
                }
            }
            None
        },
    }
}

/// A discarded duplicate, reported but not fatal: the path both routes
/// bound, the action that stays, and the action that was dropped.
#[derive(Debug)]
pub struct Conflict {
    pub path: String,
    pub kept: Action,
    pub dropped: Action,
}

/// First-wins acceptance: candidate `j` is accepted exactly when no earlier
/// accepted candidate's key matches its key.
pub open spec fn accepted(cands: Seq<Route>, j: int) -> bool
    decreases j,
{
    !(exists|j2: int|
        0 <= j2 < j && accepted(cands, j2) && #[trigger] key_matches(
            cands[j2].key(),
            cands[j].key(),
        ))
}

/// The accepted candidates among the first `n`, in candidate order.
pub open spec fn accepted_upto(cands: Seq<Route>, n: int) -> Seq<Route>
    decreases n,
{
    if n <= 0 {
        Seq::empty()
    } else if accepted(cands, n - 1) {
        accepted_upto(cands, n - 1).push(cands[n - 1])
    } else {
        accepted_upto(cands, n - 1)
    }
}

/// The indices of the discarded candidates among the first `n`, in
/// candidate order.
pub open spec fn rejected_upto(cands: Seq<Route>, n: int) -> Seq<int>
    decreases n,
{
    if n <= 0 {
        Seq::empty()
    } else if accepted(cands, n - 1) {
        rejected_upto(cands, n - 1)
    } else {
        rejected_upto(cands, n - 1).push(n - 1)
    }
}

/// What `accepted_upto` holds: exactly the accepted candidates.
pub proof fn lemma_accepted_upto_elems(cands: Seq<Route>, n: int, r: Route)
    requires
        n <= cands.len(),
    ensures
        accepted_upto(cands, n).contains(r) <==> exists|j: int|
            #![trigger cands[j]]
            0 <= j < n && accepted(cands, j) && cands[j] == r,
    decreases n,
{
    if n > 0 {
        lemma_accepted_upto_elems(cands, n - 1, r);
        if accepted(cands, n - 1) && cands[n - 1] == r {
            assert(accepted_upto(cands, n)[accepted_upto(cands, n).len() - 1] == r);
        }
        if accepted_upto(cands, n - 1).contains(r) && accepted(cands, n - 1) {
            let i = choose|i: int|
                0 <= i < accepted_upto(cands, n - 1).len() && #[trigger] accepted_upto(
                    cands,
                    n - 1,
                )[i] == r;
            assert(accepted_upto(cands, n)[i] == r);
        }
    }
}

/// Every candidate is either accepted or reported: the two tallies split
/// the candidate count.
pub proof fn lemma_accepted_rejected_len(cands: Seq<Route>, n: int)
    requires
        0 <= n,
    ensures
        accepted_upto(cands, n).len() + rejected_upto(cands, n).len() == n,
    decreases n,
{
    if n > 0 {
        lemma_accepted_rejected_len(cands, n - 1);
    }
}

/// One conflict notice is faithful to the discarded candidate `jk`: it
/// names that candidate's path, carries its action as dropped, and as kept
/// the action of an earlier accepted route whose key matches.
pub open spec fn conflict_entry_ok(cands: Seq<Route>, jk: int, c: Conflict) -> bool {
    &&& c.path@ == cands[jk].path@
    &&& c.dropped == cands[jk].action
    &&& exists|j2: int|
        #![trigger key_matches(cands[j2].key(), cands[jk].key())]
        0 <= j2 < jk && accepted(cands, j2) && key_matches(cands[j2].key(), cands[jk].key())
            && c.kept == cands[j2].action
}

/// The conflict report is faithful: one entry for each discarded candidate,
/// in candidate order.
pub open spec fn conflicts_report(cands: Seq<Route>, cf: Seq<Conflict>) -> bool {
    let rej = rejected_upto(cands, cands.len() as int);
    &&& cf.len() == rej.len()
    &&& forall|k: int|
        0 <= k < cf.len() ==> conflict_entry_ok(cands, rej[k], #[trigger] cf[k])
}

/// Build the table from the candidates, in the order precedence dictates:
/// each candidate is binary-searched among the already-accepted routes and
/// inserted at its position, or discarded and reported when an accepted
/// route's key already answers for it (the earlier candidate wins).
///
/// The result holds exactly the accepted candidates, in ascending key
/// order, together with the faithful conflict report.
pub fn build_table(cands: Vec<Route>) -> (r: (Vec<Route>, Vec<Conflict>))
    requires
        forall|j: int| 0 <= j < cands@.len() ==> (#[trigger] cands@[j]).wf(),
    ensures
        table_wf(r.0@),
        r.0@.to_multiset() == accepted_upto(cands@, cands@.len() as int).to_multiset(),
        conflicts_report(cands@, r.1@),
        r.0@.len() + r.1@.len() == cands@.len(),
{
    broadcast use vstd::seq_lib::group_to_multiset_ensures;

    let n = cands.len();
    let mut acc: Vec<Route> = Vec::new();
    let mut cf: Vec<Conflict> = Vec::new();
    let mut j: usize = 0;
    proof {
        assert(acc@.to_multiset() =~= accepted_upto(cands@, 0).to_multiset());
    }
    while j < n
        invariant
            j <= n,
            n == cands@.len(),
            forall|j2: int| 0 <= j2 < cands@.len() ==> (#[trigger] cands@[j2]).wf(),
            table_wf(acc@),
            acc@.to_multiset() == accepted_upto(cands@, j as int).to_multiset(),
            cf@.len() == rejected_upto(cands@, j as int).len(),
            forall|k: int|
                0 <= k < cf@.len() ==> conflict_entry_ok(
                    cands@,
                    rejected_upto(cands@, j as int)[k],
                    #[trigger] cf@[k],
                ),
            acc@.len() + cf@.len() == j,
        decreases n - j,
    {
        let curr = cands[j].clone();
        let probe_method: Option<&str> = match &curr.method {
            Some(m) => Some(m.as_str()),
            None => None,
        };
        proof {
            assert(probe_method.deep_view() == curr.method.deep_view());
            assert((Key { path: curr.path@, method: probe_method.deep_view() }) == curr.key());
        }
        match search(&acc, curr.path.as_str(), probe_method) {
            Ok(i) => {
                proof {
                    lemma_key_cmp_matches(acc@[i as int].key(), curr.key());
                    assert(key_matches(acc@[i as int].key(), cands@[j as int].key()));
                    assert(acc@.contains(acc@[i as int]));
                    vstd::seq_lib::to_multiset_contains(acc@, acc@[i as int]);
                    vstd::seq_lib::to_multiset_contains(
                        accepted_upto(cands@, j as int),
                        acc@[i as int],
                    );
                    assert(accepted_upto(cands@, j as int).contains(acc@[i as int]));
                    lemma_accepted_upto_elems(cands@, j as int, acc@[i as int]);
                    let j2 = choose|j2: int|
                        #![trigger cands@[j2]]
                        0 <= j2 < j && accepted(cands@, j2) && cands@[j2] == acc@[i as int];
                    assert(cands@[j2].key() == acc@[i as int].key());
                    assert(key_matches(cands@[j2].key(), cands@[j as int].key()));
                    assert(!accepted(cands@, j as int));
                    assert(rejected_upto(cands@, j + 1) == rejected_upto(
                        cands@,
                        j as int,
                    ).push(j as int));
                }
                let kept = acc[i].action.clone();
                let notice = Conflict { path: curr.path, kept, dropped: curr.action };
                cf.push(notice);
                proof {
                    assert forall|k: int| 0 <= k < cf@.len() implies conflict_entry_ok(
                        cands@,
                        rejected_upto(cands@, j + 1)[k],
                        #[trigger] cf@[k],
                    ) by {
                        if k < cf@.len() - 1 {
                            assert(rejected_upto(cands@, j + 1)[k] == rejected_upto(
                                cands@,
                                j as int,
                            )[k]);
                        } else {
                            assert(rejected_upto(cands@, j + 1)[k] == j as int);
                            let j2 = choose|j2: int|
                                #![trigger cands@[j2]]
                                0 <= j2 < j && accepted(cands@, j2) && cands@[j2] == acc@[
                                    i as int
                                ];
                            assert(0 <= j2 < j && accepted(cands@, j2) && key_matches(
                                cands@[j2].key(),
                                cands@[j as int].key(),
                            ) && cf@[k].kept == cands@[j2].action);
                        }
                    }
                }
            },
            Err(pos) => {
                proof {
                    if !accepted(cands@, j as int) {
                        let j2 = choose|j2: int|
                            #![trigger key_matches(cands@[j2].key(), cands@[j as int].key())]
                            0 <= j2 < j && accepted(cands@, j2) && key_matches(
                                cands@[j2].key(),
                                cands@[j as int].key(),
                            );
                        lemma_accepted_upto_elems(cands@, j as int, cands@[j2]);
                        assert(accepted_upto(cands@, j as int).contains(cands@[j2]));
                        vstd::seq_lib::to_multiset_contains(
                            accepted_upto(cands@, j as int),
                            cands@[j2],
                        );
                        vstd::seq_lib::to_multiset_contains(acc@, cands@[j2]);
                        assert(acc@.contains(cands@[j2]));
                        let i = choose|i: int| 0 <= i < acc@.len() && acc@[i] == cands@[j2];
                        lemma_key_cmp_matches(acc@[i].key(), curr.key());
                        assert(false);
                    }
                }
                let ghost old_acc = acc@;
                acc.insert(pos, curr);
                proof {
                    old_acc.insert_ensures(pos as int, cands@[j as int]);
                    assert(acc@ == old_acc.insert(pos as int, cands@[j as int]));
                    assert forall|a: int, b: int| 0 <= a < b < acc@.len() implies key_cmp(
                        #[trigger] acc@[a].key(),
                        #[trigger] acc@[b].key(),
                    ) == Ordering::Less by {
                        let p = pos as int;
                        if a < p && b < p {
                        } else if a < p && b == p {
                        } else if a == p && b > p {
                            lemma_key_cmp_flip(curr.key(), old_acc[b - 1].key());
                        } else if a < p && b > p {
                        } else {
                        }
                    }
                    vstd::seq_lib::to_multiset_insert(old_acc, pos as int, cands@[j as int]);
                    assert(accepted_upto(cands@, j + 1) == accepted_upto(
                        cands@,
                        j as int,
                    ).push(cands@[j as int]));
                    vstd::seq_lib::to_multiset_build(
                        accepted_upto(cands@, j as int),
                        cands@[j as int],
                    );
                    assert(acc@.to_multiset() =~= accepted_upto(cands@, j + 1).to_multiset());
                }
            },
        }
        j += 1;
    }
    proof {
        lemma_accepted_rejected_len(cands@, n as int);
        vstd::seq_lib::to_multiset_len(acc@);
        vstd::seq_lib::to_multiset_len(accepted_upto(cands@, n as int));
    }
    (acc, cf)
}

/// Everything the server needs once the command line is read: where to
/// listen, and the finished route table.
pub struct Options {
    pub address: String,
    pub routes: Vec<Route>,
}

impl Options {
    /// Build the final options from the parsed candidates.  The candidates
    /// are considered in precedence order — status routes first, then
    /// redirects, then filesystem routes; precedence only decides which of
    /// two routes sharing a key wins, never the matching itself.  The
    /// conflict notices come back alongside for reporting.
    pub fn init(address: String, status: Vec<Route>, redirects: Vec<Route>, files: Vec<Route>) -> (r: (Options, Vec<Conflict>))
        requires
            forall|j: int| 0 <= j < status@.len() ==> (#[trigger] status@[j]).wf(),
            forall|j: int| 0 <= j < redirects@.len() ==> (#[trigger] redirects@[j]).wf(),
            forall|j: int| 0 <= j < files@.len() ==> (#[trigger] files@[j]).wf(),
        ensures
            ({
                let cands = status@ + redirects@ + files@;
                &&& r.0.address@ == address@
                &&& table_wf(r.0.routes@)
                &&& r.0.routes@.to_multiset() == accepted_upto(
                    cands,
                    cands.len() as int,
                ).to_multiset()
                &&& conflicts_report(cands, r.1@)
                &&& r.0.routes@.len() + r.1@.len() == cands.len()
            }),
    {
        let ghost cands_spec = status@ + redirects@ + files@;
        let mut cands = status;
        let mut redirects = redirects;
        let mut files = files;
        cands.append(&mut redirects);
        cands.append(&mut files);
        proof {
            assert(cands@ == cands_spec);
            assert forall|j: int| 0 <= j < cands@.len() implies (#[trigger] cands@[j]).wf() by {}
        }
        let (routes, conflicts) = build_table(cands);
        (Options { address, routes }, conflicts)
    }
}

/// Law: for every accepted route, a lookup with its displayed path — and
/// its own method, where it has one — matches exactly that route, so the
/// lookup answers that route's action.
pub proof fn lemma_lookup_accepted(t: Seq<Route>, i: int)
    requires
        table_wf(t),
        0 <= i < t.len(),
    ensures
        ({
            let probe = Key {
                path: normal_of(render_of(t[i].path@)),
                method: t[i].method.deep_view(),
            };
            &&& key_matches(t[i].key(), probe)
            &&& forall|j: int|
                0 <= j < t.len() && key_matches(#[trigger] t[j].key(), probe) ==> j == i
        }),
{
    lemma_render_round_trip(t[i].path@);
    let probe = Key { path: normal_of(render_of(t[i].path@)), method: t[i].method.deep_view() };
    assert(probe == t[i].key());
    assert forall|j: int|
        0 <= j < t.len() && key_matches(#[trigger] t[j].key(), probe) implies j == i by {
        lemma_own_key_unique(t, i, j);
    }
}

/// Law: a request whose normalized path no stored route binds matches
/// nothing, whatever its method — the lookup misses and dispatch answers
/// the fixed "not found" descriptor.
pub proof fn lemma_absent_path_matches_nothing(t: Seq<Route>, p: Seq<char>, m: Option<Seq<char>>)
    requires
        forall|i: int| 0 <= i < t.len() ==> (#[trigger] t[i]).path@ != p,
    ensures
        forall|i: int|
            0 <= i < t.len() ==> !key_matches(#[trigger] t[i].key(), Key { path: p, method: m }),
{
}

/// Law: no duplicates survive construction — the `(path, method)` keys of
/// two distinct routes of a table never match.
pub proof fn lemma_keys_pairwise_distinct(t: Seq<Route>, i: int, j: int)
    requires
        table_sorted(t),
        0 <= i < t.len(),
        0 <= j < t.len(),
        i != j,
    ensures
        !key_matches(t[i].key(), t[j].key()),
{
    if key_matches(t[i].key(), t[j].key()) {
        lemma_own_key_unique(t, j, i);
    }
}

/// In a sorted table, the probe made of a stored route's own path and
/// method matches that route and no other.
pub proof fn lemma_own_key_unique(t: Seq<Route>, i: int, j: int)
    requires
        table_sorted(t),
        0 <= i < t.len(),
        0 <= j < t.len(),
        key_matches(t[j].key(), t[i].key()),
    ensures
        j == i,
{
    if j != i {
        lemma_key_cmp_matches(t[j].key(), t[i].key());
        if j < i {
            assert(key_cmp(t[j].key(), t[i].key()) == Ordering::Less);
        } else {
            lemma_key_cmp_flip(t[i].key(), t[j].key());
        }
    }
}

} // verus!
