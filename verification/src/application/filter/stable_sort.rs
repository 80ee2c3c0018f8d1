//! Sorting the servers list, keeping the order of servers that tie.
use vstd::prelude::*;
use crate::application::filter::sort_servers::{
    SortCriterion, SortDirection, comes_before, lemma_precedes, precedes, ties,
};
use crate::application::server::Server;

verus! {

/// `sorted` is `servers` in a stable order: `origin` says where each of its
/// servers was, no server comes before one placed ahead of it, and servers
/// that tie keep their order.
pub open spec fn stable_sorting(
    servers: Seq<Server>,
    sorted: Seq<Server>,
    origin: Seq<int>,
    criterion: SortCriterion,
    direction: SortDirection,
) -> bool {
    &&& sorted.len() == servers.len()
    &&& origin.len() == servers.len()
    &&& forall|i: int| 0 <= i < origin.len() ==> 0 <= #[trigger] origin[i] < servers.len()
    &&& forall|i: int, j: int| 0 <= i < j < origin.len() ==> origin[i] != origin[j]
    &&& forall|i: int| 0 <= i < sorted.len() ==> #[trigger] sorted[i] == servers[origin[i]]
    &&& forall|i: int, j: int|
        0 <= i < j < sorted.len() ==> !precedes(criterion, direction, #[trigger] sorted[j], #[trigger] sorted[i])
    &&& forall|i: int, j: int|
        0 <= i < j < sorted.len() && ties(criterion, direction, #[trigger] sorted[i], #[trigger] sorted[j])
            ==> origin[i] < origin[j]
}

/// Where the first of the servers that nothing precedes is.
fn first_smallest(rest: &Vec<Server>, criterion: SortCriterion, direction: SortDirection) -> (best:
    usize)
    requires
        rest@.len() > 0,
    ensures
        best < rest@.len(),
        forall|t: int| 0 <= t < best ==> precedes(criterion, direction, rest@[best as int], #[trigger] rest@[t]),
        forall|t: int| best < t < rest@.len() ==> !precedes(criterion, direction, #[trigger] rest@[t], rest@[best as int]),
{
    let mut best: usize = 0;
    let mut k: usize = 1;
    while k < rest.len()
        invariant
            1 <= k <= rest@.len(),
            best < k,
            forall|t: int| 0 <= t < best ==> precedes(criterion, direction, rest@[best as int], #[trigger] rest@[t]),
            forall|t: int| best < t < k ==> !precedes(criterion, direction, #[trigger] rest@[t], rest@[best as int]),
        decreases rest@.len() - k,
    {
        if comes_before(criterion, direction, &rest[k], &rest[best]) {
            let ghost bo = rest@[best as int];
            let ghost nk = rest@[k as int];
            assert forall|t: int| 0 <= t < k implies precedes(criterion, direction, nk, #[trigger] rest@[t]) by {
                lemma_precedes(criterion, direction, nk, bo, rest@[t]);
            }
            best = k;
        }
        k = k + 1;
    }
    best
}

/// The servers in a stable order for the criterion and direction, as
/// `sort_by` with the comparison of the criterion orders them.
pub fn sorted_servers(servers: Vec<Server>, criterion: SortCriterion, direction: SortDirection) -> (sorted:
    Vec<Server>)
    ensures
        exists|origin: Seq<int>| stable_sorting(servers@, sorted@, origin, criterion, direction),
{
    let ghost all = servers@;
    let ghost n = servers@.len() as int;
    let mut rest = servers;
    let mut out: Vec<Server> = Vec::new();
    let ghost mut rest_origin: Seq<int> = Seq::new(n as nat, |i: int| i);
    let ghost mut out_origin: Seq<int> = Seq::empty();
    while rest.len() > 0
        invariant
            rest@.len() == rest_origin.len(),
            out@.len() == out_origin.len(),
            out@.len() + rest@.len() == n,
            n == all.len(),
            forall|i: int| 0 <= i < rest_origin.len() ==> 0 <= #[trigger] rest_origin[i] < n,
            forall|i: int| 0 <= i < out_origin.len() ==> 0 <= #[trigger] out_origin[i] < n,
            forall|i: int, j: int| 0 <= i < j < rest_origin.len() ==> rest_origin[i] < rest_origin[j],
            forall|i: int, j: int| 0 <= i < j < out_origin.len() ==> out_origin[i] != out_origin[j],
            forall|i: int, j: int|
                0 <= i < out_origin.len() && 0 <= j < rest_origin.len() ==> out_origin[i]
                    != rest_origin[j],
            forall|i: int| 0 <= i < rest@.len() ==> #[trigger] rest@[i] == all[rest_origin[i]],
            forall|i: int| 0 <= i < out@.len() ==> #[trigger] out@[i] == all[out_origin[i]],
            forall|i: int, j: int|
                0 <= i < j < out@.len() ==> !precedes(criterion, direction, #[trigger] out@[j], #[trigger] out@[i]),
            forall|i: int, j: int|
                0 <= i < j < out@.len() && ties(criterion, direction, #[trigger] out@[i], #[trigger] out@[j])
                    ==> out_origin[i] < out_origin[j],
            forall|i: int, j: int|
                0 <= i < out@.len() && 0 <= j < rest@.len() ==> !precedes(
                    criterion,
                    direction,
                    #[trigger] rest@[j],
                    #[trigger] out@[i],
                ),
            forall|i: int, j: int|
                0 <= i < out@.len() && 0 <= j < rest@.len() && ties(
                    criterion,
                    direction,
                    #[trigger] out@[i],
                    #[trigger] rest@[j],
                ) ==> out_origin[i] < rest_origin[j],
        decreases rest@.len(),
    {
        let best = first_smallest(&rest, criterion, direction);
        let ghost old_rest = rest@;
        let ghost old_out = out@;
        let ghost o = rest_origin[best as int];
        let m = rest.remove(best);
        out.push(m);
        proof {
            assert forall|j: int| 0 <= j < old_rest.len() && j != best implies !precedes(
                criterion,
                direction,
                #[trigger] old_rest[j],
                m,
            ) && (ties(criterion, direction, m, old_rest[j]) ==> o < rest_origin[j]) by {
                lemma_precedes(criterion, direction, m, old_rest[j], m);
            }
            rest_origin = rest_origin.remove(best as int);
            out_origin = out_origin.push(o);
            assert forall|i: int, j: int| 0 <= i < out@.len() && 0 <= j < rest@.len() implies !precedes(
                criterion,
                direction,
                #[trigger] rest@[j],
                #[trigger] out@[i],
            ) && (ties(criterion, direction, out@[i], rest@[j]) ==> out_origin[i] < rest_origin[j]) by {
                let oj = if j < best { j } else { j + 1 };
                assert(rest@[j] == old_rest[oj]);
                if i < old_out.len() {
                    assert(out@[i] == old_out[i]);
                }
            }
            assert forall|i: int, j: int| 0 <= i < j < out@.len() implies !precedes(
                criterion,
                direction,
                #[trigger] out@[j],
                #[trigger] out@[i],
            ) && (ties(criterion, direction, out@[i], out@[j]) ==> out_origin[i] < out_origin[j]) by {
                assert(out@[i] == old_out.push(m)[i]);
                assert(out@[j] == old_out.push(m)[j]);
                if j < old_out.len() {
                    assert(out@[j] == old_out[j]);
                }
            }
            assert forall|i: int| 0 <= i < rest@.len() implies #[trigger] rest@[i] == all[rest_origin[i]] by {
                let oi = if i < best { i } else { i + 1 };
                assert(rest@[i] == old_rest[oi]);
            }
        }
    }
    assert(stable_sorting(all, out@, out_origin, criterion, direction));
    out
}

} // verus!
