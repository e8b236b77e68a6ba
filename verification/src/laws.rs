//! The laws the resolver rests on, stated and proved over the spec functions
//! that the executable contracts use.

use vstd::prelude::*;

use crate::ip::ipv4_seq;
use crate::links::{best_in_row, best_link_spec, best_over, networks_of_spec};
use crate::machines::MachineEntry;
use crate::resolver::endpoint_for;

verus! {

/// Whether `t` names a linked pair of the product: a source network of
/// `src`, a destination network of `dst`, linked in `m` with priority `t.2`.
pub open spec fn is_product_link(
    m: Map<(Seq<char>, Seq<char>), int>,
    src: Seq<String>,
    dst: Seq<String>,
    t: (String, String, int),
) -> bool {
    (exists|i: int, j: int|
        0 <= i < src.len() && 0 <= j < dst.len() && src[i] == t.0 && dst[j] == t.1)
        && m.contains_key((t.0@, t.1@)) && m[(t.0@, t.1@)] == t.2
}

/// Whether no pair of the product is linked in `m`.
pub open spec fn no_product_link(
    m: Map<(Seq<char>, Seq<char>), int>,
    src: Seq<String>,
    dst: Seq<String>,
) -> bool {
    forall|i: int, j: int|
        0 <= i < src.len() && 0 <= j < dst.len() ==> !m.contains_key(
            (#[trigger] src[i]@, #[trigger] dst[j]@),
        )
}

/// What folding one row preserves: the fold returns the candidate or a
/// linked pair of the row, never worse than the candidate nor than any
/// linked pair of the row.
proof fn lemma_best_in_row_props(
    m: Map<(Seq<char>, Seq<char>), int>,
    acc: Option<(String, String, int)>,
    s: String,
    dst: Seq<String>,
)
    ensures
        (best_in_row(m, acc, s, dst) is None) == (acc is None && forall|j: int|
            0 <= j < dst.len() ==> !m.contains_key((s@, #[trigger] dst[j]@))),
        best_in_row(m, acc, s, dst) matches Some(t) ==> (acc == Some(t) || ((exists|j: int|
            0 <= j < dst.len() && dst[j] == t.1) && s == t.0 && m.contains_key((t.0@, t.1@)) && m[
            (t.0@, t.1@)
        ] == t.2)) && (acc matches Some(b) ==> t.2 <= b.2) && (forall|j: int|
            0 <= j < dst.len() && m.contains_key((s@, #[trigger] dst[j]@)) ==> m[(s@, dst[j]@)]
                >= t.2),
    decreases dst.len(),
{
    if dst.len() > 0 {
        lemma_best_in_row_props(m, acc, s, dst.drop_last());
        assert(forall|j: int| 0 <= j < dst.len() - 1 ==> #[trigger] dst[j] == dst.drop_last()[j]);
        assert(dst.last() == dst[dst.len() - 1]);
    }
}

/// What folding the whole product preserves.
proof fn lemma_best_over_props(
    m: Map<(Seq<char>, Seq<char>), int>,
    acc: Option<(String, String, int)>,
    src: Seq<String>,
    dst: Seq<String>,
)
    ensures
        (best_over(m, acc, src, dst) is None) == (acc is None && no_product_link(m, src, dst)),
        best_over(m, acc, src, dst) matches Some(t) ==> (acc == Some(t) || is_product_link(
            m,
            src,
            dst,
            t,
        )) && (acc matches Some(b) ==> t.2 <= b.2) && (forall|i: int, j: int|
            0 <= i < src.len() && 0 <= j < dst.len() && m.contains_key(
                (#[trigger] src[i]@, #[trigger] dst[j]@),
            ) ==> m[(src[i]@, dst[j]@)] >= t.2),
    decreases src.len(),
{
    if src.len() > 0 {
        lemma_best_over_props(m, acc, src.drop_last(), dst);
        lemma_best_in_row_props(m, best_over(m, acc, src.drop_last(), dst), src.last(), dst);
        assert(forall|i: int| 0 <= i < src.len() - 1 ==> #[trigger] src[i] == src.drop_last()[i]);
        assert(src.last() == src[src.len() - 1]);
    }
}

/// The best link is a linked pair of the product with the smallest priority
/// among all linked pairs, and there is none exactly when no pair of the
/// product is linked.
pub proof fn lemma_best_link_minimal(
    m: Map<(Seq<char>, Seq<char>), int>,
    src: Seq<String>,
    dst: Seq<String>,
)
    ensures
        (best_link_spec(m, src, dst) is None) == no_product_link(m, src, dst),
        best_link_spec(m, src, dst) matches Some(t) ==> is_product_link(m, src, dst, t) && (forall|
            i: int,
            j: int,
        |
            0 <= i < src.len() && 0 <= j < dst.len() && m.contains_key(
                (#[trigger] src[i]@, #[trigger] dst[j]@),
            ) ==> m[(src[i]@, dst[j]@)] >= t.2),
{
    lemma_best_over_props(m, None, src, dst);
}

/// The resolver's fallback: a machine sharing no linked network with the
/// source gets its WireGuard address and its machine-level port, and is
/// omitted when either is missing.
pub proof fn lemma_resolver_fallback(
    entry: MachineEntry,
    src_nets: Seq<String>,
    m: Map<(Seq<char>, Seq<char>), int>,
)
    requires
        no_product_link(m, src_nets, networks_of_spec(entry.addresses@)),
    ensures
        entry.machine.wireguard_ip matches Some(ip) ==> entry.machine.ssh_port matches Some(p)
            ==> endpoint_for(entry, src_nets, m) == Some(
            (entry.machine.hostname@, entry.machine.owner@, ipv4_seq(ip), p),
        ),
        entry.machine.wireguard_ip is None || entry.machine.ssh_port is None ==> endpoint_for(
            entry,
            src_nets,
            m,
        ) is None,
{
    lemma_best_link_minimal(m, src_nets, networks_of_spec(entry.addresses@));
}

} // verus!
