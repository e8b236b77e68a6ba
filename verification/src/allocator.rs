//! The WireGuard address allocator: a deterministic exhaustive scan of a
//! bounded IPv4 range for an address no machine holds yet.

use vstd::prelude::*;

use crate::errors::Error;
use crate::ip::{lemma_num_injective, Ipv4};

verus! {

/// Whether some existing address has counter value `m`.
pub open spec fn assigned(existing: Seq<Ipv4>, m: int) -> bool {
    exists|k: int| 0 <= k < existing.len() && #[trigger] existing[k].num() == m
}

/// The last counter value the scan considers. The scan starts at `start` and
/// stops after checking `end`; when `end` lies below `start` it is never
/// reached, and the scan runs to the top of the address space.
pub open spec fn scan_end(start: Ipv4, end: Ipv4) -> int {
    if start.num() <= end.num() {
        end.num()
    } else {
        0xFFFFFFFF
    }
}

/// The first unassigned counter value in `[m, last]`, if any.
pub open spec fn first_free_from(existing: Seq<Ipv4>, m: int, last: int) -> Option<int>
    decreases last + 1 - m,
{
    if m > last {
        None
    } else if !assigned(existing, m) {
        Some(m)
    } else {
        first_free_from(existing, m + 1, last)
    }
}

/// If everything below `f` in the interval is assigned and `f` is free,
/// the scan finds `f`.
proof fn lemma_first_free_is(existing: Seq<Ipv4>, m: int, last: int, f: int)
    requires
        m <= f <= last,
        !assigned(existing, f),
        forall|j: int| m <= j < f ==> assigned(existing, j),
    ensures
        first_free_from(existing, m, last) == Some(f),
    decreases f - m,
{
    if m < f {
        lemma_first_free_is(existing, m + 1, last, f);
    }
}

/// A fully assigned interval has no free value.
proof fn lemma_first_free_none(existing: Seq<Ipv4>, m: int, last: int)
    requires
        forall|j: int| m <= j <= last ==> assigned(existing, j),
    ensures
        first_free_from(existing, m, last) is None,
    decreases last + 1 - m,
{
    if m <= last {
        lemma_first_free_none(existing, m + 1, last);
    }
}

/// Whether any existing address equals `x`.
fn contains_ip(existing: &Vec<Ipv4>, x: Ipv4) -> (r: bool)
    ensures
        r == assigned(existing@, x.num()),
{
    let mut i: usize = 0;
    while i < existing.len()
        invariant
            i <= existing@.len(),
            forall|k: int| 0 <= k < i ==> #[trigger] existing@[k].num() != x.num(),
        decreases existing@.len() - i,
    {
        if existing[i] == x {
            return true;
        }
        proof {
            if existing@[i as int].num() == x.num() {
                lemma_num_injective(existing@[i as int], x);
            }
        }
        i += 1;
    }
    false
}

/// Finds the first address in `[start, end]` not assigned to any machine,
/// scanning upward from `start`; the scan stops after checking `end`, so a
/// range whose `end` lies below `start` runs to the top of the address
/// space. Fails naming the configured bounds when every candidate is taken.
pub fn find_unused_ip(existing: &Vec<Ipv4>, start: Ipv4, end: Ipv4) -> (r: Result<Ipv4, Error>)
    ensures
        (r is Ok) == (first_free_from(existing@, start.num(), scan_end(start, end)) is Some),
        r matches Ok(ip) ==> first_free_from(existing@, start.num(), scan_end(start, end))
            == Some(ip.num()) && start.num() <= ip.num() <= scan_end(start, end) && !assigned(
            existing@,
            ip.num(),
        ) && (forall|j: int| start.num() <= j < ip.num() ==> assigned(existing@, j)),
        r matches Err(e) ==> (e matches Error::NoWireGuardAddressAvailable {
            start: s,
            end: e2,
        } && s == start && e2 == end) && (forall|j: int|
            start.num() <= j <= scan_end(start, end) ==> assigned(existing@, j)),
{
    let mut cur = start;
    loop
        invariant
            start.num() <= cur.num() <= scan_end(start, end),
            forall|j: int| start.num() <= j < cur.num() ==> assigned(existing@, j),
        decreases scan_end(start, end) - cur.num(),
    {
        if !contains_ip(existing, cur) {
            proof {
                lemma_first_free_is(existing@, start.num(), scan_end(start, end), cur.num());
            }
            return Ok(cur);
        }
        if cur == end {
            proof {
                assert(cur.num() == scan_end(start, end));
                lemma_first_free_none(existing@, start.num(), scan_end(start, end));
            }
            return Err(Error::NoWireGuardAddressAvailable { start, end });
        }
        proof {
            if cur.num() == end.num() {
                lemma_num_injective(cur, end);
            }
        }
        match cur.increment() {
            Some(next) => {
                cur = next;
            },
            None => {
                proof {
                    assert(cur.num() == 0xFFFFFFFF);
                    assert(cur.num() == scan_end(start, end));
                    lemma_first_free_none(existing@, start.num(), scan_end(start, end));
                }
                return Err(Error::NoWireGuardAddressAvailable { start, end });
            },
        }
    }
}

} // verus!
