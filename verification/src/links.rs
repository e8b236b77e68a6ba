//! The network priority graph: a directed, weighted map from pairs of
//! network names to a priority, and the "best link" query over it.

use vstd::prelude::*;

use crate::machines::MachineAddress;

verus! {

/// One directed link: traffic from `name` may reach `other_network`, with
/// the given preference (lower is better).
#[derive(Clone, Debug, PartialEq, Eq)]
pub struct NetworkLink {
    pub name: String,
    pub other_network: String,
    pub priority: i32,
}

/// The map the link rows denote; a later row for the same pair overrides an
/// earlier one.
pub open spec fn links_map(rows: Seq<NetworkLink>) -> Map<(Seq<char>, Seq<char>), int>
    decreases rows.len(),
{
    if rows.len() == 0 {
        Map::empty()
    } else {
        links_map(rows.drop_last()).insert(
            (rows.last().name@, rows.last().other_network@),
            rows.last().priority as int,
        )
    }
}

/// The priority graph, built once per resolution run from all link rows.
pub struct LinkMap {
    pub links: Vec<NetworkLink>,
}

impl View for LinkMap {
    type V = Map<(Seq<char>, Seq<char>), int>;

    open spec fn view(&self) -> Map<(Seq<char>, Seq<char>), int> {
        links_map(self.links@)
    }
}

/// An exec best-link choice, with its priority read as an integer.
pub open spec fn link_choice_view(o: Option<(String, String, i32)>) -> Option<(String, String, int)> {
    match o {
        None => None,
        Some(t) => Some((t.0, t.1, t.2 as int)),
    }
}

/// Folds one candidate network pair into the best found so far: a linked
/// pair replaces the candidate only when its priority is strictly smaller,
/// so of equally good pairs the earliest stays.
pub open spec fn better_link(
    m: Map<(Seq<char>, Seq<char>), int>,
    acc: Option<(String, String, int)>,
    s: String,
    d: String,
) -> Option<(String, String, int)> {
    if m.contains_key((s@, d@)) {
        let p = m[(s@, d@)];
        match acc {
            None => Some((s, d, p)),
            Some(b) => if p < b.2 {
                Some((s, d, p))
            } else {
                acc
            },
        }
    } else {
        acc
    }
}

/// Folds a whole row of the product, source network `s` against every
/// destination network in order.
pub open spec fn best_in_row(
    m: Map<(Seq<char>, Seq<char>), int>,
    acc: Option<(String, String, int)>,
    s: String,
    dst: Seq<String>,
) -> Option<(String, String, int)>
    decreases dst.len(),
{
    if dst.len() == 0 {
        acc
    } else {
        better_link(m, best_in_row(m, acc, s, dst.drop_last()), s, dst.last())
    }
}

/// Folds the whole product of source and destination networks, in row-major
/// order.
pub open spec fn best_over(
    m: Map<(Seq<char>, Seq<char>), int>,
    acc: Option<(String, String, int)>,
    src: Seq<String>,
    dst: Seq<String>,
) -> Option<(String, String, int)>
    decreases src.len(),
{
    if src.len() == 0 {
        acc
    } else {
        best_in_row(m, best_over(m, acc, src.drop_last(), dst), src.last(), dst)
    }
}

/// The best link of the product: the linked pair of smallest priority, ties
/// broken by the earliest pair in row-major product order.
pub open spec fn best_link_spec(
    m: Map<(Seq<char>, Seq<char>), int>,
    src: Seq<String>,
    dst: Seq<String>,
) -> Option<(String, String, int)> {
    best_over(m, None, src, dst)
}

impl LinkMap {
    pub fn new(rows: Vec<NetworkLink>) -> (r: LinkMap)
        ensures
            r@ == links_map(rows@),
    {
        LinkMap { links: rows }
    }

    /// The priority of the directed link from `name` to `other`, if linked.
    pub fn lookup(&self, name: &String, other: &String) -> (r: Option<i32>)
        ensures
            (r is Some) == self@.contains_key((name@, other@)),
            r matches Some(p) ==> self@[(name@, other@)] == p as int,
    {
        let mut found: Option<i32> = None;
        let mut i: usize = 0;
        while i < self.links.len()
            invariant
                i <= self.links@.len(),
                (found is Some) == links_map(self.links@.subrange(0, i as int)).contains_key(
                    (name@, other@),
                ),
                found matches Some(p) ==> links_map(self.links@.subrange(0, i as int))[
                    (name@, other@)
                ] == p as int,
            decreases self.links@.len() - i,
        {
            let row = &self.links[i];
            if row.name == *name && row.other_network == *other {
                found = Some(row.priority);
            }
            i += 1;
            proof {
                let pre = self.links@.subrange(0, i - 1);
                let now = self.links@.subrange(0, i as int);
                assert(now.drop_last() =~= pre);
                assert(now.last() == self.links@[i - 1]);
            }
        }
        proof {
            assert(self.links@.subrange(0, self.links@.len() as int) =~= self.links@);
        }
        found
    }

    /// The best link between any source network and any destination network:
    /// the linked pair with the numerically smallest priority, ties broken
    /// by the earliest pair in row-major order of the given lists.
    pub fn best_link(
        &self,
        source_networks: &Vec<String>,
        dest_networks: &Vec<String>,
    ) -> (r: Option<(String, String, i32)>)
        ensures
            link_choice_view(r) == best_link_spec(self@, source_networks@, dest_networks@),
    {
        let mut best: Option<(String, String, i32)> = None;
        let mut i: usize = 0;
        while i < source_networks.len()
            invariant
                i <= source_networks@.len(),
                link_choice_view(best) == best_over(
                    self@,
                    None,
                    source_networks@.subrange(0, i as int),
                    dest_networks@,
                ),
            decreases source_networks@.len() - i,
        {
            let mut j: usize = 0;
            while j < dest_networks.len()
                invariant
                    i < source_networks@.len(),
                    j <= dest_networks@.len(),
                    link_choice_view(best) == best_in_row(
                        self@,
                        best_over(self@, None, source_networks@.subrange(0, i as int), dest_networks@),
                        source_networks@[i as int],
                        dest_networks@.subrange(0, j as int),
                    ),
                decreases dest_networks@.len() - j,
            {
                match self.lookup(&source_networks[i], &dest_networks[j]) {
                    Some(p) => {
                        let take_it = match &best {
                            None => true,
                            Some(b) => p < b.2,
                        };
                        if take_it {
                            best = Some(
                                (source_networks[i].clone(), dest_networks[j].clone(), p),
                            );
                        }
                    },
                    None => {},
                }
                j += 1;
                proof {
                    let pre = dest_networks@.subrange(0, j - 1);
                    let now = dest_networks@.subrange(0, j as int);
                    assert(now.drop_last() =~= pre);
                    assert(now.last() == dest_networks@[j - 1]);
                }
            }
            i += 1;
            proof {
                let pre = source_networks@.subrange(0, i - 1);
                let now = source_networks@.subrange(0, i as int);
                assert(now.drop_last() =~= pre);
                assert(now.last() == source_networks@[i - 1]);
                assert(dest_networks@.subrange(0, dest_networks@.len() as int) =~= dest_networks@);
            }
        }
        proof {
            assert(source_networks@.subrange(0, source_networks@.len() as int)
                =~= source_networks@);
        }
        best
    }
}

/// The networks a machine has addresses in, in address order.
pub open spec fn networks_of_spec(addrs: Seq<MachineAddress>) -> Seq<String> {
    addrs.map_values(|a: MachineAddress| a.network)
}

/// Collects the networks a machine has addresses in.
pub fn networks_of(addrs: &Vec<MachineAddress>) -> (r: Vec<String>)
    ensures
        r@ == networks_of_spec(addrs@),
{
    let mut out: Vec<String> = Vec::new();
    let mut i: usize = 0;
    while i < addrs.len()
        invariant
            i <= addrs@.len(),
            out@ == networks_of_spec(addrs@.subrange(0, i as int)),
        decreases addrs@.len() - i,
    {
        out.push(addrs[i].network.clone());
        i += 1;
        proof {
            let pre = addrs@.subrange(0, i - 1);
            let now = addrs@.subrange(0, i as int);
            assert(networks_of_spec(now) =~= networks_of_spec(pre).push(addrs@[i - 1].network));
        }
    }
    proof {
        assert(addrs@.subrange(0, addrs@.len() as int) =~= addrs@);
        assert(networks_of_spec(addrs@.subrange(0, addrs@.len() as int)) =~= networks_of_spec(
            addrs@,
        ));
    }
    out
}

} // verus!
