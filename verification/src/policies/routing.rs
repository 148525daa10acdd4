//! Routing policy: computing next hops from a network topology.

use vstd::prelude::*;

verus! {

broadcast use vstd::seq_lib::group_seq_lib_default, vstd::seq::group_seq_axioms, vstd::std_specs::vec::group_vec_axioms;

/// The links of the network: per node, its neighbors and their costs.
#[derive(Debug)]
pub struct NetworkTopology {
    /// Adjacency: one entry per node with an outgoing link.
    pub adjacency: Vec<(u64, Vec<(u64, u32)>)>,
}

impl NetworkTopology {
    /// An empty topology.
    pub fn new() -> (r: Self)
        ensures
            r.adjacency@.len() == 0,
    {
        NetworkTopology { adjacency: Vec::new() }
    }

    /// Records a directed link `from -> to` with the given cost.
    #[verifier::loop_isolation(false)]
    pub fn add_link(&mut self, from: u64, to: u64, cost: u32)
        ensures
            final(self).adjacency@.len() >= old(self).adjacency@.len(),
    {
        let n = self.adjacency.len();
        let mut i: usize = 0;
        while i < n
            invariant
                i <= n,
                n == self.adjacency@.len(),
                self.adjacency@.len() == old(self).adjacency@.len(),
            decreases n - i,
        {
            if self.adjacency[i].0 == from {
                let mut entry = self.adjacency.remove(i);
                entry.1.push((to, cost));
                self.adjacency.insert(i, entry);
                return ;
            }
            i = i + 1;
        }
        let mut links: Vec<(u64, u32)> = Vec::new();
        links.push((to, cost));
        self.adjacency.push((from, links));
    }

    /// The neighbors of `node` with their costs; empty when unknown.
    #[verifier::loop_isolation(false)]
    pub fn get_neighbors(&self, node: u64) -> (r: Vec<(u64, u32)>)
    {
        let n = self.adjacency.len();
        let mut i: usize = 0;
        while i < n
            invariant
                i <= n,
                n == self.adjacency@.len(),
            decreases n - i,
        {
            if self.adjacency[i].0 == node {
                return self.adjacency[i].1.clone();
            }
            i = i + 1;
        }
        Vec::new()
    }
}

impl Default for NetworkTopology {
    /// An empty topology.
    fn default() -> (r: Self)
        ensures
            r.adjacency@.len() == 0,
    {
        Self::new()
    }
}

/// A routing policy computes next hops from the topology.  Implementations
/// are supplied by the embedding process; [`ShortestPathRouting`] is the
/// default.
pub trait RoutingPolicy {
    /// The first hop on this policy's path from `src` to `dst`, if any.
    fn compute_next_hop(&self, src: u64, dst: u64, topology: &NetworkTopology) -> Option<u64>;

    /// Recomputes the policy's tables after a topology change.
    fn update(&mut self, topology: &NetworkTopology);

    /// The policy's name.
    fn name(&self) -> String;
}

/// Shortest paths by summed link cost, recomputed on every update.
#[derive(Debug)]
pub struct ShortestPathRouting {
    /// Computed table: `(src, dst)` to the first hop.
    pub routing_table: Vec<(u64, u64, u64)>,
}

impl ShortestPathRouting {
    /// A policy with an empty table; `update` fills it.
    pub fn new() -> (r: Self)
        ensures
            r.routing_table@.len() == 0,
    {
        ShortestPathRouting { routing_table: Vec::new() }
    }

    /// The shortest-path distances and first-hop predecessors from
    /// `source`, computed over the nodes of the topology.
    #[verifier::loop_isolation(false)]
    fn compute_from(&mut self, source: u64, topology: &NetworkTopology) {
        // Dijkstra's algorithm over association lists: `dist` holds the
        // settled and tentative distances, `prev` the tree edges.
        let mut unvisited: Vec<u64> = Vec::new();
        let n = topology.adjacency.len();
        let mut i: usize = 0;
        while i < n
            invariant
                i <= n,
                n == topology.adjacency@.len(),
            decreases n - i,
        {
            unvisited.push(topology.adjacency[i].0);
            i = i + 1;
        }
        let mut dist: Vec<(u64, u32)> = Vec::new();
        dist.push((source, 0));
        let mut prev: Vec<(u64, u64)> = Vec::new();
        while unvisited.len() > 0
            decreases unvisited@.len(),
        {
            // The unvisited node with the smallest tentative distance.
            let mut best_idx: usize = 0;
            let mut best_dist: u32 = u32::MAX;
            let m = unvisited.len();
            let mut k: usize = 0;
            while k < m
                invariant
                    k <= m,
                    m == unvisited@.len(),
                    m > 0,
                    best_idx < m,
                decreases m - k,
            {
                let d = assoc_get_u32(&dist, unvisited[k]);
                if d < best_dist {
                    best_dist = d;
                    best_idx = k;
                }
                k = k + 1;
            }
            let current = unvisited.remove(best_idx);
            if best_dist == u32::MAX {
                break ;
            }
            let neighbors = topology.get_neighbors(current);
            let mut j: usize = 0;
            while j < neighbors.len()
                invariant
                    j <= neighbors@.len(),
                decreases neighbors@.len() - j,
            {
                let neighbor = neighbors[j].0;
                let cost = neighbors[j].1;
                let new_dist = if best_dist <= u32::MAX - cost {
                    best_dist + cost
                } else {
                    u32::MAX
                };
                let old_dist = assoc_get_u32(&dist, neighbor);
                if new_dist < old_dist {
                    assoc_set_u32(&mut dist, neighbor, new_dist);
                    assoc_set_u64(&mut prev, neighbor, current);
                }
                j = j + 1;
            }
        }
        // Walk the tree edges back to find each destination's first hop.
        let mut d: usize = 0;
        while d < dist.len()
            invariant
                d <= dist@.len(),
            decreases dist@.len() - d,
        {
            let dest = dist[d].0;
            if dest != source {
                let mut node = dest;
                let mut steps: usize = 0;
                let bound = prev.len();
                while steps < bound
                    invariant
                        steps <= bound,
                    decreases bound - steps,
                {
                    match assoc_get_u64(&prev, node) {
                        None => {
                            break ;
                        },
                        Some(pr) => {
                            if pr == source {
                                self.routing_table.push((source, dest, node));
                                break ;
                            }
                            node = pr;
                        },
                    }
                    steps = steps + 1;
                }
            }
            d = d + 1;
        }
    }
}

/// The value for `key` in a `(key, distance)` list, `u32::MAX` when absent.
#[verifier::loop_isolation(false)]
fn assoc_get_u32(list: &Vec<(u64, u32)>, key: u64) -> (r: u32) {
    let n = list.len();
    let mut i: usize = 0;
    while i < n
        invariant
            i <= n,
            n == list@.len(),
        decreases n - i,
    {
        if list[i].0 == key {
            return list[i].1;
        }
        i = i + 1;
    }
    u32::MAX
}

/// Upserts `key` in a `(key, distance)` list.
#[verifier::loop_isolation(false)]
fn assoc_set_u32(list: &mut Vec<(u64, u32)>, key: u64, value: u32) {
    let n = list.len();
    let mut i: usize = 0;
    while i < n
        invariant
            i <= n,
            n == list@.len(),
            list@.len() == old(list)@.len(),
        decreases n - i,
    {
        if list[i].0 == key {
            list.set(i, (key, value));
            return ;
        }
        i = i + 1;
    }
    list.push((key, value));
}

/// The value for `key` in a `(key, node)` list.
#[verifier::loop_isolation(false)]
fn assoc_get_u64(list: &Vec<(u64, u64)>, key: u64) -> (r: Option<u64>) {
    let n = list.len();
    let mut i: usize = 0;
    while i < n
        invariant
            i <= n,
            n == list@.len(),
        decreases n - i,
    {
        if list[i].0 == key {
            return Some(list[i].1);
        }
        i = i + 1;
    }
    None
}

/// Upserts `key` in a `(key, node)` list.
#[verifier::loop_isolation(false)]
fn assoc_set_u64(list: &mut Vec<(u64, u64)>, key: u64, value: u64) {
    let n = list.len();
    let mut i: usize = 0;
    while i < n
        invariant
            i <= n,
            n == list@.len(),
            list@.len() == old(list)@.len(),
        decreases n - i,
    {
        if list[i].0 == key {
            list.set(i, (key, value));
            return ;
        }
        i = i + 1;
    }
    list.push((key, value));
}

impl Default for ShortestPathRouting {
    /// A policy with an empty table.
    fn default() -> (r: Self)
        ensures
            r.routing_table@.len() == 0,
    {
        Self::new()
    }
}

impl RoutingPolicy for ShortestPathRouting {
    #[verifier::loop_isolation(false)]
    fn compute_next_hop(&self, src: u64, dst: u64, topology: &NetworkTopology) -> Option<u64> {
        let n = self.routing_table.len();
        let mut i: usize = 0;
        while i < n
            invariant
                i <= n,
                n == self.routing_table@.len(),
            decreases n - i,
        {
            if self.routing_table[i].0 == src && self.routing_table[i].1 == dst {
                return Some(self.routing_table[i].2);
            }
            i = i + 1;
        }
        None
    }

    #[verifier::loop_isolation(false)]
    fn update(&mut self, topology: &NetworkTopology) {
        self.routing_table = Vec::new();
        let n = topology.adjacency.len();
        let mut i: usize = 0;
        while i < n
            invariant
                i <= n,
                n == topology.adjacency@.len(),
            decreases n - i,
        {
            let source = topology.adjacency[i].0;
            self.compute_from(source, topology);
            i = i + 1;
        }
    }

    fn name(&self) -> String {
        let mut s = String::new();
        s.append("ShortestPath");
        s
    }
}

} // verus!
