use vstd::prelude::*;

use crate::point::{flat_coords, flatten_terminals, Coord, Positioned};
use crate::topology::{
    check_spanning_tree, edges_in_range, int_edges, is_spanning_tree, lemma_spanning_tree_is_simple,
};

verus! {

/// Largest number of terminals the engine's integer counts and buffers can hold.
pub const MAX_TERMINALS: usize = 0x1fff_ffff;

/// The distance the engine minimises.
#[derive(Clone, Copy, Debug, PartialEq, Eq, Structural)]
pub enum Metric {
    Euclidean,
    Rectilinear,
}

/// Why a tree could not be had.
#[derive(Clone, Copy, Debug, PartialEq, Eq, Structural)]
pub enum SteinerError {
    /// The engine's open procedure returned this non-zero status; the engine
    /// cannot be used in this process.
    InitializationFailure { code: i32 },
    /// A tree construction call returned this non-zero status.
    EngineComputationFailure { code: i32 },
    /// The engine reported success, but its counts do not fit the buffers it was
    /// given or exceed the metric's bound on Steiner points, or its edges do not
    /// form a tree over the terminals and Steiner points.
    MalformedOutput,
}

/// Everything handed to one engine call: the terminals in the engine's flat
/// layout and the sizes of the zeroed output buffers to allocate.
pub struct EngineRequest {
    pub metric: Metric,
    pub terminal_count: usize,
    /// Terminal coordinates, `[x0, y0, x1, y1, ...]`.
    pub coords: Vec<Coord>,
    /// Length of the Steiner coordinate buffer, in coordinates.
    pub steiner_capacity: usize,
    /// Length of the edge buffer, in node indices.
    pub edge_capacity: usize,
}

/// What one engine call left behind: its status, the length it reported, and
/// the whole output buffers with the counts it wrote.
pub struct EngineOutput {
    pub status: i32,
    /// Total tree length, as binary64 bits.
    pub length: Coord,
    pub steiner_count: i32,
    pub steiner_coords: Vec<Coord>,
    pub edge_count: i32,
    pub edge_indices: Vec<i32>,
}

impl EngineRequest {
    /// The request is laid out as `plan_request` lays it out.
    pub open spec fn wf(&self) -> bool {
        &&& self.terminal_count <= MAX_TERMINALS
        &&& self.coords@.len() == 2 * self.terminal_count
        &&& self.steiner_capacity == steiner_capacity_for(self.terminal_count as nat)
        &&& self.edge_capacity == edge_capacity_for(self.terminal_count as nat)
    }
}

/// Coordinate slots for Steiner points: room for as many as there are terminals.
pub open spec fn steiner_capacity_for(n: nat) -> nat {
    2 * n
}

/// Index slots for edges, two per edge: room for four edges per terminal,
/// twice what a tree over the terminals and as many Steiner points can need,
/// so that degenerate inputs cannot overrun the buffer.
pub open spec fn edge_capacity_for(n: nat) -> nat {
    8 * n
}

/// Number of coordinate slots to allocate for the Steiner points of `n` terminals.
pub fn steiner_capacity(n: usize) -> (r: usize)
    requires
        n <= MAX_TERMINALS,
    ensures
        r == steiner_capacity_for(n as nat),
{
    2 * n
}

/// Number of index slots to allocate for the edges of a tree on `n` terminals.
pub fn edge_capacity(n: usize) -> (r: usize)
    requires
        n <= MAX_TERMINALS,
    ensures
        r == edge_capacity_for(n as nat),
{
    8 * n
}

/// Prepares the engine call for `metric` on `terminals`.
pub fn plan_request<P: Positioned>(metric: Metric, terminals: &[P]) -> (r: EngineRequest)
    requires
        terminals@.len() <= MAX_TERMINALS,
    ensures
        r.wf(),
        r.metric == metric,
        r.terminal_count == terminals@.len(),
        r.coords@ == flat_coords(terminals@),
{
    let n = terminals.len();
    EngineRequest {
        metric,
        terminal_count: n,
        coords: flatten_terminals(terminals),
        steiner_capacity: steiner_capacity(n),
        edge_capacity: edge_capacity(n),
    }
}

/// The Steiner points the engine reported, in its order.
pub open spec fn reported_steiner(out: &EngineOutput) -> Seq<(Coord, Coord)> {
    Seq::new(
        out.steiner_count as nat,
        |i: int| (out.steiner_coords@[2 * i], out.steiner_coords@[2 * i + 1]),
    )
}

/// The edges the engine reported, as pairs of node indices.
pub open spec fn reported_edges(out: &EngineOutput) -> Seq<(int, int)> {
    Seq::new(
        out.edge_count as nat,
        |i: int| (out.edge_indices@[2 * i] as int, out.edge_indices@[2 * i + 1] as int),
    )
}

/// Most Steiner points a tree on `n` terminals has: `n - 2` (none below two
/// terminals) in the Euclidean plane, and in the rectilinear one no more than
/// the terminals, which is what the Steiner buffer holds.
pub open spec fn max_steiner(metric: Metric, n: nat) -> nat {
    match metric {
        Metric::Euclidean => if n >= 2 { (n - 2) as nat } else { 0 },
        Metric::Rectilinear => n,
    }
}

/// The engine's counts fit the buffers it filled and the metric's bound on
/// Steiner points, and its edges form a tree over the `n` terminals followed
/// by the Steiner points it reported.
pub open spec fn output_well_formed(metric: Metric, n: nat, out: &EngineOutput) -> bool {
    &&& 0 <= out.steiner_count <= max_steiner(metric, n)
    &&& 2 * out.steiner_count <= out.steiner_coords@.len()
    &&& 0 <= out.edge_count
    &&& 2 * out.edge_count <= out.edge_indices@.len()
    &&& is_spanning_tree(n + out.steiner_count as nat, reported_edges(out))
}

/// What an engine call for `metric` on `n` terminals yields: its failure, a
/// rejection of its output, or the Steiner points and edges it reported.
pub open spec fn decoded(metric: Metric, n: nat, out: &EngineOutput) -> Result<(Seq<(Coord, Coord)>, Seq<(int, int)>), SteinerError> {
    if out.status != 0 {
        Err(SteinerError::EngineComputationFailure { code: out.status })
    } else if !output_well_formed(metric, n, out) {
        Err(SteinerError::MalformedOutput)
    } else {
        Ok((reported_steiner(out), reported_edges(out)))
    }
}

/// Reads the Steiner points and edges out of an engine call for `metric` on
/// `n` terminals, dropping what lies past the reported counts.
pub fn decode_output(metric: Metric, n: usize, out: &EngineOutput) -> (r: Result<(Vec<(Coord, Coord)>, Vec<(usize, usize)>), SteinerError>)
    requires
        n <= MAX_TERMINALS,
    ensures
        match (r, decoded(metric, n as nat, out)) {
            (Ok((s, e)), Ok((ds, de))) => s@ == ds && int_edges(e@) == de,
            (Err(a), Err(b)) => a == b,
            _ => false,
        },
{
    if out.status != 0 {
        return Err(SteinerError::EngineComputationFailure { code: out.status });
    }
    if out.steiner_count < 0 || out.edge_count < 0 {
        return Err(SteinerError::MalformedOutput);
    }
    let bound: usize = match metric {
        Metric::Euclidean => if n >= 2 { n - 2 } else { 0 },
        Metric::Rectilinear => n,
    };
    if out.steiner_count as usize > bound {
        return Err(SteinerError::MalformedOutput);
    }
    let k = out.steiner_count as usize;
    let m = out.edge_count as usize;
    if k > out.steiner_coords.len() / 2 || m > out.edge_indices.len() / 2 {
        return Err(SteinerError::MalformedOutput);
    }
    let total = n + k;
    let mut steiner: Vec<(Coord, Coord)> = Vec::with_capacity(k);
    let mut i: usize = 0;
    while i < k
        invariant
            0 <= i <= k,
            k == out.steiner_count,
            2 * k <= out.steiner_coords@.len(),
            steiner@.len() == i,
            forall|j: int| 0 <= j < i ==> #[trigger] steiner@[j] == reported_steiner(out)[j],
        decreases k - i,
    {
        steiner.push((out.steiner_coords[2 * i], out.steiner_coords[2 * i + 1]));
        i = i + 1;
    }
    assert(steiner@ =~= reported_steiner(out));
    let ghost raw = reported_edges(out);
    let mut edges: Vec<(usize, usize)> = Vec::with_capacity(m);
    let mut j: usize = 0;
    while j < m
        invariant
            0 <= j <= m,
            m == out.edge_count,
            2 * m <= out.edge_indices@.len(),
            raw == reported_edges(out),
            out.status == 0,
            k <= max_steiner(metric, n as nat),
            k == out.steiner_count,
            2 * k <= out.steiner_coords@.len(),
            steiner@ == reported_steiner(out),
            n <= MAX_TERMINALS,
            total == n + k,
            edges@.len() == j,
            forall|t: int| 0 <= t < j ==> #[trigger] int_edges(edges@)[t] == raw[t],
        decreases m - j,
    {
        let u = out.edge_indices[2 * j];
        let v = out.edge_indices[2 * j + 1];
        if u < 0 || v < 0 || u as usize >= total || v as usize >= total {
            proof {
                assert(raw[j as int] == (u as int, v as int));
                assert(0 <= j < raw.len());
                assert(!(0 <= raw[j as int].0 < total && 0 <= raw[j as int].1 < total));
                assert(!edges_in_range(total as nat, raw));
            }
            return Err(SteinerError::MalformedOutput);
        }
        let ghost before = edges@;
        edges.push((u as usize, v as usize));
        proof {
            assert forall|t: int| 0 <= t < j + 1 implies #[trigger] int_edges(edges@)[t] == raw[t] by {
                if t < j {
                    assert(edges@[t] == before[t]);
                    assert(int_edges(before)[t] == raw[t]);
                }
            }
        }
        j = j + 1;
    }
    assert(int_edges(edges@) =~= raw);
    if !check_spanning_tree(total, &edges) {
        return Err(SteinerError::MalformedOutput);
    }
    Ok((steiner, edges))
}

/// Every tree an engine call yields, over its `n` terminals and `k` Steiner
/// points, has `n + k - 1` edges (none when it has no point at all), each edge
/// end is an index below `n + k`, and `k` keeps within the metric's bound.
pub proof fn lemma_decoded_edges_fit(metric: Metric, n: nat, out: &EngineOutput)
    requires
        decoded(metric, n, out) is Ok,
    ensures
        ({
            let (s, e) = decoded(metric, n, out)->Ok_0;
            let total = n + s.len();
            &&& s.len() <= max_steiner(metric, n)
            &&& e.len() == if total == 0 { 0 } else { total - 1 }
            &&& forall|i: int|
                0 <= i < e.len() ==> 0 <= #[trigger] e[i].0 < total && 0 <= e[i].1 < total
        }),
{
}

/// Every tree an engine call yields is connected and acyclic over its
/// terminals and Steiner points, with no self-loop and no edge given twice.
pub proof fn lemma_decoded_is_simple_tree(metric: Metric, n: nat, out: &EngineOutput)
    requires
        decoded(metric, n, out) is Ok,
    ensures
        ({
            let (s, e) = decoded(metric, n, out)->Ok_0;
            &&& is_spanning_tree(n + s.len(), e)
            &&& forall|i: int| 0 <= i < e.len() ==> #[trigger] e[i].0 != e[i].1
            &&& forall|i: int, j: int|
                0 <= i < j < e.len() ==> !((#[trigger] e[i] == #[trigger] e[j]) || (e[i].0 == e[j].1
                    && e[i].1 == e[j].0))
        }),
{
    let (s, e) = decoded(metric, n, out)->Ok_0;
    lemma_spanning_tree_is_simple(n + s.len(), e);
}

} // verus!
