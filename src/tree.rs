use vstd::prelude::*;

use crate::engine::{
    decode_output, decoded, plan_request, EngineOutput, EngineRequest, Metric, SteinerError,
    MAX_TERMINALS,
};
use crate::point::{flat_coords, Coord, FromSteiner, Positioned};
use crate::topology::int_edges;

verus! {

#[derive(Debug)]
/// A Steiner tree over terminals that the caller keeps: its Steiner points, its
/// edges and its length. An edge end below the number of terminals names a
/// terminal; one at or above it names the Steiner point at the offset past them.
pub struct SteinerTree {
    pub steiner_points: Vec<[Coord; 2]>,
    pub edges: Vec<[usize; 2]>,
    /// Total edge length in the tree's metric, as binary64 bits.
    pub length: Coord,
}

impl SteinerTree {
    pub open spec fn steiner_view(&self) -> Seq<(Coord, Coord)> {
        Seq::new(
            self.steiner_points@.len(),
            |i: int| (self.steiner_points@[i]@[0], self.steiner_points@[i]@[1]),
        )
    }

    pub open spec fn edge_view(&self) -> Seq<(int, int)> {
        Seq::new(
            self.edges@.len(),
            |i: int| (self.edges@[i]@[0] as int, self.edges@[i]@[1] as int),
        )
    }
}

#[derive(Debug)]
/// A Steiner tree that holds its terminals, in input order, followed by its
/// Steiner points; edges index into that sequence.
pub struct EuclideanTree<T: Positioned> {
    pub points: Vec<T>,
    pub edges: Vec<(usize, usize)>,
    /// Total edge length, as binary64 bits.
    pub length: Coord,
}

impl<T: Positioned> EuclideanTree<T> {
    pub open spec fn point_view(&self) -> Seq<(Coord, Coord)> {
        Seq::new(self.points@.len(), |i: int| (self.points@[i].spec_x(), self.points@[i].spec_y()))
    }
}

/// Pairs of a flat coordinate buffer `[x0, y0, x1, y1, ...]`.
pub open spec fn coord_pairs(coords: Seq<Coord>) -> Seq<(Coord, Coord)> {
    Seq::new(coords.len() / 2, |i: int| (coords[2 * i], coords[2 * i + 1]))
}

/// Turns an engine call's output into a tree that leaves the terminals to the caller.
pub fn reconstruct_tree(request: &EngineRequest, output: &EngineOutput) -> (r: Result<SteinerTree, SteinerError>)
    requires
        request.wf(),
    ensures
        match (r, decoded(request.metric, request.terminal_count as nat, output)) {
            (Ok(t), Ok((s, e))) => t.steiner_view() == s && t.edge_view() == e && t.length
                == output.length,
            (Err(a), Err(b)) => a == b,
            _ => false,
        },
{
    let (steiner, edges) = match decode_output(request.metric, request.terminal_count, output) {
        Ok(d) => d,
        Err(e) => {
            return Err(e);
        },
    };
    let ghost s = steiner@;
    let ghost e = int_edges(edges@);
    let mut steiner_points: Vec<[Coord; 2]> = Vec::with_capacity(steiner.len());
    let mut i: usize = 0;
    while i < steiner.len()
        invariant
            0 <= i <= steiner@.len(),
            s == steiner@,
            steiner_points@.len() == i,
            forall|j: int|
                0 <= j < i ==> (#[trigger] steiner_points@[j])@[0] == s[j].0
                    && steiner_points@[j]@[1] == s[j].1,
        decreases steiner@.len() - i,
    {
        let (x, y) = steiner[i];
        steiner_points.push([x, y]);
        i = i + 1;
    }
    let mut pairs: Vec<[usize; 2]> = Vec::with_capacity(edges.len());
    let mut j: usize = 0;
    while j < edges.len()
        invariant
            0 <= j <= edges@.len(),
            e == int_edges(edges@),
            pairs@.len() == j,
            forall|t: int|
                0 <= t < j ==> (#[trigger] pairs@[t])@[0] as int == e[t].0 && pairs@[t]@[1] as int
                    == e[t].1,
        decreases edges@.len() - j,
    {
        let (u, v) = edges[j];
        pairs.push([u, v]);
        j = j + 1;
    }
    let t = SteinerTree { steiner_points, edges: pairs, length: output.length };
    assert(t.steiner_view() =~= s);
    assert(t.edge_view() =~= e);
    Ok(t)
}

/// A handle to an opened engine: holding one shows the engine's open procedure
/// succeeded.
#[derive(Clone, Copy, Debug)]
pub struct Gst(());

impl Gst {
    /// The handle for an engine whose open procedure returned `open_status`.
    pub fn new(open_status: i32) -> (r: Result<Gst, SteinerError>)
        ensures
            open_status == 0 <==> r is Ok,
            open_status != 0 ==> r == Err::<Gst, SteinerError>(
                SteinerError::InitializationFailure { code: open_status },
            ),
    {
        if open_status == 0 {
            Ok(Gst(()))
        } else {
            Err(SteinerError::InitializationFailure { code: open_status })
        }
    }

    /// Prepares a Euclidean engine call on `terminals`.
    pub fn esmt_request<P: Positioned>(self, terminals: &[P]) -> (r: EngineRequest)
        requires
            terminals@.len() <= MAX_TERMINALS,
        ensures
            r.wf(),
            r.metric == Metric::Euclidean,
            r.terminal_count == terminals@.len(),
            r.coords@ == flat_coords(terminals@),
    {
        plan_request(Metric::Euclidean, terminals)
    }

    /// Builds the tree of an engine call: the terminals of `request` in their
    /// order, then the Steiner points the engine reported.
    pub fn esmt<T: FromSteiner>(self, request: &EngineRequest, output: &EngineOutput) -> (r: Result<EuclideanTree<T>, SteinerError>)
        requires
            request.wf(),
        ensures
            match (r, decoded(request.metric, request.terminal_count as nat, output)) {
                (Ok(t), Ok((s, e))) => t.point_view() == coord_pairs(request.coords@) + s
                    && int_edges(t.edges@) == e && t.length == output.length,
                (Err(a), Err(b)) => a == b,
                _ => false,
            },
    {
        let (steiner, edges) = match decode_output(request.metric, request.terminal_count, output) {
            Ok(d) => d,
            Err(e) => {
                return Err(e);
            },
        };
        let n = request.terminal_count;
        assert(steiner@.len() == output.steiner_count);
        let ghost terms = coord_pairs(request.coords@);
        let ghost want = terms + steiner@;
        let mut points: Vec<T> = Vec::with_capacity(n + steiner.len());
        let mut i: usize = 0;
        while i < n
            invariant
                0 <= i <= n,
                n == request.terminal_count,
                n <= MAX_TERMINALS,
                request.coords@.len() == 2 * n,
                terms == coord_pairs(request.coords@),
                points@.len() == i,
                forall|j: int|
                    0 <= j < i ==> (#[trigger] points@[j]).spec_x() == terms[j].0
                        && points@[j].spec_y() == terms[j].1,
            decreases n - i,
        {
            points.push(T::from_terminal(request.coords[2 * i], request.coords[2 * i + 1]));
            i = i + 1;
        }
        let mut k: usize = 0;
        while k < steiner.len()
            invariant
                0 <= k <= steiner@.len(),
                terms.len() == n,
                want == terms + steiner@,
                points@.len() == n + k,
                forall|j: int|
                    0 <= j < n + k ==> (#[trigger] points@[j]).spec_x() == want[j].0
                        && points@[j].spec_y() == want[j].1,
            decreases steiner@.len() - k,
        {
            let (x, y) = steiner[k];
            points.push(T::from_steiner(x, y));
            k = k + 1;
        }
        let t = EuclideanTree { points, edges, length: output.length };
        assert(t.point_view() =~= want);
        Ok(t)
    }
}

} // verus!
