use geosteiner::engine::{
    decode_output, edge_capacity, plan_request, steiner_capacity, MAX_TERMINALS,
};
use geosteiner::point::flatten_terminals;
use geosteiner::topology::check_spanning_tree;
use geosteiner::tree::reconstruct_tree;
use geosteiner::{EngineOutput, EuclideanTree, Gst, Metric, SteinerError, SteinerTree};

fn bits(p: &[[f64; 2]]) -> Vec<[u64; 2]> {
    p.iter().map(|c| [c[0].to_bits(), c[1].to_bits()]).collect()
}

fn flat(p: &[[f64; 2]]) -> Vec<u64> {
    p.iter().flat_map(|c| [c[0].to_bits(), c[1].to_bits()]).collect()
}

/// An engine output with buffers of the planned sizes, filled past the counts
/// with scratch values.
fn output(n: usize, length: f64, steiner: &[[f64; 2]], edges: &[[i32; 2]]) -> EngineOutput {
    let mut steiner_coords = vec![7.5f64.to_bits(); steiner_capacity(n)];
    for (i, c) in steiner.iter().enumerate() {
        steiner_coords[2 * i] = c[0].to_bits();
        steiner_coords[2 * i + 1] = c[1].to_bits();
    }
    let mut edge_indices = vec![99i32; edge_capacity(n)];
    for (i, e) in edges.iter().enumerate() {
        edge_indices[2 * i] = e[0];
        edge_indices[2 * i + 1] = e[1];
    }
    EngineOutput {
        status: 0,
        length: length.to_bits(),
        steiner_count: steiner.len() as i32,
        steiner_coords,
        edge_count: edges.len() as i32,
        edge_indices,
    }
}

fn tree_of(terminals: &[[f64; 2]], metric: Metric, out: &EngineOutput) -> Result<SteinerTree, SteinerError> {
    let request = plan_request(metric, &bits(terminals));
    reconstruct_tree(&request, out)
}

const SQUARE: [[f64; 2]; 4] = [[0.0, 0.0], [1.0, 0.0], [0.0, 1.0], [1.0, 1.0]];

#[test]
fn buffers_are_sized_from_the_terminal_count() {
    assert_eq!(steiner_capacity(0), 0);
    assert_eq!(edge_capacity(0), 0);
    assert_eq!(steiner_capacity(16), 32);
    assert_eq!(edge_capacity(16), 128);
    assert_eq!(edge_capacity(1), 8);
    assert_eq!(edge_capacity(MAX_TERMINALS), 8 * MAX_TERMINALS);
}

#[test]
fn request_keeps_terminal_order() {
    let terms = [[1.5, -2.0], [3.0, 4.25], [0.0, 9.0]];
    let request = plan_request(Metric::Rectilinear, &bits(&terms));
    assert_eq!(request.metric, Metric::Rectilinear);
    assert_eq!(request.terminal_count, 3);
    assert_eq!(request.coords, flat(&terms));
    assert_eq!(request.steiner_capacity, 6);
    assert_eq!(request.edge_capacity, 24);
}

#[test]
fn flatten_interleaves_coordinates() {
    let pts: Vec<(u64, u64)> = vec![(1, 2), (3, 4)];
    assert_eq!(flatten_terminals(&pts), vec![1, 2, 3, 4]);
    let none: Vec<(u64, u64)> = Vec::new();
    assert!(flatten_terminals(&none).is_empty());
}

#[test]
fn two_points_give_one_edge() {
    let terms = [[0.0, 0.0], [0.0, 1.0]];
    let esmt = tree_of(&terms, Metric::Euclidean, &output(2, 1.0, &[], &[[0, 1]])).unwrap();
    assert!(esmt.steiner_points.is_empty());
    assert_eq!(f64::from_bits(esmt.length), 1.0);
    assert_eq!([[0, 1]], esmt.edges.as_slice());
    let rsmt = tree_of(&terms, Metric::Rectilinear, &output(2, 1.0, &[], &[[0, 1]])).unwrap();
    assert_eq!(esmt.edges, rsmt.edges);
    assert_eq!(esmt.length, rsmt.length);
}

#[test]
fn square_with_two_steiner_points() {
    let s = 0.5 * (1.0 / 3.0f64.sqrt());
    let steiner = [[s, 0.5], [1.0 - s, 0.5]];
    let edges = [[0, 4], [2, 4], [4, 5], [5, 1], [5, 3]];
    let length = 1.0 + 3.0f64.sqrt();
    let tree = tree_of(&SQUARE, Metric::Euclidean, &output(4, length, &steiner, &edges)).unwrap();
    assert_eq!(tree.steiner_points, bits(&steiner));
    assert_eq!(tree.edges, vec![[0, 4], [2, 4], [4, 5], [5, 1], [5, 3]]);
    let l = f64::from_bits(tree.length);
    assert!(2.7320 < l && l < 2.7321);
}

#[test]
fn square_rectilinear_without_steiner_points() {
    let tree = tree_of(&SQUARE, Metric::Rectilinear, &output(4, 3.0, &[], &[[0, 1], [0, 2], [2, 3]])).unwrap();
    assert!(tree.steiner_points.is_empty());
    assert_eq!(tree.edges.len(), 3);
    assert_eq!(f64::from_bits(tree.length), 3.0);
}

#[test]
fn empty_and_single_inputs_give_trivial_trees() {
    let empty = tree_of(&[], Metric::Euclidean, &output(0, 0.0, &[], &[])).unwrap();
    assert!(empty.steiner_points.is_empty() && empty.edges.is_empty());
    let one = tree_of(&[[2.0, 3.0]], Metric::Euclidean, &output(1, 0.0, &[], &[])).unwrap();
    assert!(one.edges.is_empty());
    assert_eq!(f64::from_bits(one.length), 0.0);
}

#[test]
fn handle_tree_lists_terminals_then_steiner_points() {
    let gst = Gst::new(0).unwrap();
    let terms: Vec<(u64, u64)> = SQUARE.iter().map(|c| (c[0].to_bits(), c[1].to_bits())).collect();
    let request = gst.esmt_request(&terms);
    assert_eq!(request.metric, Metric::Euclidean);
    let steiner = [[0.25, 0.5], [0.75, 0.5]];
    let out = output(4, 2.75, &steiner, &[[0, 4], [2, 4], [4, 5], [5, 1], [5, 3]]);
    let tree: EuclideanTree<(u64, u64)> = gst.esmt(&request, &out).unwrap();
    assert_eq!(tree.points.len(), 6);
    assert_eq!(&tree.points[..4], terms.as_slice());
    assert_eq!(tree.points[4], (0.25f64.to_bits(), 0.5f64.to_bits()));
    assert_eq!(tree.points[5], (0.75f64.to_bits(), 0.5f64.to_bits()));
    assert_eq!(tree.edges, vec![(0, 4), (2, 4), (4, 5), (5, 1), (5, 3)]);
    assert_eq!(f64::from_bits(tree.length), 2.75);
}

#[test]
fn handle_needs_a_successful_open() {
    assert!(Gst::new(0).is_ok());
    assert_eq!(Gst::new(-3).unwrap_err(), SteinerError::InitializationFailure { code: -3 });
}

#[test]
fn engine_failure_is_reported_with_its_code() {
    let mut out = output(2, 1.0, &[], &[[0, 1]]);
    out.status = 5;
    let r = tree_of(&[[0.0, 0.0], [0.0, 1.0]], Metric::Euclidean, &out);
    assert_eq!(r.unwrap_err(), SteinerError::EngineComputationFailure { code: 5 });
}

#[test]
fn malformed_outputs_are_rejected() {
    let terms = [[0.0, 0.0], [1.0, 0.0], [0.0, 1.0]];
    let bad = |out: EngineOutput| {
        assert_eq!(tree_of(&terms, Metric::Euclidean, &out).unwrap_err(), SteinerError::MalformedOutput);
    };
    // an index past the last point
    bad(output(3, 2.0, &[], &[[0, 1], [1, 3]]));
    // a negative index
    bad(output(3, 2.0, &[], &[[0, 1], [-1, 2]]));
    // a cycle leaving a node out
    bad(output(3, 2.0, &[], &[[0, 1], [1, 0]]));
    // a self-loop
    bad(output(3, 2.0, &[], &[[0, 1], [2, 2]]));
    // too few edges
    bad(output(3, 2.0, &[], &[[0, 1]]));
    // too many edges
    bad(output(3, 2.0, &[], &[[0, 1], [1, 2], [2, 0]]));
    // a Steiner point nothing reaches
    bad(output(3, 2.0, &[[0.5, 0.5]], &[[0, 1], [1, 2]]));
    // counts that do not fit the buffers
    let mut out = output(3, 2.0, &[], &[[0, 1], [1, 2]]);
    out.steiner_count = 4;
    bad(out);
    let mut out = output(3, 2.0, &[], &[[0, 1], [1, 2]]);
    out.edge_count = 13;
    bad(out);
    let mut out = output(3, 2.0, &[], &[[0, 1], [1, 2]]);
    out.steiner_count = -1;
    bad(out);
}

#[test]
fn decode_drops_scratch_past_the_counts() {
    let out = output(3, 2.0, &[[0.5, 0.5]], &[[0, 3], [1, 3], [2, 3]]);
    let (steiner, edges) = decode_output(Metric::Euclidean, 3, &out).unwrap();
    assert_eq!(steiner, vec![(0.5f64.to_bits(), 0.5f64.to_bits())]);
    assert_eq!(edges, vec![(0, 3), (1, 3), (2, 3)]);
}

#[test]
fn grid_tree_shape_is_accepted() {
    let grid: Vec<[f64; 2]> = (0..4).flat_map(|x| (0..4).map(move |y| [x as f64, y as f64])).collect();
    // a path through the sixteen terminals, rectilinear, no Steiner point
    let edges: Vec<[i32; 2]> = (0..15).map(|i| [i, i + 1]).collect();
    let tree = tree_of(&grid, Metric::Rectilinear, &output(16, 15.0, &[], &edges)).unwrap();
    assert!(tree.steiner_points.is_empty());
    assert_eq!(tree.edges.len(), 15);
    assert_eq!(f64::from_bits(tree.length), 15.0);
}

#[test]
fn spanning_tree_check() {
    assert!(check_spanning_tree(0, &vec![]));
    assert!(check_spanning_tree(1, &vec![]));
    assert!(!check_spanning_tree(1, &vec![(0, 0)]));
    assert!(check_spanning_tree(4, &vec![(0, 1), (1, 2), (2, 3)]));
    assert!(check_spanning_tree(4, &vec![(3, 0), (1, 0), (0, 2)]));
    assert!(!check_spanning_tree(4, &vec![(0, 1), (1, 0), (2, 3)]));
    assert!(!check_spanning_tree(4, &vec![(0, 1), (1, 2), (2, 0)]));
    assert!(!check_spanning_tree(4, &vec![(0, 1), (2, 3)]));
    assert!(!check_spanning_tree(3, &vec![(0, 1), (1, 3)]));
}

#[test]
fn euclidean_steiner_count_is_bounded() {
    let terms = [[0.0, 0.0], [4.0, 0.0], [2.0, 3.0]];
    let steiner = [[1.0, 1.0], [2.0, 1.0]];
    let edges = [[0, 3], [3, 4], [4, 1], [4, 2]];
    let esmt = tree_of(&terms, Metric::Euclidean, &output(3, 9.0, &steiner, &edges));
    assert_eq!(esmt.unwrap_err(), SteinerError::MalformedOutput);
    let rsmt = tree_of(&terms, Metric::Rectilinear, &output(3, 9.0, &steiner, &edges)).unwrap();
    assert_eq!(rsmt.steiner_points.len(), 2);
    assert_eq!(rsmt.edges, vec![[0, 3], [3, 4], [4, 1], [4, 2]]);
}
