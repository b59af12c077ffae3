use lanegeom::test_utils::columns_from_rows;
use lanegeom::utils::BatchSink;
use lanegeom::utils::LoggedSink;
use lanegeom::utils::rotate_insert;
use lanegeom::utils::simd_permutations;

struct PairRecorder {
    pairs: Vec<(u32, u32)>,
}

impl BatchSink<u32> for PairRecorder {
    fn accept(&mut self, a: &Vec<Vec<u32>>, b: &Vec<Vec<u32>>) {
        self.pairs.push((a[0][0], b[0][0]));
    }
}

struct BatchRecorder {
    batches: Vec<(Vec<Vec<u32>>, Vec<Vec<u32>>)>,
}

impl BatchSink<u32> for BatchRecorder {
    fn accept(&mut self, a: &Vec<Vec<u32>>, b: &Vec<Vec<u32>>) {
        self.batches.push((a.clone(), b.clone()));
    }
}

#[test]
fn rotating_window_contents() {
    // The rotating register, fed a known sequence: the newest value enters
    // at lane zero, everything shifts one lane, the oldest leaves.
    let w: Vec<u32> = vec![0, 0, 0, 0];
    let w = rotate_insert(&w, 10);
    assert_eq!(w, vec![10, 0, 0, 0]);
    let w = rotate_insert(&w, 11);
    assert_eq!(w, vec![11, 10, 0, 0]);
    let w = rotate_insert(&w, 12);
    assert_eq!(w, vec![12, 11, 10, 0]);
    let w = rotate_insert(&w, 13);
    assert_eq!(w, vec![13, 12, 11, 10]);
    let w = rotate_insert(&w, 14);
    assert_eq!(w, vec![14, 13, 12, 11]);
}

#[test]
fn unit_lane_self_pair_coverage() {
    // Self-comparison at lane width one: exactly the n*(n-1)/2 unordered
    // pairs, each once, never an entity against itself.
    let n: u32 = 7;
    let table: Vec<Vec<u32>> = vec![(0..n).collect()];
    let mut rec = LoggedSink::new(PairRecorder { pairs: Vec::new() });
    simd_permutations(1, &table, &table, u32::MAX, true, &mut rec);
    let pairs = rec.sink.pairs;
    assert_eq!(pairs.len(), (n * (n - 1) / 2) as usize);
    for &(x, y) in pairs.iter() {
        assert!(x < y && y < n);
    }
    for x in 0..n {
        for y in (x + 1)..n {
            assert!(pairs.contains(&(x, y)));
        }
    }
}

#[test]
fn padding_lanes_hold_pad_value() {
    // A table whose length is not a multiple of the lane width: the tail
    // chunk's extra lanes hold the pad value and nothing else, and the
    // enumeration completes without fault.
    let a: Vec<Vec<u32>> = vec![vec![1, 2, 3, 4, 5]];
    let b: Vec<Vec<u32>> = vec![vec![6, 7, 8]];
    let mut rec = LoggedSink::new(BatchRecorder { batches: Vec::new() });
    simd_permutations(4, &a, &b, 999, false, &mut rec);
    // Two chunks of four lanes; three insertions plus three drain steps
    // for each.
    let batches = rec.sink.batches;
    assert_eq!(batches.len(), 12);
    for (batch_a, _) in batches.iter().take(6) {
        assert_eq!(batch_a[0], vec![1, 2, 3, 4]);
    }
    for (batch_a, _) in batches.iter().skip(6) {
        assert_eq!(batch_a[0], vec![5, 999, 999, 999]);
    }
}

#[test]
fn window_slides_through_b_entities() {
    let a: Vec<Vec<u32>> = vec![vec![1, 2]];
    let b: Vec<Vec<u32>> = vec![vec![6, 7, 8]];
    let mut rec = LoggedSink::new(BatchRecorder { batches: Vec::new() });
    simd_permutations(2, &a, &b, 0, false, &mut rec);
    // Three insertions and one drain step: the drain lets the last
    // entity reach the second lane before the window is dropped.
    let batches = rec.sink.batches;
    assert_eq!(batches.len(), 4);
    assert_eq!(batches[0].1[0], vec![6, 0]);
    assert_eq!(batches[1].1[0], vec![7, 6]);
    assert_eq!(batches[2].1[0], vec![8, 7]);
    assert_eq!(batches[3].1[0], vec![0, 8]);
}

#[test]
fn empty_tables_get_no_calls() {
    let empty: Vec<Vec<u32>> = vec![vec![]];
    let one: Vec<Vec<u32>> = vec![vec![1]];
    let mut rec = LoggedSink::new(PairRecorder { pairs: Vec::new() });
    simd_permutations(4, &empty, &one, 0, false, &mut rec);
    assert_eq!(rec.sink.pairs.len(), 0);
    simd_permutations(4, &one, &empty, 0, false, &mut rec);
    assert_eq!(rec.sink.pairs.len(), 0);
}

#[test]
fn columns_from_rows_transposes() {
    let rows: Vec<Vec<u32>> = vec![vec![1, 2, 3], vec![4, 5, 6]];
    let cols = columns_from_rows(&rows, 3);
    assert_eq!(cols, vec![vec![1, 4], vec![2, 5], vec![3, 6]]);
}

#[test]
fn wider_lanes_self_pair_coverage() {
    // Self-comparison at a lane width above one, with a length that is
    // not a multiple of it: the lanes that hold two real entities present
    // every unordered pair exactly once, always the lower entity on the A
    // side, never an entity against itself.
    let n: u32 = 7;
    let lanes: usize = 4;
    let table: Vec<Vec<u32>> = vec![(0..n).collect()];
    let mut rec = LoggedSink::new(BatchRecorder { batches: Vec::new() });
    simd_permutations(lanes, &table, &table, u32::MAX, true, &mut rec);
    let mut pairs: Vec<(u32, u32)> = Vec::new();
    for (a, b) in rec.sink.batches.iter() {
        for l in 0..lanes {
            let x = a[0][l];
            let y = b[0][l];
            if x < n && y < n {
                pairs.push((x, y));
            }
        }
    }
    assert_eq!(pairs.len(), (n * (n - 1) / 2) as usize);
    for &(x, y) in pairs.iter() {
        assert!(x < y && y < n);
    }
    for x in 0..n {
        for y in (x + 1)..n {
            assert!(pairs.contains(&(x, y)));
        }
    }
}

#[test]
fn wider_lanes_cross_pair_coverage() {
    // Two distinct tables at a lane width above one: the full ordered
    // pair space, each pair exactly once.
    let na: u32 = 5;
    let nb: u32 = 4;
    let lanes: usize = 3;
    let a: Vec<Vec<u32>> = vec![(0..na).collect()];
    let b: Vec<Vec<u32>> = vec![(100..100 + nb).collect()];
    let mut rec = LoggedSink::new(BatchRecorder { batches: Vec::new() });
    simd_permutations(lanes, &a, &b, u32::MAX, false, &mut rec);
    let mut pairs: Vec<(u32, u32)> = Vec::new();
    for (ba, bb) in rec.sink.batches.iter() {
        for l in 0..lanes {
            let x = ba[0][l];
            let y = bb[0][l];
            if x < na && y >= 100 && y < 100 + nb {
                pairs.push((x, y));
            }
        }
    }
    assert_eq!(pairs.len(), (na * nb) as usize);
    for x in 0..na {
        for y in 100..(100 + nb) {
            assert!(pairs.contains(&(x, y)));
        }
    }
}

#[test]
fn unit_lane_cross_pair_coverage() {
    // Two distinct tables at lane width one: the full ordered pair space,
    // each pair exactly once.
    let na: u32 = 5;
    let nb: u32 = 3;
    let a: Vec<Vec<u32>> = vec![(0..na).collect()];
    let b: Vec<Vec<u32>> = vec![(100..100 + nb).collect()];
    let mut rec = LoggedSink::new(PairRecorder { pairs: Vec::new() });
    simd_permutations(1, &a, &b, u32::MAX, false, &mut rec);
    assert_eq!(rec.sink.pairs.len(), (na * nb) as usize);
    for x in 0..na {
        for y in 100..(100 + nb) {
            assert!(rec.sink.pairs.contains(&(x, y)));
        }
    }
}
