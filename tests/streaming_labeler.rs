use lob_labeler::event_time::{due_key, time_key};
use lob_labeler::label::Label;
use lob_labeler::labeler::StreamingLabeler;

/// Feeds `(ts_ms, mid)` rows with a horizon in seconds; returns, for each
/// released row, its index and the index of the row that released it.
fn run(rows: &[(f64, f64)], horizon_sec: f64) -> Vec<(usize, usize)> {
    let mut q: StreamingLabeler<usize> = StreamingLabeler::new();
    let mut out = Vec::new();
    for (j, &(ts, _)) in rows.iter().enumerate() {
        let now = time_key(ts.to_bits());
        let due = due_key((ts + horizon_sec * 1000.0).to_bits());
        for i in q.push(j, now, due) {
            out.push((i, j));
        }
    }
    out
}

/// The first later row whose time reaches `ts_i + H*1000`, found by search.
fn first_reaching(rows: &[(f64, f64)], i: usize, horizon_sec: f64) -> Option<usize> {
    let due = rows[i].0 + horizon_sec * 1000.0;
    (i + 1..rows.len()).find(|&j| rows[j].0 >= due)
}

#[test]
fn each_row_is_labeled_by_first_row_reaching_its_horizon() {
    let ts = [0.0, 100.0, 250.0, 900.0, 1000.0, 1100.0, 1240.0, 2500.0, 2600.0, 3000.0];
    let rows: Vec<(f64, f64)> = ts.iter().map(|&t| (t, 1.0)).collect();
    let got = run(&rows, 1.0);
    let mut want = Vec::new();
    for i in 0..rows.len() {
        if let Some(j) = first_reaching(&rows, i, 1.0) {
            want.push((i, j));
        }
    }
    assert_eq!(got, want);
    assert_eq!(
        got,
        vec![(0, 4), (1, 5), (2, 7), (3, 7), (4, 7), (5, 7), (6, 7)]
    );
}

#[test]
fn tail_rows_are_dropped() {
    let rows = [(0.0, 1.0), (500.0, 1.0), (999.0, 1.0)];
    assert!(run(&rows, 1.0).is_empty());
}

#[test]
fn empty_stream_releases_nothing() {
    assert!(run(&[], 1.0).is_empty());
}

#[test]
fn zero_horizon_uses_next_row() {
    let rows = [(0.0, 1.0), (10.0, 1.0), (20.0, 1.0)];
    assert_eq!(run(&rows, 0.0), vec![(0, 1), (1, 2)]);
}

#[test]
fn equal_timestamps_release_together() {
    let rows = [(0.0, 1.0), (0.0, 1.0), (1000.0, 1.0), (1000.0, 1.0)];
    assert_eq!(run(&rows, 1.0), vec![(0, 2), (1, 2)]);
}

#[test]
fn rerun_gives_identical_output() {
    let rows = [(0.0, 1.0), (300.0, 1.0), (1200.0, 1.0), (1500.0, 1.0), (2400.0, 1.0)];
    assert_eq!(run(&rows, 1.0), run(&rows, 1.0));
}

#[test]
fn two_row_stream_labels_first_row_up() {
    // Row 0: bid 100 x 10, ask 101 x 10 at 0 ms; row 1: bid 103 x 10, ask 104 x 10 at 1000 ms.
    let mid0 = 0.5 * (101.0f64 + 100.0);
    let rel0 = (101.0f64 - 100.0) / mid0;
    let mid1 = 0.5 * (104.0f64 + 103.0);
    let mut q: StreamingLabeler<(f64, f64)> = StreamingLabeler::new();
    let first = q.push((mid0, rel0), time_key(0.0f64.to_bits()), due_key(1000.0f64.to_bits()));
    assert!(first.is_empty());
    let released = q.push((mid1, 0.0), time_key(1000.0f64.to_bits()), due_key(2000.0f64.to_bits()));
    assert_eq!(released.len(), 1);
    let (mid_now, rel_now) = released[0];
    assert_eq!(mid_now, 100.5);
    let r = (mid1 - mid_now) / mid_now.max(1e-12);
    let eps = 3e-4f64.max(0.5 * rel_now + 2e-4);
    assert!((r - 0.029850746).abs() < 1e-8);
    assert!((eps - 0.005175).abs() < 1e-5);
    let label = Label::from_band(r > eps, r < -eps);
    assert_eq!(label.as_str(), "up");
}
