use engine::terrain_stream::{order_by_distance, ring_by_columns, ring_by_rows, TerrainStream};

// Background builds are simulated: every column a frame starts building has
// finished by the next frame.

#[test]
fn terrain_stream_budgets_main_thread_work() {
    // Tiny upload budget so one sync cannot push the whole ring.
    let mut stream = TerrainStream::new(2).with_budgets(8, 1);
    let focus = (0, 0);

    let mut plan = stream.sync(focus, &Vec::new());
    // Focus chunk is forced in; at most one extra upload same frame.
    assert_eq!(plan.build_now, Some(focus));
    assert!(stream.loaded_count() <= 2);
    assert!(stream.loaded_count() >= 1);
    assert_eq!(plan.start.len(), 8);

    let mut frames = 0;
    while stream.loaded_count() < 25 && frames < 1000 {
        let arrived = plan.start.clone();
        plan = stream.sync(focus, &arrived);
        assert!(plan.upload.len() <= 1);
        assert!(plan.start.len() <= 8);
        frames += 1;
    }
    assert_eq!(stream.loaded_count(), 25, "ring should fill asynchronously");
}

#[test]
fn jobs_start_nearest_first() {
    let mut stream = TerrainStream::new(1).with_budgets(4, 1);
    let plan = stream.sync((10, -3), &Vec::new());
    assert_eq!(plan.build_now, Some((10, -3)));
    // The four columns one step away, in ring order (z outer, x inner).
    assert_eq!(plan.start, vec![(10, -4), (9, -3), (11, -3), (10, -2)]);
    assert_eq!(stream.pending_count(), 4);
    let plan = stream.sync((10, -3), &vec![(10, -2), (9, -3)]);
    assert_eq!(plan.build_now, None);
    // Both arrived one step away; the one that arrived first goes up first.
    assert_eq!(plan.upload, vec![0]);
    assert_eq!(plan.keep, vec![1]);
    // The column still queued is neither loaded nor building, so it is
    // started again, nearest first.
    assert_eq!(plan.start, vec![(9, -3), (9, -4), (11, -4), (9, -2)]);
    assert_eq!(stream.loaded_count(), 2);
}

#[test]
fn moving_away_clears_stale_columns() {
    let mut stream = TerrainStream::new(1);
    let plan = stream.sync_blocking((0, 0));
    assert!(plan.stale.is_empty());
    assert_eq!(plan.build.len(), 9);
    assert_eq!(plan.build[0], (-1, -1));
    assert_eq!(plan.build[1], (-1, 0));
    assert_eq!(stream.loaded_count(), 9);
    let plan = stream.sync_blocking((2, 0));
    assert_eq!(plan.stale, vec![(-1, -1), (-1, 0), (-1, 1), (0, -1), (0, 0), (0, 1)]);
    assert_eq!(plan.build, vec![(2, -1), (2, 0), (2, 1), (3, -1), (3, 0), (3, 1)]);
    assert_eq!(stream.loaded_count(), 9);
    assert_eq!(stream.pending_count(), 0);
}

#[test]
fn a_radius_below_one_is_raised_and_budgets_below_one_too() {
    let s = TerrainStream::new(-4).with_budgets(0, 0);
    assert_eq!(s.radius(), 1);
    assert_eq!(s.max_jobs_per_frame(), 1);
    assert_eq!(s.max_uploads_per_frame(), 1);
    let d = TerrainStream::new(3);
    assert_eq!((d.max_jobs_per_frame(), d.max_uploads_per_frame()), (6, 2));
}

#[test]
fn ring_orders_and_distance_sort() {
    assert_eq!(ring_by_rows((0, 0), 1)[..3], [(-1, -1), (0, -1), (1, -1)]);
    assert_eq!(ring_by_columns((0, 0), 1)[..3], [(-1, -1), (-1, 0), (-1, 1)]);
    assert_eq!(ring_by_rows((5, 5), 0), vec![(5, 5)]);
    let keys = vec![(3, 0), (0, 1), (1, 0), (0, 0), (-1, 0)];
    assert_eq!(order_by_distance(&keys, (0, 0)), vec![3, 1, 2, 4, 0]);
}
