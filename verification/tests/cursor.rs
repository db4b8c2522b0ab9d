use broadcast_cursor::read_cursor::{Reader, ReadCursor, ReaderGroup};

fn advance(reader: &mut Reader, by: u32) {
    // Drain `by` items the way a consumer does: load, then commit, retrying
    // on benign contention.
    let mut attempt = reader.load_attempt();
    loop {
        match attempt.commit_attempt(reader, by) {
            None => return,
            Some(fresh) => attempt = fresh,
        }
    }
}

#[test]
fn single_consumer_commits_directly() {
    let mut arena: Vec<Reader> = Vec::new();
    let (_cursor, r0) = ReadCursor::new(8, &mut arena);
    assert_eq!(arena[r0].load_nread(), 0);
    assert_eq!(arena[r0].get_consumers(), 1);

    let a = arena[r0].load_attempt();
    assert_eq!(a.get(), (0, 0));
    assert!(a.commit_attempt(&mut arena[r0], 3).is_none());
    assert_eq!(arena[r0].load_nread(), 3);
}

#[test]
fn multi_consumer_commit_retries_when_stale() {
    let mut arena: Vec<Reader> = Vec::new();
    let (_cursor, r0) = ReadCursor::new(8, &mut arena);
    arena[r0].dup_consumer();
    assert_eq!(arena[r0].get_consumers(), 2);

    // Two handles load the same position; the first to commit wins.
    let a1 = arena[r0].load_attempt();
    let a2 = arena[r0].load_attempt();
    assert!(a1.commit_attempt(&mut arena[r0], 1).is_none());
    assert_eq!(arena[r0].load_nread(), 1);

    // The second commit finds its snapshot stale: nothing advances, and the
    // refreshed attempt succeeds on retry — each item is consumed once.
    let fresh = a2
        .commit_attempt(&mut arena[r0], 1)
        .expect("a stale multi-consumer commit must hand back a retry");
    assert_eq!(arena[r0].load_nread(), 1);
    assert_eq!(fresh.get(), (1, 1));
    assert!(fresh.commit_attempt(&mut arena[r0], 1).is_none());
    assert_eq!(arena[r0].load_nread(), 2);
}

#[test]
fn remove_consumer_reports_prior_count() {
    let mut arena: Vec<Reader> = Vec::new();
    let (_cursor, r0) = ReadCursor::new(8, &mut arena);
    arena[r0].dup_consumer();
    arena[r0].dup_consumer();
    assert_eq!(arena[r0].remove_consumer(), 3);
    assert_eq!(arena[r0].remove_consumer(), 2);
    // A prior count of one tells the caller it was the last handle.
    assert_eq!(arena[r0].remove_consumer(), 1);
    assert_eq!(arena[r0].get_consumers(), 0);
}

#[test]
fn demoted_reader_commits_directly_again() {
    let mut arena: Vec<Reader> = Vec::new();
    let (_cursor, r0) = ReadCursor::new(8, &mut arena);

    // While two handles exist, a stale commit must retry.
    arena[r0].dup_consumer();
    let stale = arena[r0].load_attempt();
    advance(&mut arena[r0], 1);
    assert!(stale.commit_attempt(&mut arena[r0], 1).is_some());
    assert_eq!(arena[r0].load_nread(), 1);

    // The count returns to one: the next multi-tagged commit demotes the
    // reader and advances exactly once, with no retry.
    arena[r0].remove_consumer();
    let a = arena[r0].load_attempt();
    assert!(a.commit_attempt(&mut arena[r0], 1).is_none());
    assert_eq!(arena[r0].load_nread(), 2);

    // After demotion the cached tag is back on the direct path: even a stale
    // snapshot commits unconditionally, exactly as before the duplicate.
    let s1 = arena[r0].load_attempt();
    let s2 = arena[r0].load_attempt();
    assert!(s1.commit_attempt(&mut arena[r0], 1).is_none());
    assert!(s2.commit_attempt(&mut arena[r0], 1).is_none());
    assert_eq!(arena[r0].load_nread(), 4);
}

#[test]
fn fast_and_slow_paths_observe_the_same_items() {
    // One reader stays on the direct path; the other is forced down the
    // compare-and-swap path by a duplicate that is then dropped. Committing
    // the same run of amounts, both observe the same final position.
    let mut arena: Vec<Reader> = Vec::new();
    let (_c1, fast) = ReadCursor::new(8, &mut arena);
    let (_c2, slow) = ReadCursor::new(8, &mut arena);
    arena[slow].dup_consumer();
    arena[slow].remove_consumer();

    for by in [2u32, 3, 1] {
        advance(&mut arena[fast], by);
        advance(&mut arena[slow], by);
    }
    assert_eq!(arena[fast].load_nread(), 6);
    assert_eq!(arena[slow].load_nread(), 6);
}

#[test]
fn group_reports_the_largest_lag() {
    // Ring capacity 8, writer at position 20, one reader at position 13: the
    // slowest reader trails by 7 slots.
    let group = ReaderGroup::new();
    let (group, reader) = group.add_reader(13, 8, 0);
    let arena = vec![reader];
    assert_eq!(group.get_max_diff(&arena, 20), Some(7));
}

#[test]
fn group_lag_is_the_maximum_over_members() {
    let group = ReaderGroup::new();
    let (group, r0) = group.add_reader(13, 8, 0);
    let (group, r1) = group.add_reader(10, 8, 1);
    let arena = vec![r0, r1];
    // Writer at 20: the readers trail by 7 and by 10.
    assert_eq!(group.get_max_diff(&arena, 20), Some(10));
}

#[test]
fn group_remove_drops_exactly_the_named_reader() {
    let group = ReaderGroup::new();
    let (group, r0) = group.add_reader(13, 8, 0);
    let (group, r1) = group.add_reader(10, 8, 1);
    let arena = vec![r0, r1];
    let trimmed = group.remove_reader(1);
    // Only the reader at 13 still counts toward backpressure.
    assert_eq!(trimmed.get_max_diff(&arena, 20), Some(7));
    // The group itself is untouched: membership snapshots are immutable.
    assert_eq!(group.get_max_diff(&arena, 20), Some(10));
}

#[test]
fn group_with_no_readers_has_no_lag() {
    let group = ReaderGroup::new();
    let arena: Vec<Reader> = Vec::new();
    assert_eq!(group.get_max_diff(&arena, 20), Some(0));
}

#[test]
fn reader_past_the_writer_forces_a_retry() {
    // A reader observed ahead of the writer would yield a negative lag; the
    // query reports a retry instead of a wrong value.
    let group = ReaderGroup::new();
    let (group, reader) = group.add_reader(21, 8, 0);
    let arena = vec![reader];
    assert_eq!(group.get_max_diff(&arena, 20), None);
}

#[test]
fn lag_at_the_sanity_threshold_is_still_reported() {
    // A lag of exactly 1 << 30 is the largest believed; one slot more is
    // taken for a racing reader and forces a retry.
    let group = ReaderGroup::new();
    let (group, reader) = group.add_reader(0, 8, 0);
    let arena = vec![reader];
    assert_eq!(group.get_max_diff(&arena, 1 << 30), Some(1 << 30));
    assert_eq!(group.get_max_diff(&arena, (1 << 30) + 1), None);
}

#[test]
fn late_subscriber_starts_at_the_live_position() {
    let mut arena: Vec<Reader> = Vec::new();
    let (mut cursor, r0) = ReadCursor::new(8, &mut arena);
    advance(&mut arena[r0], 5);

    // A reader subscribed after five items were consumed starts at position
    // five: items committed earlier are never observed through it.
    let r1 = cursor.add_reader(&mut arena, r0);
    assert_eq!(arena[r1].load_nread(), 5);
    assert_eq!(arena[r1].load_attempt().get(), (5, 5));
    assert_eq!(arena[r1].get_consumers(), 1);
}

#[test]
fn cursor_backpressure_follows_membership() {
    let mut arena: Vec<Reader> = Vec::new();
    let (mut cursor, r0) = ReadCursor::new(8, &mut arena);
    cursor.prefetch_metadata();
    assert_eq!(cursor.get_max_diff(&arena, 5), Some(5));

    advance(&mut arena[r0], 5);
    assert_eq!(cursor.get_max_diff(&arena, 5), Some(0));

    let r1 = cursor.add_reader(&mut arena, r0);
    advance(&mut arena[r1], 2);
    // Writer at 9: the original reader trails by 4, the new one by 2.
    assert_eq!(cursor.get_max_diff(&arena, 9), Some(4));

    // Removing the slowest reader lowers the aggregate to the next one.
    cursor.remove_reader(r0);
    assert_eq!(cursor.get_max_diff(&arena, 9), Some(2));

    // Removing an unregistered reader changes nothing.
    cursor.remove_reader(r0);
    assert_eq!(cursor.get_max_diff(&arena, 9), Some(2));

    // Removing the last reader leaves an empty membership: no lag at all.
    cursor.remove_reader(r1);
    assert_eq!(cursor.get_max_diff(&arena, 9), Some(0));
}

#[test]
fn adds_and_removes_never_lose_an_update() {
    // A run of subscribes and unsubscribes lands on exactly the net
    // membership: the lag query sees precisely the readers that remain.
    let mut arena: Vec<Reader> = Vec::new();
    let (mut cursor, r0) = ReadCursor::new(16, &mut arena);
    let r1 = cursor.add_reader(&mut arena, r0);
    let r2 = cursor.add_reader(&mut arena, r0);
    let r3 = cursor.add_reader(&mut arena, r1);
    cursor.remove_reader(r1);
    cursor.remove_reader(r3);

    // r0 and r2 remain, both at position 0.
    assert_eq!(cursor.get_max_diff(&arena, 3), Some(3));
    advance(&mut arena[r0], 3);
    assert_eq!(cursor.get_max_diff(&arena, 3), Some(3));
    advance(&mut arena[r2], 3);
    assert_eq!(cursor.get_max_diff(&arena, 3), Some(0));

    // The removed readers' cursors stay valid for their handle owners, but
    // no longer count toward backpressure.
    assert_eq!(arena[r1].load_nread(), 0);
    assert_eq!(arena[r3].load_nread(), 0);
}

#[test]
fn every_reader_observes_the_same_committed_order() {
    // Three readers registered from the start drain the same twelve items in
    // differently sized commits and land on the same position: the same
    // items, each exactly once, in the same order.
    let mut arena: Vec<Reader> = Vec::new();
    let (mut cursor, r0) = ReadCursor::new(4, &mut arena);
    let r1 = cursor.add_reader(&mut arena, r0);
    let r2 = cursor.add_reader(&mut arena, r0);

    for by in [1u32, 2, 3, 6] {
        advance(&mut arena[r0], by);
    }
    for by in [4u32, 4, 4] {
        advance(&mut arena[r1], by);
    }
    advance(&mut arena[r2], 12);

    assert_eq!(arena[r0].load_nread(), 12);
    assert_eq!(arena[r1].load_nread(), 12);
    assert_eq!(arena[r2].load_nread(), 12);
    assert_eq!(cursor.get_max_diff(&arena, 12), Some(0));
}
