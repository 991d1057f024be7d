use grade_p::processor_base::processing::{
    DataProcessor, GroupingMap, InsertOutcome, ReceiverMultiplexer, MAX_PENDING_GROUPS,
};

fn rec(source: u64, id: u64) -> DataProcessor {
    DataProcessor::new(source, id, 100 + id, 500, 2, vec![source as u8, id as u8])
}

fn keys(groups: &[Vec<DataProcessor>]) -> Vec<u64> {
    groups.iter().map(|g| g[0].id()).collect()
}

#[test]
fn record_getters_return_what_was_given() {
    let r = DataProcessor::new(3, 42, 1_700_000_000, 250, 4, vec![1, 2, 3, 4]);
    assert_eq!(r.ifcode(), 3);
    assert_eq!(r.id(), 42);
    assert_eq!(r.timestamp_sec(), 1_700_000_000);
    assert_eq!(r.timestamp_nsec(), 250);
    assert_eq!(r.data_size(), 4);
    assert_eq!(r.data(), &[1, 2, 3, 4]);
}

#[test]
fn three_sources_hundred_ids_give_hundred_complete_groups_in_order() {
    let mut map = GroupingMap::new(3);
    let mut emitted: Vec<Vec<DataProcessor>> = Vec::new();
    for id in 1..=100u64 {
        for source in 0..3u64 {
            assert_eq!(map.insert(rec(source, id)), InsertOutcome::Added);
        }
        emitted.extend(map.consolidate());
    }
    assert_eq!(emitted.len(), 100);
    for g in &emitted {
        assert_eq!(g.len(), 3);
        assert!(g.iter().all(|r| r.id() == g[0].id()));
    }
    assert_eq!(keys(&emitted), (1..=100u64).collect::<Vec<u64>>());
    assert_eq!(map.pending_count(), 0);
    assert_eq!(map.last_emitted(), Some(100));
}

#[test]
fn interleaved_sources_still_complete_every_group() {
    let mut map = GroupingMap::new(3);
    let mut emitted: Vec<Vec<DataProcessor>> = Vec::new();
    // source 0 runs ahead, sources 1 and 2 catch up later
    for id in 1..=100u64 {
        map.insert(rec(0, id));
    }
    emitted.extend(map.consolidate());
    assert!(emitted.is_empty());
    for id in 1..=100u64 {
        map.insert(rec(1, id));
        map.insert(rec(2, id));
        emitted.extend(map.consolidate());
    }
    assert_eq!(emitted.len(), 100);
    assert_eq!(keys(&emitted), (1..=100u64).collect::<Vec<u64>>());
}

#[test]
fn partial_group_older_than_an_emitted_one_is_evicted() {
    let mut map = GroupingMap::new(3);
    // source A (0) never produces id 7
    map.insert(rec(1, 7));
    map.insert(rec(2, 7));
    assert!(map.consolidate().is_empty());
    assert_eq!(map.pending_count(), 1);
    for source in 0..3u64 {
        map.insert(rec(source, 8));
    }
    let out = map.consolidate();
    assert_eq!(keys(&out), vec![8]);
    assert_eq!(map.pending_count(), 0);
    assert_eq!(map.last_emitted(), Some(8));
    // the late record for id 7 is refused, so id 7 is never emitted
    assert_eq!(map.insert(rec(0, 7)), InsertOutcome::Stale);
    assert_eq!(map.insert(rec(0, 8)), InsertOutcome::Stale);
    assert!(map.consolidate().is_empty());
}

#[test]
fn two_groups_completed_together_leave_in_key_order() {
    let mut map = GroupingMap::new(2);
    map.insert(rec(0, 20));
    map.insert(rec(0, 10));
    map.insert(rec(1, 20));
    map.insert(rec(1, 10));
    let out = map.consolidate();
    assert_eq!(keys(&out), vec![10, 20]);
}

#[test]
fn newer_incomplete_groups_keep_waiting() {
    let mut map = GroupingMap::new(2);
    map.insert(rec(0, 5));
    map.insert(rec(0, 6));
    map.insert(rec(1, 5));
    let out = map.consolidate();
    assert_eq!(keys(&out), vec![5]);
    assert_eq!(map.pending_count(), 1);
    assert_eq!(map.insert(rec(1, 6)), InsertOutcome::Added);
    assert_eq!(keys(&map.consolidate()), vec![6]);
}

#[test]
fn surplus_record_for_a_full_group_is_dropped() {
    let mut map = GroupingMap::new(2);
    assert_eq!(map.insert(rec(0, 1)), InsertOutcome::Added);
    assert_eq!(map.insert(rec(1, 1)), InsertOutcome::Added);
    assert_eq!(map.insert(rec(1, 1)), InsertOutcome::GroupFull);
    let out = map.consolidate();
    assert_eq!(out.len(), 1);
    assert_eq!(out[0].len(), 2);
}

#[test]
fn no_sources_means_nothing_is_kept() {
    let mut map = GroupingMap::new(0);
    assert_eq!(map.sources(), 0);
    assert_eq!(map.insert(rec(0, 1)), InsertOutcome::GroupFull);
    assert_eq!(map.pending_count(), 0);
    assert!(map.consolidate().is_empty());
}

#[test]
fn pending_groups_are_bounded_by_evicting_the_oldest() {
    let mut map = GroupingMap::new(2);
    for id in 1..=(MAX_PENDING_GROUPS as u64) {
        assert_eq!(map.insert(rec(0, id * 2)), InsertOutcome::Added);
    }
    assert_eq!(map.pending_count(), MAX_PENDING_GROUPS);
    // older than every waiting group: dropped
    assert_eq!(map.insert(rec(0, 1)), InsertOutcome::TooOld);
    // a new group pushes out the oldest one (key 2)
    assert_eq!(map.insert(rec(0, 1001)), InsertOutcome::AddedEvicting(2));
    assert_eq!(map.pending_count(), MAX_PENDING_GROUPS);
    // an existing group still accepts its missing record
    assert_eq!(map.insert(rec(1, 4)), InsertOutcome::Added);
    assert_eq!(keys(&map.consolidate()), vec![4]);
}

#[test]
fn multiplexer_groups_records_from_channels() {
    let mut senders = Vec::new();
    let mut receivers = Vec::new();
    for _ in 0..3 {
        let (tx, rx) = spmc::channel::<DataProcessor>();
        senders.push(tx);
        receivers.push(rx);
    }
    let (out_tx, out_rx) = spmc::channel::<Vec<DataProcessor>>();
    let mut mux = ReceiverMultiplexer::new(receivers, Some(out_tx));
    assert_eq!(mux.input_count(), 3);
    for id in 1..=100u64 {
        for (source, tx) in senders.iter_mut().enumerate() {
            tx.send(rec(source as u64, id)).unwrap();
        }
    }
    let mut received = 0;
    let mut emitted = 0;
    for _ in 0..100 {
        let report = mux.poll();
        received += report.received;
        emitted += report.emitted;
        assert_eq!(report.undelivered, 0);
    }
    assert_eq!(received, 300);
    assert_eq!(emitted, 100);
    let mut ids = Vec::new();
    while let Ok(group) = out_rx.try_recv() {
        assert_eq!(group.len(), 3);
        ids.push(group[0].id());
    }
    assert_eq!(ids, (1..=100u64).collect::<Vec<u64>>());
}

#[test]
fn multiplexer_counts_groups_the_output_refused() {
    let (mut tx, rx) = spmc::channel::<DataProcessor>();
    let (out_tx, out_rx) = spmc::channel::<Vec<DataProcessor>>();
    drop(out_rx);
    let mut mux = ReceiverMultiplexer::new(vec![rx], Some(out_tx));
    tx.send(rec(0, 1)).unwrap();
    let report = mux.poll();
    assert_eq!(report.received, 1);
    assert_eq!(report.emitted, 0);
    assert_eq!(report.undelivered, 1);
}

#[test]
fn multiplexer_without_output_only_files_records() {
    let (mut tx, rx) = spmc::channel::<DataProcessor>();
    let mut mux = ReceiverMultiplexer::new(Vec::new(), None);
    mux.add_input_receiver(rx);
    assert_eq!(mux.input_count(), 1);
    tx.send(rec(0, 1)).unwrap();
    let report = mux.poll();
    assert_eq!(report.received, 1);
    assert_eq!(report.emitted, 0);
    let (out_tx, out_rx) = spmc::channel::<Vec<DataProcessor>>();
    mux.set_output_sender(out_tx);
    let report = mux.poll();
    assert_eq!(report.received, 0);
    assert_eq!(report.emitted, 1);
    assert_eq!(out_rx.try_recv().unwrap()[0].id(), 1);
}

#[test]
fn poll_leaves_no_complete_group_waiting() {
    let (mut tx0, rx0) = spmc::channel::<DataProcessor>();
    let (mut tx1, rx1) = spmc::channel::<DataProcessor>();
    let (out_tx, out_rx) = spmc::channel::<Vec<DataProcessor>>();
    let mut mux = ReceiverMultiplexer::new(vec![rx0, rx1], Some(out_tx));
    tx0.send(rec(0, 3)).unwrap();
    tx1.send(rec(1, 3)).unwrap();
    tx0.send(rec(0, 4)).unwrap();
    let first = mux.poll();
    assert_eq!(first.received, 2);
    assert_eq!(first.emitted, 1);
    let second = mux.poll();
    assert_eq!(second.received, 1);
    assert_eq!(second.emitted, 0);
    assert_eq!(out_rx.try_recv().unwrap()[0].id(), 3);
    assert!(out_rx.try_recv().is_err());
}

#[test]
fn mark_is_last_emitted_key() {
    let mut map = GroupingMap::new(1);
    map.insert(rec(0, 4));
    map.insert(rec(0, 9));
    let out = map.consolidate();
    assert_eq!(keys(&out), vec![4, 9]);
    assert_eq!(map.last_emitted(), Some(9));
    assert_eq!(map.insert(rec(0, 9)), InsertOutcome::Stale);
}
