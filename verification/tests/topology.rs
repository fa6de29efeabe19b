use minimal_bench::topology::{
    compute_producer_partitions, quota_of, validate_topology, TopologyError,
};

#[test]
fn redundancy_above_the_partitions_is_refused() {
    let e = validate_topology(1, 2, 3, false).unwrap_err();
    assert_eq!(e, TopologyError::RedundancyTooHigh { redundancy: 3, partitions: 2 });
    assert_eq!(e.message(), "R (3) must be <= N (2)");
}

#[test]
fn uncovered_partitions_are_refused() {
    let e = validate_topology(2, 7, 3, false).unwrap_err();
    assert_eq!(e, TopologyError::NotCovered { producers: 2, redundancy: 3, partitions: 7 });
    assert_eq!(e.message(), "P * R (2 * 3 = 6) must be >= N (7)");
}

#[test]
fn large_products_are_not_cut_off() {
    assert_eq!(validate_topology(1 << 32, 5, 1, false), Ok(()));
    let e = TopologyError::NotCovered { producers: 1 << 40, redundancy: 1 << 20, partitions: 1 };
    assert_eq!(
        e.message(),
        "P * R (1099511627776 * 1048576 = 1152921504606846976) must be >= N (1)"
    );
}

#[test]
fn sound_topologies_are_accepted() {
    assert_eq!(validate_topology(4, 12, 3, false), Ok(()));
    assert_eq!(validate_topology(1, 1, 1, false), Ok(()));
    assert_eq!(validate_topology(5, 12, 3, false), Ok(()));
    assert_eq!(validate_topology(0, 0, 0, false), Ok(()));
}

#[test]
fn server_side_routing_needs_no_cover() {
    assert_eq!(validate_topology(1, 2, 3, true), Ok(()));
    assert_eq!(validate_topology(0, 100, 0, true), Ok(()));
}

#[test]
fn partitions_of_producers_follow_each_other() {
    assert_eq!(compute_producer_partitions(0, 4, 12, 3), vec![0, 1, 2]);
    assert_eq!(compute_producer_partitions(3, 4, 12, 3), vec![9, 10, 11]);
    assert_eq!(compute_producer_partitions(2, 3, 5, 2), vec![4, 0]);
    assert_eq!(compute_producer_partitions(9, 10, 3, 0), Vec::<u32>::new());
    assert_eq!(compute_producer_partitions(1, 1, 2, 5), vec![1, 0, 1, 0, 1]);
}

#[test]
fn every_partition_is_covered_and_none_is_doubled() {
    for n in 1..9u32 {
        for r in 1..=n {
            for p in 1..9usize {
                if validate_topology(p, n, r, false).is_err() {
                    continue;
                }
                let mut seen = vec![false; n as usize];
                for id in 0..p {
                    let mut own = compute_producer_partitions(id, p, n, r);
                    for x in &own {
                        seen[*x as usize] = true;
                    }
                    own.sort();
                    own.dedup();
                    assert_eq!(own.len(), r as usize);
                }
                assert!(seen.iter().all(|s| *s));
            }
        }
    }
}

#[test]
fn messages_are_shared_out_evenly() {
    assert_eq!(quota_of(100_000, 8, 7), 12_500);
    assert_eq!((quota_of(10, 3, 0), quota_of(10, 3, 1), quota_of(10, 3, 2)), (4, 3, 3));
    assert_eq!((quota_of(2, 3, 0), quota_of(2, 3, 1), quota_of(2, 3, 2)), (1, 1, 0));
    assert_eq!(quota_of(u64::MAX, 1, 0), u64::MAX);
    assert_eq!(quota_of(u64::MAX, 2, 0), 1 << 63);
}

#[test]
fn all_messages_are_sent() {
    for messages in 0..40u64 {
        for producers in 1..9usize {
            let total: u64 = (0..producers).map(|p| quota_of(messages, producers, p)).sum();
            assert_eq!(total, messages);
        }
    }
}

#[test]
fn load_is_as_even_as_it_can_be() {
    for n in 1..9u32 {
        for r in 0..12u32 {
            for p in 0..9usize {
                let mut times = vec![0usize; n as usize];
                for id in 0..p {
                    for x in compute_producer_partitions(id, p, n, r) {
                        times[x as usize] += 1;
                    }
                }
                let places = p * r as usize;
                for (k, t) in times.iter().enumerate() {
                    let more = if k < places % n as usize { 1 } else { 0 };
                    assert_eq!(*t, places / n as usize + more);
                }
            }
        }
    }
}
