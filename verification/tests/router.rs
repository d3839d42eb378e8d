use ormada::router::{route_read, route_read_step, ConsistencyContext, ReadTarget};

#[test]
fn test_consistency_context() {
    let ctx = ConsistencyContext::new();

    assert!(!ctx.has_write_occurred());

    ctx.mark_write();
    assert!(ctx.has_write_occurred());

    ctx.reset();
    assert!(!ctx.has_write_occurred());
}

#[test]
fn clones_share_the_write_flag() {
    let ctx = ConsistencyContext::default();
    let other = ctx.clone();
    other.mark_write();
    assert!(ctx.has_write_occurred());
}

#[test]
fn reads_route_to_primary_or_round_robin() {
    assert_eq!(route_read(true, false, 3, 7), ReadTarget::Primary);
    assert_eq!(route_read(false, true, 3, 7), ReadTarget::Primary);
    assert_eq!(route_read(false, false, 0, 7), ReadTarget::Primary);
    assert_eq!(route_read(false, false, 3, 7), ReadTarget::Replica(1));
    assert_eq!(route_read(false, false, 3, 9), ReadTarget::Replica(0));
}

#[test]
fn round_robin_cycles_through_replicas() {
    let targets: Vec<ReadTarget> = (0..4).map(|c| route_read(false, false, 3, c)).collect();
    assert_eq!(
        targets,
        vec![ReadTarget::Replica(0), ReadTarget::Replica(1), ReadTarget::Replica(2), ReadTarget::Replica(0)]
    );
}

#[test]
fn counter_advances_only_on_replica_reads() {
    assert_eq!(route_read_step(false, false, 2, 5), (ReadTarget::Replica(1), 6));
    assert_eq!(route_read_step(false, false, 2, usize::MAX), (ReadTarget::Replica(1), 0));
    assert_eq!(route_read_step(true, false, 2, 5), (ReadTarget::Primary, 5));
    assert_eq!(route_read_step(false, true, 2, 5), (ReadTarget::Primary, 5));
    assert_eq!(route_read_step(false, false, 0, 5), (ReadTarget::Primary, 5));
}
