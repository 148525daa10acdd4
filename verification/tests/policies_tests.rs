// Tests of the pluggable policies: QoS admission, scheduling and routing.

use ari::pdu::{Pdu, QoSParameters};
use ari::policies::qos::{QoSPolicy, SimpleQoSPolicy};
use ari::policies::routing::{NetworkTopology, RoutingPolicy, ShortestPathRouting};
use ari::policies::scheduling::{FifoScheduling, PriorityScheduling, SchedulingPolicy};

#[test]
fn test_qos_check() {
    let policy = SimpleQoSPolicy::default();
    let pdu = Pdu::new_data(1, 2, 1, 2, 0, vec![1]);

    assert!(policy.check_qos(&pdu));
}

#[test]
fn test_qos_apply() {
    let policy = SimpleQoSPolicy::default();
    let mut pdu = Pdu::new_data(1, 2, 1, 2, 0, vec![1]);

    let qos = QoSParameters { priority: 200, max_delay_ms: Some(100), ..Default::default() };

    policy.apply_qos(&mut pdu, qos);
    assert_eq!(pdu.qos.priority, 200);
}

#[test]
fn test_qos_should_drop() {
    let policy = SimpleQoSPolicy::new(100);

    let low_pri = Pdu::new_data_with_qos(
        1,
        2,
        1,
        2,
        0,
        vec![1],
        QoSParameters { priority: 50, ..Default::default() },
    );

    assert!(policy.should_drop(&low_pri, 76));

    let high_pri = Pdu::new_data_with_qos(
        1,
        2,
        1,
        2,
        0,
        vec![1],
        QoSParameters { priority: 200, ..Default::default() },
    );

    assert!(!policy.should_drop(&high_pri, 76));
}

#[test]
fn test_fifo_scheduling() {
    let mut sched = FifoScheduling::new(10);

    let pdu1 = Pdu::new_data(1, 2, 1, 2, 0, vec![1]);
    let pdu2 = Pdu::new_data(1, 2, 1, 2, 1, vec![2]);

    sched.enqueue(pdu1).unwrap();
    sched.enqueue(pdu2).unwrap();

    assert_eq!(sched.queue_length(), 2);

    let dequeued = sched.dequeue().unwrap();
    assert_eq!(dequeued.sequence_num, 0);
}

#[test]
fn test_priority_scheduling() {
    let mut sched = PriorityScheduling::new(4, 10);

    let low_pri = Pdu::new_data_with_qos(
        1,
        2,
        1,
        2,
        0,
        vec![1],
        QoSParameters { priority: 50, ..Default::default() },
    );

    let high_pri = Pdu::new_data_with_qos(
        1,
        2,
        1,
        2,
        1,
        vec![2],
        QoSParameters { priority: 200, ..Default::default() },
    );

    sched.enqueue(low_pri).unwrap();
    sched.enqueue(high_pri).unwrap();

    let dequeued = sched.dequeue().unwrap();
    assert_eq!(dequeued.sequence_num, 1);
}

#[test]
fn test_scheduling_full_queue() {
    let mut sched = FifoScheduling::new(2);

    sched.enqueue(Pdu::new_data(1, 2, 1, 2, 0, vec![1])).unwrap();
    sched.enqueue(Pdu::new_data(1, 2, 1, 2, 0, vec![1])).unwrap();

    let result = sched.enqueue(Pdu::new_data(1, 2, 1, 2, 0, vec![1]));
    assert!(result.is_err());
}

#[test]
fn test_shortest_path_routing() {
    let mut topology = NetworkTopology::new();
    topology.add_link(1, 2, 1);
    topology.add_link(2, 3, 1);
    topology.add_link(1, 3, 10);

    let mut policy = ShortestPathRouting::new();
    policy.update(&topology);

    let next_hop = policy.compute_next_hop(1, 3, &topology);
    assert_eq!(next_hop, Some(2));
}

#[test]
fn test_topology_neighbors() {
    let mut topology = NetworkTopology::new();
    topology.add_link(1, 2, 1);
    topology.add_link(1, 3, 2);

    let neighbors = topology.get_neighbors(1);
    assert_eq!(neighbors.len(), 2);
}
