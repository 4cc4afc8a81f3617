use fibration_timing::bundle::FiberBundle;
use fibration_timing::connection::{Connection, Transport};
use fibration_timing::drift::{violation_indices, DriftMonitor};
use fibration_timing::error::FiberError;
use fibration_timing::schedule::{distribute_agents, AgentSchedule, ScheduleBuilder};

/// Forward: the matrix times the state; backward: the state solved through
/// the (here diagonal) matrix.
fn mat_vec(m: &Vec<Vec<f64>>, v: &Vec<f64>, forward: bool) -> Vec<f64> {
    if forward {
        m.iter().map(|row| row.iter().zip(v.iter()).map(|(a, b)| a * b).sum()).collect()
    } else {
        (0..v.len()).map(|i| v[i] / m[i][i]).collect()
    }
}

// ---- FiberBundle tests ----

#[test]
fn bundle_creation_basic() {
    let b = FiberBundle::new(vec![0.0, 1.0, 2.0], 3).unwrap();
    assert_eq!(b.len(), 3);
    assert_eq!(b.fiber_dim, 3);
}

#[test]
fn bundle_empty_base_error() {
    let e = FiberBundle::<f64>::new(vec![], 2);
    assert!(matches!(e, Err(FiberError::EmptyBaseSpace)));
}

#[test]
fn bundle_zero_fiber_error() {
    let e = FiberBundle::new(vec![0.0], 0);
    assert!(matches!(e, Err(FiberError::InvalidFiberDimension(0))));
}

#[test]
fn bundle_projection() {
    let b = FiberBundle::new(vec![0.0, 1.5, 3.0], 2).unwrap();
    assert_eq!(b.projection(0).unwrap(), 0.0);
    assert_eq!(b.projection(1).unwrap(), 1.5);
    assert_eq!(b.projection(2).unwrap(), 3.0);
}

#[test]
fn bundle_projection_oob() {
    let b = FiberBundle::new(vec![0.0, 1.0], 1).unwrap();
    assert!(b.projection(5).is_err());
}

// ---- Connection tests ----

#[test]
fn flat_connection_identity_transport() {
    let c = Connection::flat(2, 3);
    let v = vec![3.0, 4.0];
    let transported = c.transport_vector(&v, 0, 2, &mat_vec).unwrap();
    assert!((transported[0] - 3.0).abs() < 1e-9);
    assert!((transported[1] - 4.0).abs() < 1e-9);
}

#[test]
fn flat_connection_round_trip() {
    let c = Connection::flat(3, 5);
    let v = vec![1.0, 2.0, 3.0];
    let forward = c.transport_vector(&v, 0, 4, &mat_vec).unwrap();
    let back = c.transport_vector(&forward, 4, 0, &mat_vec).unwrap();
    for i in 0..3 {
        assert!((back[i] - v[i]).abs() < 1e-9);
    }
}

#[test]
fn holonomy_loop_not_closed_error() {
    let c = Connection::<f64>::flat(2, 3);
    let result = c.transport_around(&vec![1.0, 0.0], &vec![0, 1, 2], &mat_vec);
    assert!(matches!(result, Err(FiberError::LoopNotClosed { .. })));
}

#[test]
fn holonomy_loop_too_short() {
    let c = Connection::<f64>::flat(2, 3);
    let result = c.transport_around(&vec![1.0, 0.0], &vec![0], &mat_vec);
    assert!(matches!(result, Err(FiberError::LoopTooShort(1))));
}

// ---- ScheduleBuilder tests ----

#[test]
fn schedule_two_agents() {
    let bundle = FiberBundle::new(vec![0.0, 1.0, 2.0], 2).unwrap();
    let schedules = ScheduleBuilder::new(bundle)
        .add_agent("a1", vec![1.0, 0.0], 1)
        .unwrap()
        .add_agent("a2", vec![0.0, 1.0], 2)
        .unwrap()
        .build(&mat_vec)
        .unwrap();
    assert_eq!(schedules.len(), 2);
    // Higher priority first
    assert_eq!(schedules[0].agent_id, "a2");
    assert_eq!(schedules[1].agent_id, "a1");
}

#[test]
fn schedule_no_agents_error() {
    let bundle = FiberBundle::new(vec![0.0, 1.0], 1).unwrap();
    let result = ScheduleBuilder::new(bundle).build(&mat_vec);
    assert!(matches!(result, Err(FiberError::NoAgents)));
}

#[test]
fn schedule_wrong_state_dim() {
    let bundle = FiberBundle::new(vec![0.0, 1.0], 2).unwrap();
    let result = ScheduleBuilder::new(bundle).add_agent("x", vec![1.0], 1);
    assert!(result.is_err());
}

#[test]
fn schedule_time_slots_match_base() {
    let bundle = FiberBundle::new(vec![0.0, 0.5, 1.0, 1.5], 1).unwrap();
    let schedules = ScheduleBuilder::new(bundle)
        .add_agent("a", vec![1.0], 1)
        .unwrap()
        .build(&mat_vec)
        .unwrap();
    assert_eq!(schedules[0].time_slots, vec![0.0, 0.5, 1.0, 1.5]);
}

#[test]
fn schedule_flat_transport_preserves_state() {
    let bundle = FiberBundle::new(vec![0.0, 1.0, 2.0], 2).unwrap();
    let schedules = ScheduleBuilder::new(bundle)
        .add_agent("a", vec![3.0, 4.0], 1)
        .unwrap()
        .build(&mat_vec)
        .unwrap();
    for state in &schedules[0].fiber_states {
        assert!((state[0] - 3.0).abs() < 1e-9);
        assert!((state[1] - 4.0).abs() < 1e-9);
    }
}

// ---- distribute_agents tests ----

#[test]
fn distribute_basic() {
    let result = distribute_agents(3, 6);
    assert_eq!(result.len(), 3);
    assert_eq!(result[0], (0, vec![0, 3]));
    assert_eq!(result[1], (1, vec![1, 4]));
    assert_eq!(result[2], (2, vec![2, 5]));
}

#[test]
fn distribute_empty() {
    assert!(distribute_agents(0, 5).is_empty());
    assert!(distribute_agents(3, 0).is_empty());
}

// ---- DriftMonitor tests ----

fn exceeded_flags(mon: &DriftMonitor<f64>) -> (Vec<f64>, Vec<bool>) {
    let drifts: Vec<f64> = mon
        .schedule
        .time_slots
        .iter()
        .zip(mon.actual_times.iter())
        .map(|(s, a)| (a - s).abs())
        .collect();
    let flags = drifts.iter().map(|d| *d > mon.tolerance).collect();
    (drifts, flags)
}

#[test]
fn drift_no_violations() {
    let sched = AgentSchedule {
        agent_id: "a".into(),
        time_slots: vec![0.0, 1.0, 2.0],
        fiber_states: vec![vec![0.0], vec![0.0], vec![0.0]],
        priority: 1,
    };
    let mut mon = DriftMonitor::new(sched, 0.5);
    mon.record(0, 0.1).unwrap();
    mon.record(1, 1.2).unwrap();
    mon.record(2, 1.8).unwrap();
    let (drifts, flags) = exceeded_flags(&mon);
    assert!(violation_indices(&flags).is_empty());
    assert!(mon.check_drifts(&drifts, &flags).is_ok());
}

#[test]
fn drift_with_violations() {
    let sched = AgentSchedule {
        agent_id: "a".into(),
        time_slots: vec![0.0, 1.0, 2.0],
        fiber_states: vec![vec![0.0], vec![0.0], vec![0.0]],
        priority: 1,
    };
    let mut mon = DriftMonitor::new(sched, 0.1);
    mon.record(0, 0.05).unwrap();
    mon.record(1, 1.5).unwrap(); // 0.5 drift
    mon.record(2, 2.02).unwrap();
    let (drifts, flags) = exceeded_flags(&mon);
    assert_eq!(violation_indices(&flags), vec![1]);
    assert!(mon.check_drifts(&drifts, &flags).is_err());
}

#[test]
fn drift_record_oob() {
    let sched = AgentSchedule {
        agent_id: "a".into(),
        time_slots: vec![0.0],
        fiber_states: vec![vec![]],
        priority: 1,
    };
    let mut mon = DriftMonitor::new(sched, 1.0);
    assert!(mon.record(5, 0.0).is_err());
}

#[test]
fn drift_slot_count() {
    let sched = AgentSchedule {
        agent_id: "a".into(),
        time_slots: vec![0.0, 1.0, 2.0, 3.0],
        fiber_states: vec![vec![], vec![], vec![], vec![]],
        priority: 1,
    };
    let mon = DriftMonitor::new(sched, 1.0);
    assert_eq!(mon.slot_count(), 4);
}

#[test]
fn matrix_connection_transport_uses_kernel() {
    let c = Connection::from_matrices(vec![
        vec![vec![2.0, 0.0], vec![0.0, 3.0]],
        vec![vec![1.0, 0.0], vec![0.0, 0.5]],
    ]);
    let bundle = FiberBundle::with_connection(vec![0.0, 1.0, 2.0], 2, c).unwrap();
    let v = vec![1.0, 1.0];
    let t = bundle.transport(&v, 0, 2, &mat_vec).unwrap();
    assert_eq!(t, vec![2.0, 1.5]);
    let back = bundle.transport(&t, 2, 0, &mat_vec).unwrap();
    assert_eq!(back, vec![1.0, 1.0]);
    let mid = bundle.transport(&v, 1, 2, &mat_vec).unwrap();
    assert_eq!(mid, vec![1.0, 0.5]);
}

// ---- Integration: perturbed bundle + drift ----

#[test]
fn perturbed_bundle_schedule_drift() {
    let conn = Connection::from_matrices(vec![
        vec![vec![0.98, 0.07], vec![-0.05, 1.03]],
        vec![vec![1.02, -0.04], vec![0.06, 0.97]],
        vec![vec![0.95, 0.02], vec![0.01, 1.01]],
        vec![vec![1.04, 0.08], vec![-0.03, 0.99]],
    ]);
    let bundle = FiberBundle::with_connection(vec![0.0, 1.0, 2.0, 3.0, 4.0], 2, conn).unwrap();
    let schedules = ScheduleBuilder::new(bundle)
        .add_agent("a", vec![1.0, 0.0], 1)
        .unwrap()
        .build(&mat_vec)
        .unwrap();
    let s = &schedules[0];
    // Fiber states should change with perturbed connection
    assert_ne!(s.fiber_states[0], s.fiber_states[4]);
}
