use fibration_timing::bundle::{AgentClock, FiberBundle, TimingBundle};
use fibration_timing::connection::{Connection, Transport};
use fibration_timing::drift::{violation_indices, DriftMonitor};
use fibration_timing::error::FiberError;
use fibration_timing::schedule::{distribute_agents, priority_order, triangle_loops, AgentSchedule, ScheduleBuilder};
use fibration_timing::connection::ConnectionForm;
use fibration_timing::curvature::CurvatureForm;
use fibration_timing::gauge_fix::GaugeFixer;
use fibration_timing::holonomy::{select_reports, HolonomyGroup};
use fibration_timing::section_lifter::SectionLifter;

fn scale_kernel(m: &Vec<Vec<f64>>, v: &Vec<f64>, forward: bool) -> Vec<f64> {
    (0..v.len()).map(|i| if forward { v[i] * m[i][i] } else { v[i] / m[i][i] }).collect()
}

#[test]
fn single_point_bundle_has_one_flat_segment() {
    let b = FiberBundle::new(vec![7.0], 2).unwrap();
    assert_eq!(b.connection.segments(), 1);
    assert!(b.connection.is_flat());
    assert!(!b.is_empty());
    let b = FiberBundle::new(vec![0.0, 1.0, 2.0, 3.0], 2).unwrap();
    assert_eq!(b.connection.segments(), 3);
}

#[test]
fn with_connection_reports_first_mismatch() {
    let c = Connection::from_matrices(vec![
        vec![vec![1.0, 0.0], vec![0.0, 1.0]],
        vec![vec![1.0, 0.0, 0.0], vec![0.0, 1.0, 0.0], vec![0.0, 0.0, 1.0]],
    ]);
    let r = FiberBundle::with_connection(vec![0.0, 1.0, 2.0], 2, c);
    assert!(matches!(r, Err(FiberError::TransportMatrixSizeMismatch { expected: 2, got: 3 })));
    let ragged = Connection::from_matrices(vec![vec![vec![1.0, 0.0], vec![0.0]]]);
    let r = FiberBundle::with_connection(vec![0.0, 1.0], 2, ragged);
    assert!(matches!(r, Err(FiberError::TransportMatrixSizeMismatch { expected: 2, got: 2 })));
    let flat3 = Connection::<f64>::flat(3, 2);
    let r = FiberBundle::with_connection(vec![0.0, 1.0, 2.0], 2, flat3);
    assert!(matches!(r, Err(FiberError::TransportMatrixSizeMismatch { expected: 2, got: 3 })));
    let r = FiberBundle::with_connection(vec![], 2, Connection::<f64>::flat(2, 1));
    assert!(matches!(r, Err(FiberError::EmptyBaseSpace)));
}

#[test]
fn transport_index_errors() {
    let c = Connection::<f64>::flat(1, 2);
    let v = vec![1.0];
    assert!(matches!(
        c.transport_vector(&v, 3, 0, &scale_kernel),
        Err(FiberError::IndexOutOfBounds { index: 3, len: 3 })
    ));
    assert!(matches!(
        c.transport_vector(&v, 0, 4, &scale_kernel),
        Err(FiberError::IndexOutOfBounds { index: 4, len: 3 })
    ));
    assert_eq!(c.transport_vector(&v, 2, 2, &scale_kernel).unwrap(), vec![1.0]);
}

#[test]
fn matrix_round_trip_with_inverse_kernel() {
    let c = Connection::from_matrices(vec![vec![vec![2.0]], vec![vec![4.0]]]);
    let v = vec![3.0];
    let there = c.transport_vector(&v, 0, 2, &scale_kernel).unwrap();
    assert_eq!(there, vec![24.0]);
    let back = c.transport_vector(&there, 2, 0, &scale_kernel).unwrap();
    assert_eq!(back, vec![3.0]);
    assert!(!c.is_flat());
}

#[test]
fn validate_loop_cases() {
    let c = Connection::<f64>::flat(2, 3);
    assert!(c.validate_loop(&vec![0, 1, 2, 0]).is_ok());
    assert!(c.validate_loop(&vec![3, 3]).is_ok());
    assert!(matches!(
        c.validate_loop(&vec![0, 5, 0]),
        Err(FiberError::IndexOutOfBounds { index: 5, len: 4 })
    ));
    assert!(matches!(c.validate_loop(&vec![]), Err(FiberError::LoopTooShort(0))));
    assert!(matches!(c.validate_loop(&vec![1, 2]), Err(FiberError::LoopNotClosed { start: 1, end: 2 })));
}

#[test]
fn triangle_loops_enumerated() {
    assert!(triangle_loops(2).is_empty());
    let loops = triangle_loops(5);
    assert_eq!(loops, vec![vec![0, 1, 2, 0], vec![1, 2, 3, 1], vec![2, 3, 4, 2]]);
    let c = Connection::<f64>::flat(1, 4);
    for l in &loops {
        assert!(c.validate_loop(l).is_ok());
    }
}

#[test]
fn priority_order_is_stable() {
    assert_eq!(priority_order(&vec![1, 3, 1, 3, 2]), vec![1, 3, 4, 0, 2]);
    assert!(priority_order(&vec![]).is_empty());
}

#[test]
fn build_orders_ties_by_registration() {
    let bundle = FiberBundle::new(vec![0.0, 1.0], 1).unwrap();
    let schedules = ScheduleBuilder::new(bundle)
        .add_agent("low", vec![1.0], 1)
        .unwrap()
        .add_agent("high-a", vec![2.0], 5)
        .unwrap()
        .add_agent("high-b", vec![3.0], 5)
        .unwrap()
        .build(&scale_kernel)
        .unwrap();
    let ids: Vec<&str> = schedules.iter().map(|s| s.agent_id.as_str()).collect();
    assert_eq!(ids, vec!["high-a", "high-b", "low"]);
    assert_eq!(schedules[2].priority, 1);
    assert_eq!(schedules[1].fiber_states, vec![vec![3.0], vec![3.0]]);
}

#[test]
fn build_transports_through_matrices() {
    let c = Connection::from_matrices(vec![vec![vec![2.0]], vec![vec![3.0]]]);
    let bundle = FiberBundle::with_connection(vec![0.0, 1.0, 2.0], 1, c).unwrap();
    let schedules = ScheduleBuilder::new(bundle).add_agent("a", vec![1.0], 0).unwrap().build(&scale_kernel).unwrap();
    assert_eq!(schedules[0].fiber_states, vec![vec![1.0], vec![2.0], vec![6.0]]);
}

#[test]
fn build_fails_when_connection_is_short() {
    let c = Connection::<f64>::flat(1, 1);
    let bundle = FiberBundle::with_connection(vec![0.0, 1.0, 2.0, 3.0], 1, c).unwrap();
    let r = ScheduleBuilder::new(bundle).add_agent("a", vec![1.0], 0).unwrap().build(&scale_kernel);
    assert!(matches!(r, Err(FiberError::IndexOutOfBounds { index: 2, len: 2 })));
}

#[test]
fn add_agent_reports_state_dimension() {
    let bundle = FiberBundle::new(vec![0.0], 2).unwrap();
    let r = ScheduleBuilder::new(bundle).add_agent("x", vec![1.0, 2.0, 3.0], 1);
    assert!(matches!(r, Err(FiberError::InvalidFiberDimension(3))));
}

#[test]
fn round_robin_gives_each_slot_to_one_agent() {
    let shares = distribute_agents(4, 11);
    for s in 0..11usize {
        let owners: Vec<usize> = shares.iter().filter(|(_, slots)| slots.contains(&s)).map(|(a, _)| *a).collect();
        assert_eq!(owners, vec![s % 4]);
    }
    assert_eq!(distribute_agents(5, 2), vec![(0, vec![0]), (1, vec![1]), (2, vec![]), (3, vec![]), (4, vec![])]);
}

#[test]
fn record_overwrites_one_slot() {
    let sched = AgentSchedule {
        agent_id: "a".into(),
        time_slots: vec![0.0, 1.0, 2.0],
        fiber_states: vec![vec![], vec![], vec![]],
        priority: 1,
    };
    let mut mon = DriftMonitor::new(sched, 1.0);
    assert_eq!(mon.actual_times, vec![0.0, 0.0, 0.0]);
    mon.record(1, 4.5).unwrap();
    assert_eq!(mon.actual_times, vec![0.0, 4.5, 0.0]);
    assert!(matches!(mon.record(3, 1.0), Err(FiberError::IndexOutOfBounds { index: 3, len: 3 })));
    assert_eq!(mon.actual_times, vec![0.0, 4.5, 0.0]);
}

#[test]
fn check_reports_first_violation() {
    let sched = AgentSchedule { agent_id: "agent-7".into(), time_slots: vec![0.0; 4], fiber_states: vec![], priority: 0 };
    let mon = DriftMonitor::new(sched, 0.25);
    let drifts = vec![0.1, 0.5, 0.9, 0.2];
    let flags = vec![false, true, true, false];
    match mon.check_drifts(&drifts, &flags) {
        Err(FiberError::DriftExceeded { drift, tolerance, agent_id }) => {
            assert_eq!(drift, 0.5);
            assert_eq!(tolerance, 0.25);
            assert_eq!(agent_id, "agent-7");
        }
        other => panic!("unexpected {:?}", other),
    }
    assert_eq!(violation_indices(&flags), vec![1, 2]);
    assert!(violation_indices(&vec![false, false]).is_empty());
}

#[test]
fn section_lifter_keeps_bundle() {
    let clocks = vec![AgentClock::new(0, 0.0, 0.0, 1.0), AgentClock::new(1, 0.1, 0.5, 2.0)];
    let bundle = TimingBundle::with_clocks(clocks, 1, 1);
    assert_eq!(bundle.agents, 2);
    let lifter = SectionLifter::new(bundle);
    assert_eq!(lifter.bundle.clocks[1].latency, 0.5);
    assert_eq!(lifter.bundle.base_dim, 1);
}

#[test]
fn identity_transport_reports_dimension() {
    let t: Transport<f64> = Transport::Identity(4);
    assert_eq!(t.row_count(), 4);
    assert!(t.check_square(4));
    assert!(!t.check_square(3));
}

#[test]
fn flat_loop_has_trivial_holonomy() {
    let c = Connection::<f64>::flat(2, 5);
    let v = vec![3.0, -1.0];
    assert_eq!(c.transport_around(&v, &vec![0, 1, 2, 0], &scale_kernel).unwrap(), v);
    assert_eq!(c.transport_around(&v, &vec![4, 0, 5, 4], &scale_kernel).unwrap(), v);
    assert!(matches!(
        c.transport_around(&v, &vec![0, 6, 0], &scale_kernel),
        Err(FiberError::IndexOutOfBounds { index: 6, len: 6 })
    ));
}

#[test]
fn matrix_loop_holonomy_acts_through_kernel() {
    let c = Connection::from_matrices(vec![vec![vec![2.0]], vec![vec![3.0]]]);
    // 0 -> 1 doubles, 1 -> 2 triples, 2 -> 0 undoes both, then 0 -> 2 again.
    assert_eq!(c.transport_around(&vec![1.0], &vec![0, 1, 2, 0], &scale_kernel).unwrap(), vec![1.0]);
    assert_eq!(c.transport_around(&vec![1.0], &vec![1, 2, 1], &scale_kernel).unwrap(), vec![1.0]);
    assert_eq!(c.transport_around(&vec![1.0], &vec![0, 2, 0, 2, 0], &scale_kernel).unwrap(), vec![1.0]);
}

#[test]
fn schedule_states_equal_separate_transports() {
    let c = Connection::from_matrices(vec![vec![vec![2.0]], vec![vec![0.5]], vec![vec![3.0]]]);
    let bundle = FiberBundle::with_connection(vec![0.0, 1.0, 2.0, 3.0], 1, c).unwrap();
    let expected: Vec<Vec<f64>> = (0..4).map(|i| bundle.transport(&vec![4.0], 0, i, &scale_kernel).unwrap()).collect();
    let schedules = ScheduleBuilder::new(bundle).add_agent("a", vec![4.0], 1).unwrap().build(&scale_kernel).unwrap();
    assert_eq!(schedules[0].fiber_states, expected);
    assert_eq!(expected, vec![vec![4.0], vec![8.0], vec![4.0], vec![12.0]]);
}

#[test]
fn add_agent_adds_exactly_one_schedule() {
    let make = || FiberBundle::with_connection(vec![0.0, 1.0, 2.0], 1, Connection::from_matrices(vec![vec![vec![2.0]], vec![vec![3.0]]])).unwrap();
    let before = ScheduleBuilder::new(make())
        .add_agent("x", vec![1.0], 4)
        .unwrap()
        .add_agent("y", vec![2.0], 1)
        .unwrap();
    let after = ScheduleBuilder::new(make())
        .add_agent("x", vec![1.0], 4)
        .unwrap()
        .add_agent("y", vec![2.0], 1)
        .unwrap()
        .add_agent("z", vec![5.0], 2)
        .unwrap();
    let b = before.build(&scale_kernel).unwrap();
    let a = after.build(&scale_kernel).unwrap();
    assert_eq!(a.len(), b.len() + 1);
    assert_eq!(a[0].agent_id, b[0].agent_id);
    assert_eq!(a[0].fiber_states, b[0].fiber_states);
    assert_eq!(a[1].agent_id, "z");
    assert_eq!(a[1].fiber_states, vec![vec![5.0], vec![10.0], vec![30.0]]);
    assert_eq!(a[2].agent_id, b[1].agent_id);
    assert_eq!(a[2].fiber_states, b[1].fiber_states);
}

#[test]
fn select_reports_keeps_flagged_loops() {
    let loops = vec![vec![0, 1, 2, 0], vec![1, 2, 3, 1], vec![2, 3, 4, 2]];
    let drifts = vec![0.5, 0.01, 0.9];
    let flags = vec![true, false, true];
    let ids = vec!["a".to_string(), "b".to_string()];
    let reports = select_reports(&loops, &drifts, &flags, &ids);
    assert_eq!(reports.len(), 2);
    assert_eq!(reports[0].loop_path, vec![0, 1, 2, 0]);
    assert_eq!(reports[1].loop_path, vec![2, 3, 4, 2]);
    assert_eq!(reports[1].drift, 0.9);
    assert_eq!(reports[0].agent_ids, ids);
    assert!(select_reports(&loops, &drifts, &vec![false; 3], &ids).is_empty());
}

#[test]
fn form_constructors_and_dimensions() {
    let z = ConnectionForm::<f64>::zero(3);
    assert_eq!(z.dim(), 3);
    assert_eq!(z.components, vec![vec![0.0; 3]; 3]);
    let w = ConnectionForm::new(vec![vec![0.0, 0.1], vec![-0.1, 0.0]]);
    assert_eq!(w.dim(), 2);
    assert_eq!(w.exterior_derivative(1e-6).components, vec![vec![0.0; 2]; 2]);
    let c = CurvatureForm::<f64>::zero(2);
    assert_eq!(c.dim(), 2);
    assert_eq!(c.components, vec![vec![vec![0.0; 2]; 2]]);
    assert_eq!(CurvatureForm::<f64>::new(vec![]).dim(), 0);
    let g = GaugeFixer::custom("rotated".to_string(), vec![vec![0.0, -1.0], vec![1.0, 0.0]]);
    assert_eq!(g.gauge.frame, "rotated");
    assert_eq!(g.gauge.transformation[0][1], -1.0);
    let h = HolonomyGroup::new(vec![vec![1.0]], 0.25);
    assert_eq!(h.drift, 0.25);
}
