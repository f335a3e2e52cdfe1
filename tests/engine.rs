use std::sync::{Arc, RwLock};

use nengo_engine::array::NdArray;
use nengo_engine::engine::Engine;
use nengo_engine::error::{OperatorError, StepError};
use nengo_engine::operator::copy::CopyOp;
use nengo_engine::operator::time_update::TimeUpdate;
use nengo_engine::operator::{Operator, OperatorNode};
use nengo_engine::probe::{Probe, SignalProbe};
use nengo_engine::signal::SignalTable;
use nengo_engine::sync::Event;

struct FakeOperator {
    call_counter: Arc<RwLock<u32>>,
    call_indices: Arc<RwLock<Vec<u32>>>,
    fail: bool,
}

impl FakeOperator {
    fn new(call_counter: Arc<RwLock<u32>>) -> (Self, Arc<RwLock<Vec<u32>>>) {
        let call_indices = Arc::new(RwLock::new(vec![]));
        (
            Self { call_counter, call_indices: Arc::clone(&call_indices), fail: false },
            call_indices,
        )
    }
}

impl Operator for FakeOperator {
    fn step(&self, _signals: &mut SignalTable) -> Result<(), OperatorError> {
        self.call_indices.write().unwrap().push(*self.call_counter.read().unwrap());
        *self.call_counter.write().unwrap() += 1;
        if self.fail {
            Err(OperatorError::CallbackFailed)
        } else {
            Ok(())
        }
    }
}

struct FakeProbe {
    call_counter: Arc<RwLock<u32>>,
    call_indices: Vec<u32>,
}

impl FakeProbe {
    fn new(call_counter: Arc<RwLock<u32>>) -> Self {
        Self { call_counter, call_indices: vec![] }
    }
}

impl Probe for FakeProbe {
    fn probe(&mut self, _signals: &SignalTable) {
        self.call_indices.push(*self.call_counter.read().unwrap());
        *self.call_counter.write().unwrap() += 1;
    }
}

#[test]
fn engine_steps_operator_before_probing() {
    let call_counter = Arc::new(RwLock::new(0));
    let (fake_operator, op_call_indices) = FakeOperator::new(Arc::clone(&call_counter));
    let operator_node = OperatorNode { operator: fake_operator, dependencies: vec![] };
    let probe = FakeProbe::new(Arc::clone(&call_counter));
    let mut engine = Engine::new(SignalTable::new(), vec![operator_node], vec![probe]).unwrap();

    engine.run_step().unwrap();

    assert_eq!(*op_call_indices.read().unwrap(), vec![0]);
    assert_eq!(engine.probes()[0].call_indices, vec![1]);
}

#[test]
fn engine_runs_dependencies_first() {
    let call_counter = Arc::new(RwLock::new(0));
    let (fake_dependency, dependency_call_indices) = FakeOperator::new(Arc::clone(&call_counter));
    let (fake_dependent, dependent_call_indices) = FakeOperator::new(Arc::clone(&call_counter));
    let operators = vec![
        OperatorNode { operator: fake_dependency, dependencies: vec![] },
        OperatorNode { operator: fake_dependent, dependencies: vec![0] },
    ];
    let mut engine =
        Engine::<FakeOperator, FakeProbe>::new(SignalTable::new(), operators, vec![]).unwrap();

    engine.run_step().unwrap();

    assert_eq!(*dependency_call_indices.read().unwrap(), vec![0]);
    assert_eq!(*dependent_call_indices.read().unwrap(), vec![1]);
}

#[test]
fn engine_run_steps_runs_multiple_steps() {
    let call_counter = Arc::new(RwLock::new(0));
    let (fake_operator, op_call_indices) = FakeOperator::new(Arc::clone(&call_counter));
    let operator_node = OperatorNode { operator: fake_operator, dependencies: vec![] };
    let probe = FakeProbe::new(Arc::clone(&call_counter));
    let mut engine = Engine::new(SignalTable::new(), vec![operator_node], vec![probe]).unwrap();

    engine.run_steps(3).unwrap();

    assert_eq!(*op_call_indices.read().unwrap(), vec![0, 2, 4]);
    assert_eq!(engine.probes()[0].call_indices, vec![1, 3, 5]);
}

#[test]
fn engine_reset_resets_all_signals() {
    let mut signals = SignalTable::new();
    let s1 = signals.add_scalar("s1".to_string(), 1);
    let s2 = signals.add_array("s2".to_string(), NdArray::from_vec(vec![2, 3])).unwrap();
    signals.write_scalar(s1, 10).unwrap();
    signals.assign_values(s2, &vec![20, 30]).unwrap();
    let mut engine = Engine::<CopyOp, SignalProbe>::new(signals, vec![], vec![]).unwrap();

    engine.reset();

    assert_eq!(engine.signals().read(s1), vec![1]);
    assert_eq!(engine.signals().read(s2), vec![2, 3]);
}

#[test]
fn dependency_and_probe_order_in_one_step() {
    let call_counter = Arc::new(RwLock::new(0));
    let (a, a_indices) = FakeOperator::new(Arc::clone(&call_counter));
    let (b, b_indices) = FakeOperator::new(Arc::clone(&call_counter));
    let operators = vec![
        OperatorNode { operator: a, dependencies: vec![] },
        OperatorNode { operator: b, dependencies: vec![0] },
    ];
    let probe = FakeProbe::new(Arc::clone(&call_counter));
    let mut engine = Engine::new(SignalTable::new(), operators, vec![probe]).unwrap();

    engine.run_step().unwrap();

    assert_eq!(*a_indices.read().unwrap(), vec![0]);
    assert_eq!(*b_indices.read().unwrap(), vec![1]);
    assert_eq!(engine.probes()[0].call_indices, vec![2]);
}

#[test]
fn forward_dependencies_are_refused() {
    let call_counter = Arc::new(RwLock::new(0));
    let (a, _) = FakeOperator::new(Arc::clone(&call_counter));
    let operators = vec![OperatorNode { operator: a, dependencies: vec![0] }];
    let r = Engine::<FakeOperator, FakeProbe>::new(SignalTable::new(), operators, vec![]);
    assert!(matches!(r, Err(nengo_engine::error::ConstructionError::BadDependencyIndex)));
}

#[test]
fn a_failed_step_stops_and_later_steps_fail_fast() {
    let call_counter = Arc::new(RwLock::new(0));
    let (a, a_indices) = FakeOperator::new(Arc::clone(&call_counter));
    let (mut b, b_indices) = FakeOperator::new(Arc::clone(&call_counter));
    b.fail = true;
    let (c, c_indices) = FakeOperator::new(Arc::clone(&call_counter));
    let operators = vec![
        OperatorNode { operator: a, dependencies: vec![] },
        OperatorNode { operator: b, dependencies: vec![] },
        OperatorNode { operator: c, dependencies: vec![] },
    ];
    let probe = FakeProbe::new(Arc::clone(&call_counter));
    let mut engine = Engine::new(SignalTable::new(), operators, vec![probe]).unwrap();

    assert_eq!(
        engine.run_step(),
        Err(StepError::OperatorFailure(1, OperatorError::CallbackFailed))
    );
    assert!(engine.has_failed());
    assert_eq!(engine.run_step(), Err(StepError::Failed));
    assert_eq!(*a_indices.read().unwrap(), vec![0]);
    assert_eq!(*b_indices.read().unwrap(), vec![1]);
    assert!(c_indices.read().unwrap().is_empty());
    assert!(engine.probes()[0].call_indices.is_empty());
}

fn time_engine(dt: i64) -> (Engine<TimeUpdate, SignalProbe>, usize, usize) {
    let mut signals = SignalTable::new();
    let step_target = signals.add_scalar("step".to_string(), 0);
    let time_target = signals.add_scalar("time".to_string(), 0);
    let op = TimeUpdate { dt, step_target, time_target };
    let probe = SignalProbe::new(&signals, step_target).unwrap();
    let engine = Engine::new(
        signals,
        vec![OperatorNode { operator: op, dependencies: vec![] }],
        vec![probe],
    )
    .unwrap();
    (engine, step_target, time_target)
}

#[test]
fn time_update_loop_in_the_engine() {
    let (mut engine, step_target, time_target) = time_engine(1);
    engine.run_steps(3).unwrap();
    assert_eq!(engine.signals().scalar_value(step_target), Some(3));
    assert_eq!(engine.signals().scalar_value(time_target), Some(3));
}

#[test]
fn probes_hold_one_sample_per_step() {
    let (mut engine, _, _) = time_engine(5);
    engine.run_steps(4).unwrap();
    assert_eq!(engine.probes()[0].len(), 4);
    assert_eq!(engine.probes()[0].get_data(), &vec![vec![1], vec![2], vec![3], vec![4]]);
    engine.run_steps(0).unwrap();
    engine.run_steps(-2).unwrap();
    assert_eq!(engine.probes()[0].len(), 4);
}

#[test]
fn reset_after_stepping() {
    let (mut engine, step_target, time_target) = time_engine(2);
    engine.run_steps(5).unwrap();
    engine.reset();
    engine.run_step().unwrap();
    assert_eq!(engine.signals().scalar_value(step_target), Some(1));
    assert_eq!(engine.signals().scalar_value(time_target), Some(2));
    assert_eq!(engine.probes()[0].len(), 6);
}

#[test]
fn event_latch_reports_transitions() {
    let mut e = Event::new();
    assert!(!e.wait());
    assert!(e.set());
    assert!(e.wait());
    assert!(!e.set());
    assert!(e.clear());
    assert!(!e.clear());
    assert!(!e.wait());
    assert!(!e.set_value(false));
    assert!(e.set_value(true));
}
