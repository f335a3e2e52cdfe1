use nengo_engine::array::NdArray;
use nengo_engine::error::OperatorError;
use nengo_engine::operator::copy::CopyOp;
use nengo_engine::operator::dot_inc::DotInc;
use nengo_engine::operator::elementwise_inc::ElementwiseInc;
use nengo_engine::operator::reset::Reset;
use nengo_engine::operator::time_update::TimeUpdate;
use nengo_engine::engine::Engine;
use nengo_engine::operator::{AnyOperator, HostArg, HostFunction, Operator, OperatorNode};
use nengo_engine::probe::SignalProbe;
use nengo_engine::signal::SignalTable;

struct NoHost;

impl HostFunction for NoHost {
    fn call(&self, _args: &mut Vec<HostArg>) -> Result<Option<NdArray>, OperatorError> {
        Ok(None)
    }
}

fn array(shape: Vec<usize>, data: Vec<i64>) -> NdArray {
    NdArray::new(shape, data).unwrap()
}

fn filled(n: usize, v: i64) -> NdArray {
    NdArray::from_vec(vec![v; n])
}

#[test]
fn it_copies_scalar_signals() {
    let mut signals = SignalTable::new();
    let src = signals.add_scalar("src".to_string(), 42);
    let dst = signals.add_scalar("dst".to_string(), 0);
    let op = CopyOp { inc: false, src, dst };
    signals.reset(src);
    signals.reset(dst);

    op.step(&mut signals).unwrap();

    assert_eq!(signals.read(src), signals.read(dst));
}

#[test]
fn it_copies_array_signals() {
    let mut signals = SignalTable::new();
    let src = signals.add_array("src".to_string(), filled(2, 42)).unwrap();
    let dst = signals.add_array("dst".to_string(), filled(2, 0)).unwrap();
    let op = CopyOp { inc: false, src, dst };
    signals.reset(src);
    signals.reset(dst);

    op.step(&mut signals).unwrap();

    assert_eq!(signals.read(src), signals.read(dst));
}

#[test]
fn it_increments_scalar_signals() {
    let mut signals = SignalTable::new();
    let src = signals.add_scalar("src".to_string(), 42);
    let dst = signals.add_scalar("dst".to_string(), 1);
    let op = CopyOp { inc: true, src, dst };
    signals.reset(src);
    signals.reset(dst);

    op.step(&mut signals).unwrap();

    assert_eq!(signals.scalar_value(dst), Some(43));
}

#[test]
fn it_increments_array_signals() {
    let mut signals = SignalTable::new();
    let src = signals.add_array("src".to_string(), filled(2, 42)).unwrap();
    let dst = signals.add_array("dst".to_string(), filled(2, 1)).unwrap();
    let op = CopyOp { inc: true, src, dst };
    signals.reset(src);
    signals.reset(dst);

    op.step(&mut signals).unwrap();

    assert_eq!(signals.read(dst), vec![43, 43]);
}

#[test]
fn copy_rejects_mixed_kinds_and_shapes() {
    let mut signals = SignalTable::new();
    let scalar = signals.add_scalar("s".to_string(), 1);
    let pair = signals.add_array("pair".to_string(), filled(2, 1)).unwrap();
    let triple = signals.add_array("triple".to_string(), filled(3, 1)).unwrap();
    let mixed = CopyOp { inc: false, src: scalar, dst: pair };
    assert_eq!(mixed.apply(&mut signals), Err(OperatorError::TypeMismatch));
    let shapes = CopyOp { inc: false, src: pair, dst: triple };
    assert_eq!(shapes.apply(&mut signals), Err(OperatorError::ShapeMismatch));
    assert_eq!(signals.read(triple), vec![1, 1, 1]);
}

#[test]
fn copy_inc_reports_overflow_and_leaves_target() {
    let mut signals = SignalTable::new();
    let src = signals.add_scalar("src".to_string(), 1);
    let dst = signals.add_scalar("dst".to_string(), i64::MAX);
    let op = CopyOp { inc: true, src, dst };
    assert_eq!(op.apply(&mut signals), Err(OperatorError::Overflow));
    assert_eq!(signals.scalar_value(dst), Some(i64::MAX));
}

#[test]
fn it_performs_a_dot_product() {
    let mut signals = SignalTable::new();
    let target = signals.add_array("target".to_string(), filled(1, 1)).unwrap();
    let left = signals.add_array("left".to_string(), array(vec![1, 2], vec![2, 3])).unwrap();
    let right = signals.add_array("right".to_string(), NdArray::from_vec(vec![6, 7])).unwrap();
    let op = DotInc { target, left, right };
    for s in [target, left, right] {
        signals.reset(s);
    }

    op.step(&mut signals).unwrap();

    assert_eq!(signals.read(target), vec![34]);
}

#[test]
fn it_performs_a_matrix_vector_product() {
    let mut signals = SignalTable::new();
    let target = signals.add_array("target".to_string(), filled(2, 1)).unwrap();
    let left = signals.add_array("left".to_string(), array(vec![2, 2], vec![2, 3, 4, 5])).unwrap();
    let right = signals.add_array("right".to_string(), NdArray::from_vec(vec![6, 7])).unwrap();
    let op = DotInc { target, left, right };
    for s in [target, left, right] {
        signals.reset(s);
    }

    op.step(&mut signals).unwrap();

    assert_eq!(signals.read(target), vec![34, 60]);
}

#[test]
fn dot_of_two_vectors_gives_one_element() {
    let mut signals = SignalTable::new();
    let target = signals.add_array("target".to_string(), filled(1, 1)).unwrap();
    let left = signals.add_array("left".to_string(), NdArray::from_vec(vec![2, 3])).unwrap();
    let right = signals.add_array("right".to_string(), NdArray::from_vec(vec![6, 7])).unwrap();
    DotInc { target, left, right }.apply(&mut signals).unwrap();
    assert_eq!(signals.read(target), vec![34]);
}

#[test]
fn dot_rejects_other_ranks() {
    let mut signals = SignalTable::new();
    let target = signals.add_array("target".to_string(), filled(2, 1)).unwrap();
    let left = signals.add_array("left".to_string(), array(vec![2, 2], vec![2, 3, 4, 5])).unwrap();
    let right = signals.add_array("right".to_string(), array(vec![2, 1], vec![6, 7])).unwrap();
    let op = DotInc { target, left, right };
    assert_eq!(op.apply(&mut signals), Err(OperatorError::ShapeMismatch));
    assert_eq!(signals.read(target), vec![1, 1]);
}

#[test]
fn it_performs_an_elementwise_increment() {
    let mut signals = SignalTable::new();
    let target = signals.add_array("target".to_string(), filled(2, 1)).unwrap();
    let left = signals.add_array("left".to_string(), NdArray::from_vec(vec![2, 3])).unwrap();
    let right = signals.add_array("right".to_string(), NdArray::from_vec(vec![4, 5])).unwrap();
    let op = ElementwiseInc { target, left, right };
    for s in [target, left, right] {
        signals.reset(s);
    }

    op.step(&mut signals).unwrap();

    assert_eq!(signals.read(target), vec![9, 16]);
}

#[test]
fn it_broadcasts_scalar() {
    let mut signals = SignalTable::new();
    let target = signals.add_array("target".to_string(), filled(2, 1)).unwrap();
    let left = signals.add_array("left".to_string(), NdArray::from_vec(vec![2])).unwrap();
    let right = signals.add_array("right".to_string(), NdArray::from_vec(vec![4, 5])).unwrap();
    let op = ElementwiseInc { target, left, right };
    for s in [target, left, right] {
        signals.reset(s);
    }

    op.step(&mut signals).unwrap();

    assert_eq!(signals.read(target), vec![9, 11]);
}

#[test]
fn elementwise_broadcasts_on_the_right_too() {
    let mut signals = SignalTable::new();
    let target = signals.add_array("target".to_string(), filled(2, 1)).unwrap();
    let left = signals.add_array("left".to_string(), NdArray::from_vec(vec![4, 5])).unwrap();
    let right = signals.add_array("right".to_string(), NdArray::from_vec(vec![2])).unwrap();
    ElementwiseInc { target, left, right }.apply(&mut signals).unwrap();
    assert_eq!(signals.read(target), vec![9, 11]);
}

#[test]
fn elementwise_rejects_other_broadcasts() {
    let mut signals = SignalTable::new();
    let target = signals.add_array("target".to_string(), filled(2, 1)).unwrap();
    let left = signals.add_array("left".to_string(), NdArray::from_vec(vec![2, 3, 4])).unwrap();
    let right = signals.add_array("right".to_string(), NdArray::from_vec(vec![4, 5])).unwrap();
    let op = ElementwiseInc { target, left, right };
    assert_eq!(op.apply(&mut signals), Err(OperatorError::ShapeMismatch));
}

#[test]
fn elementwise_reports_overflow_of_a_product() {
    let mut signals = SignalTable::new();
    let target = signals.add_array("target".to_string(), filled(1, 0)).unwrap();
    let left = signals.add_array("left".to_string(), NdArray::from_vec(vec![i64::MAX])).unwrap();
    let right = signals.add_array("right".to_string(), NdArray::from_vec(vec![2])).unwrap();
    let op = ElementwiseInc { target, left, right };
    assert_eq!(op.apply(&mut signals), Err(OperatorError::Overflow));
}

#[test]
fn it_assigns_the_value_for_scalar_signals() {
    let mut signals = SignalTable::new();
    let target = signals.add_scalar("target".to_string(), 0);
    let op = Reset { value: array(vec![], vec![42]), target };
    signals.reset(target);

    op.step(&mut signals).unwrap();

    assert_eq!(signals.scalar_value(target), Some(42));
}

#[test]
fn it_assigns_the_value_for_array_signals() {
    let mut signals = SignalTable::new();
    let target = signals.add_array("target".to_string(), filled(2, 0)).unwrap();
    let op = Reset { value: NdArray::from_vec(vec![1, 2]), target };
    signals.reset(target);

    op.step(&mut signals).unwrap();

    assert_eq!(signals.read(target), vec![1, 2]);
}

#[test]
fn reset_operator_sets_any_contents_to_the_value() {
    let mut signals = SignalTable::new();
    let target = signals.add_array("target".to_string(), NdArray::from_vec(vec![-7, 99])).unwrap();
    let op = Reset { value: NdArray::from_vec(vec![1, 2]), target };
    op.apply(&mut signals).unwrap();
    assert_eq!(signals.read(target), vec![1, 2]);
    let wrong = Reset { value: NdArray::from_vec(vec![1, 2, 3]), target };
    assert_eq!(wrong.apply(&mut signals), Err(OperatorError::ShapeMismatch));
    let missing = Reset { value: NdArray::from_vec(vec![1, 2]), target: 5 };
    assert_eq!(missing.apply(&mut signals), Err(OperatorError::TypeMismatch));
}

#[test]
fn it_increments_the_steps() {
    let mut signals = SignalTable::new();
    let step_target = signals.add_scalar("step_target".to_string(), 0);
    let time_target = signals.add_scalar("time_target".to_string(), 0);
    let op = TimeUpdate { dt: 1000, step_target, time_target };
    signals.reset(step_target);
    signals.reset(time_target);

    for _ in 0..3 {
        op.step(&mut signals).unwrap();
    }

    assert_eq!(signals.scalar_value(step_target), Some(3));
}

#[test]
fn it_increments_the_time() {
    let mut signals = SignalTable::new();
    let step_target = signals.add_scalar("step_target".to_string(), 0);
    let time_target = signals.add_scalar("time_target".to_string(), 0);
    let op = TimeUpdate { dt: 1000, step_target, time_target };
    signals.reset(step_target);
    signals.reset(time_target);

    for _ in 0..3 {
        op.step(&mut signals).unwrap();
    }

    assert_eq!(signals.scalar_value(time_target), Some(3 * op.dt));
}

#[test]
fn time_update_rejects_array_targets_and_overflow() {
    let mut signals = SignalTable::new();
    let step_target = signals.add_scalar("step".to_string(), i64::MAX);
    let time_target = signals.add_scalar("time".to_string(), 0);
    let arr = signals.add_array("arr".to_string(), filled(1, 0)).unwrap();
    let bad_kind = TimeUpdate { dt: 1, step_target: arr, time_target };
    assert_eq!(bad_kind.apply(&mut signals), Err(OperatorError::TypeMismatch));
    let overflow = TimeUpdate { dt: 1, step_target, time_target };
    assert_eq!(overflow.apply(&mut signals), Err(OperatorError::Overflow));
    assert_eq!(signals.scalar_value(step_target), Some(i64::MAX));
}

#[test]
fn dot_reports_overflow_of_a_partial_sum() {
    let mut signals = SignalTable::new();
    let target = signals.add_array("target".to_string(), filled(1, 0)).unwrap();
    let left = signals.add_array("left".to_string(), NdArray::from_vec(vec![i64::MAX, 1])).unwrap();
    let right = signals.add_array("right".to_string(), NdArray::from_vec(vec![1, 1])).unwrap();
    let op = DotInc { target, left, right };
    assert_eq!(op.apply(&mut signals), Err(OperatorError::Overflow));
    assert_eq!(signals.read(target), vec![0]);
}

#[test]
fn mixed_operators_in_one_list() {
    let mut signals = SignalTable::new();
    let acc = signals.add_array("acc".to_string(), filled(2, 0)).unwrap();
    let one = signals.add_array("one".to_string(), filled(2, 1)).unwrap();
    let scale = signals.add_array("scale".to_string(), NdArray::from_vec(vec![3])).unwrap();
    let probe = SignalProbe::new(&signals, acc).unwrap();
    let operators: Vec<OperatorNode<AnyOperator<NoHost>>> = vec![
        OperatorNode {
            operator: AnyOperator::Reset(Reset { value: NdArray::from_vec(vec![1, 2]), target: acc }),
            dependencies: vec![],
        },
        OperatorNode {
            operator: AnyOperator::ElementwiseInc(ElementwiseInc { target: acc, left: scale, right: one }),
            dependencies: vec![0],
        },
        OperatorNode {
            operator: AnyOperator::Copy(CopyOp { inc: true, src: one, dst: acc }),
            dependencies: vec![1],
        },
    ];
    let mut engine = Engine::new(signals, operators, vec![probe]).unwrap();
    engine.run_steps(2).unwrap();
    assert_eq!(engine.signals().read(acc), vec![5, 6]);
    assert_eq!(engine.probes()[0].get_data(), &vec![vec![5, 6], vec![5, 6]]);
}
