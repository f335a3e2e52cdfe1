use nengo_engine::array::NdArray;
use nengo_engine::error::OperatorError;
use nengo_engine::operator::sim_neurons::SimNeurons;
use nengo_engine::operator::sim_process::SimProcess;
use nengo_engine::operator::sim_pyfunc::SimPyFunc;
use nengo_engine::operator::{HostArg, HostFunction, Operator};
use nengo_engine::signal::SignalTable;

struct Func<G>(G);

impl<G: Fn(&mut Vec<HostArg>) -> Result<Option<NdArray>, OperatorError>> HostFunction for Func<G> {
    fn call(&self, args: &mut Vec<HostArg>) -> Result<Option<NdArray>, OperatorError> {
        (self.0)(args)
    }
}

fn scalar(a: &HostArg) -> i64 {
    match a {
        HostArg::Scalar(v) => *v,
        HostArg::Array(_) => panic!("expected a scalar"),
    }
}

fn values(a: &HostArg) -> Vec<i64> {
    match a {
        HostArg::Array(x) => x.data.clone(),
        HostArg::Scalar(_) => panic!("expected an array"),
    }
}

fn set_output(args: &mut Vec<HostArg>, v: Vec<i64>) {
    match &mut args[2] {
        HostArg::Array(x) => x.data = v,
        HostArg::Scalar(_) => panic!("expected an array"),
    }
}

#[test]
fn it_calls_the_step_function_and_copies_the_output() {
    let mut signals = SignalTable::new();
    let input_current =
        signals.add_array("input_current".to_string(), NdArray::from_vec(vec![1])).unwrap();
    let output = signals.add_array("output".to_string(), NdArray::from_vec(vec![0])).unwrap();
    let step = Func(|args: &mut Vec<HostArg>| {
        let dt = scalar(&args[0]);
        let j = values(&args[1]);
        set_output(args, j.iter().map(|x| dt * x).collect());
        Ok(None)
    });
    let op = SimNeurons { dt: 2, input_current, output, state: vec![], step_fn: step };
    signals.reset(input_current);
    signals.reset(output);

    op.step(&mut signals).unwrap();

    assert_eq!(signals.read(output), vec![2]);
}

#[test]
fn it_calls_the_step_function_with_the_state() {
    let mut signals = SignalTable::new();
    let input_current =
        signals.add_array("input_current".to_string(), NdArray::from_vec(vec![1])).unwrap();
    let output = signals.add_array("output".to_string(), NdArray::from_vec(vec![0])).unwrap();
    let step = Func(|args: &mut Vec<HostArg>| {
        let dt = scalar(&args[0]);
        let j = values(&args[1]);
        let state_var = scalar(&args[3]);
        set_output(args, j.iter().map(|x| dt * x + state_var).collect());
        Ok(None)
    });
    let op = SimNeurons { dt: 2, input_current, output, state: vec![HostArg::Scalar(4)], step_fn: step };
    signals.reset(input_current);
    signals.reset(output);

    op.step(&mut signals).unwrap();

    assert_eq!(signals.read(output), vec![6]);
}

#[test]
fn neurons_that_break_the_buffer_are_refused() {
    let mut signals = SignalTable::new();
    let input_current = signals.add_array("in".to_string(), NdArray::from_vec(vec![1])).unwrap();
    let output = signals.add_array("out".to_string(), NdArray::from_vec(vec![5])).unwrap();
    let step = Func(|args: &mut Vec<HostArg>| {
        set_output(args, vec![1, 2]);
        Ok(None)
    });
    let op = SimNeurons { dt: 1, input_current, output, state: vec![], step_fn: step };
    assert_eq!(op.apply(&mut signals), Err(OperatorError::CallbackTypeError));
    assert_eq!(signals.read(output), vec![5]);
    let failing = SimNeurons {
        dt: 1,
        input_current,
        output,
        state: vec![],
        step_fn: Func(|_: &mut Vec<HostArg>| Err(OperatorError::Overflow)),
    };
    assert_eq!(failing.apply(&mut signals), Err(OperatorError::CallbackFailed));
}

#[test]
fn it_calls_the_function_without_input() {
    let mut signals = SignalTable::new();
    let t = signals.add_scalar("t".to_string(), 1);
    let output = signals.add_array("output".to_string(), NdArray::from_vec(vec![0])).unwrap();
    let step = Func(|args: &mut Vec<HostArg>| {
        assert_eq!(args.len(), 1);
        Ok(Some(NdArray::from_vec(vec![scalar(&args[0])])))
    });
    let op = SimProcess { mode_inc: false, t, input: None, output, step_fn: step };
    signals.reset(t);
    signals.reset(output);

    op.step(&mut signals).unwrap();

    assert_eq!(signals.read(output), vec![1]);
}

#[test]
fn it_calls_the_function_with_input() {
    let mut signals = SignalTable::new();
    let t = signals.add_scalar("t".to_string(), 1);
    let input = signals.add_array("input".to_string(), NdArray::from_vec(vec![2])).unwrap();
    let output = signals.add_array("output".to_string(), NdArray::from_vec(vec![0])).unwrap();
    let step = Func(|args: &mut Vec<HostArg>| Ok(Some(NdArray::from_vec(values(&args[1])))));
    let op = SimProcess { mode_inc: false, t, input: Some(input), output, step_fn: step };
    signals.reset(t);
    signals.reset(input);
    signals.reset(output);

    op.step(&mut signals).unwrap();

    assert_eq!(signals.read(output), vec![2]);
}

#[test]
fn it_calls_the_function_and_increments_the_output() {
    let mut signals = SignalTable::new();
    let t = signals.add_scalar("t".to_string(), 1);
    let output = signals.add_array("output".to_string(), NdArray::from_vec(vec![1])).unwrap();
    let step = Func(|args: &mut Vec<HostArg>| Ok(Some(NdArray::from_vec(vec![scalar(&args[0])]))));
    let op = SimProcess { mode_inc: true, t, input: None, output, step_fn: step };
    signals.reset(t);
    signals.reset(output);

    op.step(&mut signals).unwrap();

    assert_eq!(signals.read(output), vec![2]);
}

#[test]
fn process_without_result_leaves_the_output() {
    let mut signals = SignalTable::new();
    let t = signals.add_scalar("t".to_string(), 1);
    let output = signals.add_array("output".to_string(), NdArray::from_vec(vec![7])).unwrap();
    let op = SimProcess {
        mode_inc: false,
        t,
        input: None,
        output,
        step_fn: Func(|_: &mut Vec<HostArg>| Ok(None)),
    };
    op.apply(&mut signals).unwrap();
    assert_eq!(signals.read(output), vec![7]);
    let wrong_shape = SimProcess {
        mode_inc: false,
        t,
        input: None,
        output,
        step_fn: Func(|_: &mut Vec<HostArg>| Ok(Some(NdArray::from_vec(vec![1, 2])))),
    };
    assert_eq!(wrong_shape.apply(&mut signals), Err(OperatorError::CallbackTypeError));
    let bad_time = SimProcess {
        mode_inc: false,
        t: output,
        input: None,
        output,
        step_fn: Func(|_: &mut Vec<HostArg>| Ok(None)),
    };
    assert_eq!(bad_time.apply(&mut signals), Err(OperatorError::TypeMismatch));
}

#[test]
fn it_calls_the_function_without_arguments() {
    let mut signals = SignalTable::new();
    let output = signals.add_array("output".to_string(), NdArray::from_vec(vec![0])).unwrap();
    let f = Func(|args: &mut Vec<HostArg>| {
        assert!(args.is_empty());
        Ok(Some(NdArray::from_vec(vec![42])))
    });
    let op = SimPyFunc { x: None, t: None, output, py_fn: f };
    signals.reset(output);

    op.step(&mut signals).unwrap();

    assert_eq!(signals.read(output), vec![42]);
}

#[test]
fn it_calls_the_function_with_time_argument() {
    let mut signals = SignalTable::new();
    let t = signals.add_scalar("t".to_string(), 1);
    let output = signals.add_array("output".to_string(), NdArray::from_vec(vec![0])).unwrap();
    let f = Func(|args: &mut Vec<HostArg>| Ok(Some(NdArray::from_vec(vec![scalar(&args[0])]))));
    let op = SimPyFunc { x: None, t: Some(t), output, py_fn: f };
    signals.reset(t);
    signals.reset(output);

    op.step(&mut signals).unwrap();

    assert_eq!(signals.read(output), vec![1]);
}

#[test]
fn it_calls_the_function_with_time_and_x_argument() {
    let mut signals = SignalTable::new();
    let x = signals.add_array("x".to_string(), NdArray::from_vec(vec![2, 3])).unwrap();
    let t = signals.add_scalar("t".to_string(), 1);
    let output = signals.add_array("output".to_string(), NdArray::from_vec(vec![0, 0, 0])).unwrap();
    let f = Func(|args: &mut Vec<HostArg>| {
        let mut v = vec![scalar(&args[0])];
        v.extend(values(&args[1]));
        Ok(Some(NdArray::from_vec(v)))
    });
    let op = SimPyFunc { x: Some(x), t: Some(t), output, py_fn: f };
    signals.reset(x);
    signals.reset(t);
    signals.reset(output);

    op.step(&mut signals).unwrap();

    assert_eq!(signals.read(output), vec![1, 2, 3]);
}

#[test]
fn input_without_time_is_passed_alone() {
    let mut signals = SignalTable::new();
    let x = signals.add_array("x".to_string(), NdArray::from_vec(vec![2, 3])).unwrap();
    let output = signals.add_array("output".to_string(), NdArray::from_vec(vec![0, 0])).unwrap();
    let f = Func(|args: &mut Vec<HostArg>| {
        assert_eq!(args.len(), 1);
        Ok(Some(NdArray::from_vec(values(&args[0]).iter().map(|v| v * 10).collect())))
    });
    let op = SimPyFunc { x: Some(x), t: None, output, py_fn: f };

    op.step(&mut signals).unwrap();

    assert_eq!(signals.read(output), vec![20, 30]);
}
