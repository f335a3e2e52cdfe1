use nengo_engine::array::NdArray;
use nengo_engine::error::{ConstructionError, OperatorError};
use nengo_engine::probe::SignalProbe;
use nengo_engine::signal::{ArraySignal, Signal, SignalTable};
use nengo_engine::slice::{compute_offsets, slices_from_strides, SliceAxis};

fn axis(start: usize, step: usize, end: usize) -> SliceAxis {
    SliceAxis { start, step, end }
}

#[test]
fn strides_give_the_start_multi_index() {
    let slices =
        slices_from_strides(10, &vec![8, 4, 1], &vec![1, 1, 1], &vec![8, 4, 1], &vec![5, 2, 4]).unwrap();
    let starts: Vec<usize> = slices.iter().map(|a| a.start).collect();
    assert_eq!(starts, vec![1, 0, 2]);
}

#[test]
fn strides_give_the_steps() {
    let slices = slices_from_strides(
        0,
        &vec![480, 192, 192, 24],
        &vec![1, 2, 2, 2],
        &vec![480, 96, 48, 8],
        &vec![10, 10, 10, 10],
    )
    .unwrap();
    let steps: Vec<usize> = slices.iter().map(|a| a.step).collect();
    assert_eq!(steps, vec![1, 2, 4, 3]);
    let ends: Vec<usize> = slices.iter().map(|a| a.end).collect();
    assert_eq!(ends, vec![1, 4, 8, 6]);
}

#[test]
fn strides_clamp_the_end_to_the_base() {
    let slices = slices_from_strides(2, &vec![1], &vec![10], &vec![1], &vec![4]).unwrap();
    assert_eq!(slices, vec![axis(2, 1, 4)]);
}

#[test]
fn strides_need_positive_base_strides_and_matching_ranks() {
    assert_eq!(
        slices_from_strides(0, &vec![1], &vec![1], &vec![0], &vec![4]),
        Err(ConstructionError::ShapeMismatch)
    );
    assert_eq!(
        slices_from_strides(0, &vec![1, 1], &vec![1], &vec![1], &vec![4]),
        Err(ConstructionError::ShapeMismatch)
    );
}

#[test]
fn offsets_of_a_three_dimensional_slice() {
    let offsets = compute_offsets(&vec![3, 4, 5], &vec![axis(1, 1, 2), axis(0, 2, 4), axis(1, 2, 4)]);
    assert_eq!(offsets, vec![21, 23, 31, 33]);
}

#[test]
fn view_reads_its_slice_of_the_base() {
    let mut signals = SignalTable::new();
    let base = signals.add_array("BaseSignal".to_string(), NdArray::from_vec(vec![0, 1, 0, 2])).unwrap();
    let view = ArraySignal::new_view("view_signal".to_string(), &signals, base, vec![axis(1, 2, 4)], None)
        .unwrap();
    let view = signals.add(Signal::Array(view));
    assert_eq!(signals.shape(view), vec![2]);
    assert_eq!(signals.name(view), "view_signal");
    let probe_target = signals.read(view);
    assert_eq!(probe_target, vec![1, 2]);
}

#[test]
fn view_writes_reach_the_base() {
    let mut signals = SignalTable::new();
    let base = signals.add_array("base".to_string(), NdArray::from_vec(vec![0, 1, 0, 2])).unwrap();
    let view = ArraySignal::new_view("view".to_string(), &signals, base, vec![axis(1, 2, 4)], None)
        .unwrap();
    let view = signals.add(Signal::Array(view));
    let mut probe = SignalProbe::new(&signals, view).unwrap();
    probe.sample(&signals);
    assert_eq!(probe.get_data(), &vec![vec![1, 2]]);

    signals.assign_values(view, &vec![9, 9]).unwrap();
    assert_eq!(signals.read(base), vec![0, 9, 0, 9]);

    signals.assign_values(base, &vec![5, 6, 7, 8]).unwrap();
    assert_eq!(signals.read(view), vec![6, 8]);
}

#[test]
fn view_of_a_three_dimensional_base() {
    let mut signals = SignalTable::new();
    let data: Vec<i64> = (0..60).collect();
    let base = signals
        .add_array("BaseSignal".to_string(), NdArray::new(vec![3, 4, 5], data).unwrap())
        .unwrap();
    let view = ArraySignal::new_view(
        "view_signal".to_string(),
        &signals,
        base,
        vec![axis(1, 1, 2), axis(0, 2, 4), axis(1, 2, 4)],
        None,
    )
    .unwrap();
    let view = signals.add(Signal::Array(view));
    assert_eq!(signals.shape(view), vec![1, 2, 2]);
    assert_eq!(signals.read(view), vec![21, 23, 31, 33]);
}

#[test]
fn views_of_views_and_bad_slices_are_refused() {
    let mut signals = SignalTable::new();
    let scalar = signals.add_scalar("s".to_string(), 0);
    let base = signals.add_array("base".to_string(), NdArray::from_vec(vec![0, 1, 0, 2])).unwrap();
    let view = ArraySignal::new_view("view".to_string(), &signals, base, vec![axis(0, 1, 2)], None)
        .unwrap();
    let view = signals.add(Signal::Array(view));
    let err = |r: Result<ArraySignal, ConstructionError>| r.err().unwrap();
    assert_eq!(
        err(ArraySignal::new_view("v".to_string(), &signals, view, vec![axis(0, 1, 1)], None)),
        ConstructionError::ViewOfView
    );
    assert_eq!(
        err(ArraySignal::new_view("v".to_string(), &signals, scalar, vec![], None)),
        ConstructionError::TypeMismatch
    );
    assert_eq!(
        err(ArraySignal::new_view("v".to_string(), &signals, 9, vec![axis(0, 1, 1)], None)),
        ConstructionError::UnknownSignal
    );
    assert_eq!(
        err(ArraySignal::new_view("v".to_string(), &signals, base, vec![axis(0, 1, 5)], None)),
        ConstructionError::ShapeMismatch
    );
    assert_eq!(
        err(ArraySignal::new_view("v".to_string(), &signals, base, vec![axis(0, 0, 2)], None)),
        ConstructionError::ShapeMismatch
    );
    assert_eq!(
        err(ArraySignal::new_view("v".to_string(), &signals, base, vec![axis(0, 1, 2)], Some(vec![1]))),
        ConstructionError::ShapeMismatch
    );
}

#[test]
fn view_reset_writes_its_initial_value_into_the_base() {
    let mut signals = SignalTable::new();
    let base = signals.add_array("base".to_string(), NdArray::from_vec(vec![0, 1, 0, 2])).unwrap();
    let view =
        ArraySignal::new_view("view".to_string(), &signals, base, vec![axis(0, 2, 4)], Some(vec![7, 8]))
            .unwrap();
    let view = signals.add(Signal::Array(view));
    signals.reset(view);
    assert_eq!(signals.read(base), vec![7, 1, 8, 2]);
    let plain = ArraySignal::new_view("plain".to_string(), &signals, base, vec![axis(1, 2, 4)], None)
        .unwrap();
    let plain = signals.add(Signal::Array(plain));
    signals.reset(plain);
    assert_eq!(signals.read(base), vec![7, 1, 8, 2]);
}

#[test]
fn reset_twice_is_reset_once() {
    let mut signals = SignalTable::new();
    let s = signals.add_scalar("s".to_string(), 3);
    let base = signals.add_array("base".to_string(), NdArray::from_vec(vec![1, 2, 3])).unwrap();
    let view =
        ArraySignal::new_view("view".to_string(), &signals, base, vec![axis(1, 1, 3)], Some(vec![0, 0]))
            .unwrap();
    let view = signals.add(Signal::Array(view));
    signals.write_scalar(s, 10).unwrap();
    signals.assign_values(base, &vec![4, 5, 6]).unwrap();
    signals.reset_all();
    let once = (signals.read(s), signals.read(base), signals.read(view));
    signals.reset_all();
    let twice = (signals.read(s), signals.read(base), signals.read(view));
    assert_eq!(once, twice);
    assert_eq!(once, (vec![3], vec![1, 0, 0], vec![0, 0]));
}

#[test]
fn assign_checks_kind_and_shape() {
    let mut signals = SignalTable::new();
    let s = signals.add_scalar("s".to_string(), 3);
    let a = signals.add_array("a".to_string(), NdArray::from_vec(vec![1, 2])).unwrap();
    assert_eq!(signals.assign_array(s, &NdArray::from_vec(vec![1])), Err(OperatorError::TypeMismatch));
    assert_eq!(signals.assign_array(a, &NdArray::from_vec(vec![1, 2, 3])), Err(OperatorError::ShapeMismatch));
    assert_eq!(signals.assign_array(a, &NdArray::new(vec![2, 1], vec![1, 2]).unwrap()), Err(OperatorError::ShapeMismatch));
    assert_eq!(signals.assign_array(a, &NdArray::from_vec(vec![8, 9])), Ok(()));
    assert_eq!(signals.read(a), vec![8, 9]);
    assert_eq!(signals.write_scalar(a, 1), Err(OperatorError::TypeMismatch));
}

#[test]
fn arrays_need_one_value_per_element() {
    assert!(NdArray::new(vec![2, 3], vec![0; 5]).is_err());
    assert!(NdArray::new(vec![], vec![42]).is_ok());
    let mut signals = SignalTable::new();
    let bad = NdArray { shape: vec![2], data: vec![1] };
    assert_eq!(signals.add_array("bad".to_string(), bad), Err(ConstructionError::ShapeMismatch));
    let zero_d = signals.add_array("z".to_string(), NdArray::new(vec![], vec![42]).unwrap()).unwrap();
    assert_eq!(signals.shape(zero_d), Vec::<usize>::new());
    assert_eq!(signals.read(zero_d), vec![42]);
}

#[test]
fn it_can_probe_scalar_signal() {
    let mut signals = SignalTable::new();
    let probed = signals.add_scalar("probed".to_string(), 0);
    let mut probe = SignalProbe::new(&signals, probed).unwrap();

    probe.sample(&signals);
    signals.write_scalar(probed, 1).unwrap();
    probe.sample(&signals);
    signals.write_scalar(probed, 42).unwrap();
    probe.sample(&signals);

    assert_eq!(probe.get_data(), &vec![vec![0], vec![1], vec![42]]);
    let snapshot = probe.snapshot();
    assert_eq!(snapshot.shape, vec![3]);
    assert_eq!(snapshot.data, vec![0, 1, 42]);
}

#[test]
fn it_can_probe_array_signal() {
    let mut signals = SignalTable::new();
    let probed = signals.add_array("probed".to_string(), NdArray::from_vec(vec![0, 0])).unwrap();
    signals.reset(probed);
    let mut probe = SignalProbe::new(&signals, probed).unwrap();

    probe.sample(&signals);
    signals.assign_array(probed, &NdArray::from_vec(vec![1, 1])).unwrap();
    probe.sample(&signals);
    signals.assign_array(probed, &NdArray::from_vec(vec![42, 43])).unwrap();
    probe.sample(&signals);

    assert_eq!(probe.get_data(), &vec![vec![0, 0], vec![1, 1], vec![42, 43]]);
    let snapshot = probe.snapshot();
    assert_eq!(snapshot.shape, vec![3, 2]);
    assert_eq!(snapshot.data, vec![0, 0, 1, 1, 42, 43]);
    assert_eq!(probe.shape(), &vec![2]);
}

#[test]
fn probing_an_unknown_signal_is_refused() {
    let signals = SignalTable::new();
    assert_eq!(SignalProbe::new(&signals, 0).err(), Some(ConstructionError::UnknownSignal));
}

#[test]
fn empty_slices_select_nothing() {
    assert_eq!(compute_offsets(&vec![4], &vec![axis(3, 1, 2)]), Vec::<usize>::new());
    assert_eq!(compute_offsets(&vec![0, 3], &vec![axis(0, 1, 0), axis(0, 1, 3)]), Vec::<usize>::new());
    assert_eq!(compute_offsets(&vec![], &vec![]), vec![0]);
}

#[test]
fn snapshot_of_an_unsampled_probe_is_empty() {
    let mut signals = SignalTable::new();
    let a = signals.add_array("a".to_string(), NdArray::from_vec(vec![1, 2, 3])).unwrap();
    let probe = SignalProbe::new(&signals, a).unwrap();
    let snapshot = probe.snapshot();
    assert_eq!(snapshot.shape, vec![0, 3]);
    assert!(snapshot.data.is_empty());
}
