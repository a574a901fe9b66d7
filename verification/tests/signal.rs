use demo2::signal::{averages_on_circle, default_signal_specs, RawSample, SentMovingAverage, SignalKind, SignalProcessor, SignalSpec, SmoothedSent};

#[derive(Clone, Copy, Debug, PartialEq)]
struct OffsetScale {
    input_offset: f64,
    scale: f64,
}

fn apply(f: &OffsetScale, v: f64) -> f64 {
    (v - f.input_offset) * f.scale
}

fn specs(sensor_count: usize) -> Vec<SignalSpec<OffsetScale>> {
    default_signal_specs(
        sensor_count,
        (
            OffsetScale { input_offset: 2048.0, scale: 40.0 / 4092.0 },
            OffsetScale { input_offset: 2047.5, scale: 12.0 / 4079.0 },
            OffsetScale { input_offset: 2048.0, scale: -40.0 / 4092.0 },
            OffsetScale { input_offset: 2047.5, scale: -12.0 / 4079.0 },
        ),
    )
}

fn raw(sensor_id: usize, t_sec: f64, value: f64, req_id: u64) -> RawSample<f64> {
    RawSample { device_id: "test".to_string(), sensor_id, t_sec, value, req_id }
}

#[test]
fn derived_signal_is_only_emitted_when_its_source_changes() {
    let processor = SignalProcessor::new(specs(2));

    let sensor_zero = processor.ingest_raw(&raw(0, 1.0, 2048.0, 1), apply);
    assert!(sensor_zero.iter().any(|sample| sample.signal_id == "sensor_0_angle"));

    let sensor_one = processor.ingest_raw(&raw(1, 2.0, 2047.5, 2), apply);
    assert!(sensor_one.iter().all(|sample| sample.signal_id != "sensor_0_angle"));
    assert!(sensor_one.iter().any(|sample| sample.signal_id == "sensor_1_angle"));
}

#[test]
fn raw_sample_yields_its_signal_then_the_derived_ones() {
    let processor = SignalProcessor::new(specs(5));
    let out = processor.ingest_raw(&raw(2, 3.5, 2048.0 + 4092.0 / 40.0, 7), apply);
    assert_eq!(out.len(), 2);
    assert_eq!(out[0].signal_id, "sensor_2_raw");
    assert_eq!(out[0].value, 2048.0 + 4092.0 / 40.0);
    assert_eq!(out[1].signal_id, "sensor_2_angle");
    assert!((out[1].value + 1.0).abs() < 1e-9);
    for s in &out {
        assert_eq!(s.device_id, "test");
        assert_eq!(s.t_sec, 3.5);
        assert_eq!(s.req_id, 7);
    }
    // Sensor 4 has no derived angle; sensor 9 has no signal at all.
    assert_eq!(processor.ingest_raw(&raw(4, 0.0, 1.0, 1), apply).len(), 1);
    assert!(processor.ingest_raw(&raw(9, 0.0, 1.0, 1), apply).is_empty());
}

#[test]
fn default_specs_name_sensors_and_angles() {
    let all = specs(6);
    assert_eq!(all.len(), 10);
    let expect = [
        ("sensor_0_raw", "sent_t1_angle", "deg"),
        ("sensor_1_raw", "sent_t1_torque", "Nm"),
        ("sensor_2_raw", "sent_t2_angle", "deg"),
        ("sensor_3_raw", "sent_t2_torque", "Nm"),
        ("sensor_4_raw", "sent_s_angle", "deg"),
        ("sensor_5_raw", "Sensor 5", "raw"),
        ("sensor_0_angle", "sensor_P1_angle", "deg"),
        ("sensor_1_angle", "sensor_T1_angle", "deg"),
        ("sensor_2_angle", "sensor_P2_angle", "deg"),
        ("sensor_3_angle", "sensor_T2_angle", "deg"),
    ];
    for (spec, (id, name, unit)) in all.iter().zip(expect) {
        assert_eq!(spec.id, id);
        assert_eq!(spec.name, name);
        assert_eq!(spec.unit, unit);
        assert_eq!(spec.decimals, 3);
    }
    match &all[5].kind {
        SignalKind::SourceSensor { sensor_id } => assert_eq!(*sensor_id, 5),
        _ => panic!("sensor 5 is a raw signal"),
    }
    match &all[9].kind {
        SignalKind::Derived { input_signal_id, formula } => {
            assert_eq!(input_signal_id, "sensor_3_raw");
            assert_eq!(formula.input_offset, 2047.5);
        }
        _ => panic!("the T2 angle is derived"),
    }
}

#[test]
fn spec_lookup_finds_the_first_signal_with_an_id() {
    let processor = SignalProcessor::new(specs(3));
    assert_eq!(processor.specs().len(), 7);
    assert_eq!(processor.spec("sensor_1_raw").map(|s| s.name.as_str()), Some("sent_t1_torque"));
    assert_eq!(processor.spec("sensor_2_angle").map(|s| s.name.as_str()), Some("sensor_P2_angle"));
    assert!(processor.spec("sensor_7_raw").is_none());
}

#[test]
fn sent_windows_keep_the_last_samples_of_each_sensor() {
    let mut avg = SentMovingAverage::new(3);
    assert_eq!(avg.push_sample(1, 1), Some(vec![1]));
    assert_eq!(avg.push_sample(1, 2), Some(vec![1, 2]));
    assert_eq!(avg.push_sample(3, 9), Some(vec![9]));
    assert_eq!(avg.push_sample(1, 3), Some(vec![1, 2, 3]));
    assert_eq!(avg.push_sample(1, 4), Some(vec![2, 3, 4]));
    assert_eq!(avg.push_sample(5, 4), None);
    assert_eq!(avg.push_sample(3, 8), Some(vec![9, 8]));

    let mut single = SentMovingAverage::new(0);
    assert_eq!(single.push_sample(0, 7u8), Some(vec![7]));
    assert_eq!(single.push_sample(0, 8u8), Some(vec![8]));

    assert!(averages_on_circle(0) && averages_on_circle(2) && averages_on_circle(4));
    assert!(!averages_on_circle(1) && !averages_on_circle(3));
}

fn window_mean(w: &[f64]) -> f64 {
    w.iter().sum::<f64>() / w.len() as f64
}

#[test]
fn sent_torque_filter_uses_arithmetic_average() {
    let mut filter = SentMovingAverage::new(3);
    let frame = |t1: f64, t2: f64| vec![(0, 0.0, true), (1, t1, true), (2, 0.0, true), (3, t2, true), (4, 0.0, true)];
    let _ = filter.smooth_frame(&frame(10.0, 20.0));
    let _ = filter.smooth_frame(&frame(20.0, 40.0));
    let third = filter.smooth_frame(&frame(30.0, 60.0));
    let mean = |k: usize| match &third[k].1 {
        SmoothedSent::Window(w) => window_mean(w),
        SmoothedSent::Passed(_) => panic!("sensor {k} has a window"),
    };
    assert!((mean(1) - 20.0).abs() < 0.001);
    assert!((mean(3) - 40.0).abs() < 0.001);
}

#[test]
fn frame_smoothing_moves_only_the_signals_present() {
    let mut filter = SentMovingAverage::new(2);
    // An id-2 frame carries T1 angle and torque only.
    let out = filter.smooth_frame(&vec![(0, 1, true), (1, 10, true)]);
    assert!(matches!(&out[0].1, SmoothedSent::Window(w) if *w == vec![1]));
    // An id-1 frame with T2 values, one of them kept out, and a sensor without a window.
    let out = filter.smooth_frame(&vec![(2, 5, true), (3, 7, false), (9, 4, true)]);
    assert!(matches!(&out[0].1, SmoothedSent::Window(w) if *w == vec![5]));
    assert!(matches!(out[1].1, SmoothedSent::Passed(7)));
    assert!(matches!(out[2].1, SmoothedSent::Passed(4)));
    let out = filter.smooth_frame(&vec![(0, 2, true), (0, 3, true)]);
    assert!(matches!(&out[0].1, SmoothedSent::Window(w) if *w == vec![1, 2]));
    assert!(matches!(&out[1].1, SmoothedSent::Window(w) if *w == vec![2, 3]));
    assert_eq!(filter.push_sample(1, 11), Some(vec![10, 11]));
    assert_eq!(filter.push_sample(3, 8), Some(vec![8]));
}
