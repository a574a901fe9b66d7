//! Where telemetry samples come from, and the axis names and SENT labels
//! that follow from their source and sensor.
use vstd::prelude::*;

verus! {

/// Where a telemetry sample came from.
#[derive(Clone, Copy, Debug, PartialEq, Eq, Structural)]
pub enum TelemetrySourceKind {
    Unknown,
    SerialDemo,
    SerialSent1,
    SerialSent2,
    SerialSent3,
    CanAxis,
    CanSent,
    TcpFrame,
    FrameStream,
}

/// True for the sources that carry SENT samples (serial SENT modes and SENT over CAN).
pub open spec fn spec_is_sent_source(kind: TelemetrySourceKind) -> bool {
    kind == TelemetrySourceKind::CanSent || kind == TelemetrySourceKind::SerialSent1
        || kind == TelemetrySourceKind::SerialSent2 || kind == TelemetrySourceKind::SerialSent3
}

/// The axis name a sample of `sensor_id` from `kind` is labelled with: the
/// demo and CAN axis sources name axes x, y, z; SENT over CAN names its five
/// signals; every other source has no axis name.
pub open spec fn spec_axis_name(kind: TelemetrySourceKind, sensor_id: usize) -> Seq<char> {
    if kind == TelemetrySourceKind::SerialDemo || kind == TelemetrySourceKind::CanAxis {
        if sensor_id == 0 {
            "x"@
        } else if sensor_id == 1 {
            "y"@
        } else if sensor_id == 2 {
            "z"@
        } else {
            ""@
        }
    } else if kind == TelemetrySourceKind::CanSent {
        if sensor_id == 0 {
            "t1_angle"@
        } else if sensor_id == 1 {
            "t1_torque"@
        } else if sensor_id == 2 {
            "t2_angle"@
        } else if sensor_id == 3 {
            "t2_torque"@
        } else if sensor_id == 4 {
            "s_angle"@
        } else {
            ""@
        }
    } else {
        ""@
    }
}

pub fn axis_name(source_kind: TelemetrySourceKind, sensor_id: usize) -> (r: &'static str)
    ensures
        r@ == spec_axis_name(source_kind, sensor_id),
{
    match source_kind {
        TelemetrySourceKind::SerialDemo | TelemetrySourceKind::CanAxis => match sensor_id {
            0 => "x",
            1 => "y",
            2 => "z",
            _ => "",
        },
        TelemetrySourceKind::CanSent => match sensor_id {
            0 => "t1_angle",
            1 => "t1_torque",
            2 => "t2_angle",
            3 => "t2_torque",
            4 => "s_angle",
            _ => "",
        },
        _ => "",
    }
}

} // verus!

verus! {

/// Whether a source carries SENT samples.
fn is_sent_sample_source(source_kind: TelemetrySourceKind) -> (r: bool)
    ensures
        r == spec_is_sent_source(source_kind),
{
    matches!(
        source_kind,
        TelemetrySourceKind::CanSent | TelemetrySourceKind::SerialSent1
            | TelemetrySourceKind::SerialSent2 | TelemetrySourceKind::SerialSent3
    )
}

/// A SENT torque sample: sensor 1 (T1) or 3 (T2) of a SENT source.
pub fn is_sent_torque_sample(source_kind: TelemetrySourceKind, sensor_id: usize) -> (r: bool)
    ensures
        r == (spec_is_sent_source(source_kind) && (sensor_id == 1 || sensor_id == 3)),
{
    is_sent_sample_source(source_kind) && (sensor_id == 1 || sensor_id == 3)
}

/// A SENT angle sample: sensor 0 (T1), 2 (T2) or 4 (S) of a SENT source.
pub fn is_sent_angle_sample(source_kind: TelemetrySourceKind, sensor_id: usize) -> (r: bool)
    ensures
        r == (spec_is_sent_source(source_kind) && (sensor_id == 0 || sensor_id == 2 || sensor_id
            == 4)),
{
    is_sent_sample_source(source_kind) && (sensor_id == 0 || sensor_id == 2 || sensor_id == 4)
}

pub open spec fn spec_sent_torque_label(sensor_id: usize) -> Seq<char> {
    if sensor_id == 1 {
        "T1 torque"@
    } else if sensor_id == 3 {
        "T2 torque"@
    } else {
        "SENT torque"@
    }
}

pub fn sent_torque_label(sensor_id: usize) -> (r: &'static str)
    ensures
        r@ == spec_sent_torque_label(sensor_id),
{
    match sensor_id {
        1 => "T1 torque",
        3 => "T2 torque",
        _ => "SENT torque",
    }
}

pub open spec fn spec_sent_angle_label(sensor_id: usize) -> Seq<char> {
    if sensor_id == 0 {
        "T1 angle"@
    } else if sensor_id == 2 {
        "T2 angle"@
    } else if sensor_id == 4 {
        "S angle"@
    } else {
        "SENT angle"@
    }
}

pub fn sent_angle_label(sensor_id: usize) -> (r: &'static str)
    ensures
        r@ == spec_sent_angle_label(sensor_id),
{
    match sensor_id {
        0 => "T1 angle",
        2 => "T2 angle",
        4 => "S angle",
        _ => "SENT angle",
    }
}

} // verus!
