//! Verified core of the telemetry collector: decoding, alarm state machines,
//! alarm synchronisation between collector and viewers, feed framing and the
//! small text and time helpers the collector and its viewer rely on.

pub mod telemetry;
pub mod text;
pub mod alarm;
pub mod keyed;
pub mod alarm_sync;
pub mod feed;
pub mod can_data;
pub mod can;
pub mod config;
pub mod db;
pub mod session;
pub mod ui_time;
pub mod ui_models;
pub mod can_ingress;
pub mod ui_queries;
pub mod alarm_panel;
pub mod batching;
pub mod forwarding;
pub mod chart;
pub mod jump;
pub mod signal;
