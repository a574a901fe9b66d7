use demo2::db::{initial_retry_delay_ms, next_retry_delay_ms, now_ms, partition_days, stored_millis};

#[test]
fn partitions_are_the_distinct_days_in_order() {
    let days = partition_days(&[86_400_000 * 3 + 5, -1, 0, 86_400_000 * 3, 86_399_999]);
    assert_eq!(days, vec![-1, 0, 3]);
    assert!(partition_days(&[]).is_empty());
}

#[test]
fn retry_delay_is_clamped_and_doubles_to_thirty_seconds() {
    assert_eq!(initial_retry_delay_ms(0), 1);
    assert_eq!(initial_retry_delay_ms(60_000), 30_000);
    assert_eq!(next_retry_delay_ms(1), 2);
    assert_eq!(next_retry_delay_ms(20_000), 30_000);
}

#[test]
fn clock_readings_are_stored_as_signed_milliseconds() {
    assert_eq!(stored_millis(None), 0);
    assert_eq!(stored_millis(Some(1_234)), 1_234);
    assert!(now_ms() > 1_600_000_000_000);
}

#[test]
fn health_report_lists_every_counter() {
    let stats = demo2::db::HealthStats {
        ingress_ready: true,
        ui_ready: false,
        ingress_connections: 2,
        ui_clients: 1,
        samples_rx: 42,
        ui_drop: 0,
        db_drop: 3,
        db_write_fail: 1,
        last_db_error: Some("timed \"out\"".to_string()),
    };
    let text = demo2::db::health_json(&stats);
    assert!(!text.contains(' ') || text.contains("timed"));
    let v: serde_json::Value = serde_json::from_str(&text).unwrap();
    assert_eq!(v["ingress_ready"], true);
    assert_eq!(v["ui_ready"], false);
    assert_eq!(v["ingress_connections"], 2);
    assert_eq!(v["ui_clients"], 1);
    assert_eq!(v["samples_rx"], 42);
    assert_eq!(v["ui_drop"], 0);
    assert_eq!(v["db_drop"], 3);
    assert_eq!(v["db_write_fail"], 1);
    assert_eq!(v["last_db_error"], "timed \"out\"");
    assert_eq!(v.as_object().unwrap().len(), 9);
    let quiet = demo2::db::HealthStats { last_db_error: None, ..stats };
    assert!(demo2::db::health_json(&quiet).contains("\"last_db_error\":null"));
}

#[test]
fn health_endpoint_answers_readiness_and_counters() {
    let stats = demo2::db::HealthStats {
        ingress_ready: true,
        ui_ready: false,
        ingress_connections: 0,
        ui_clients: 0,
        samples_rx: 0,
        ui_drop: 0,
        db_drop: 0,
        db_write_fail: 0,
        last_db_error: Some("写入失败".to_string()),
    };
    let not_ready = demo2::db::health_response(b"GET /ready HTTP/1.1\r\n\r\n", &stats);
    assert_eq!(
        not_ready,
        "HTTP/1.1 503 Service Unavailable\r\nContent-Type: application/json\r\nContent-Length: 15\r\nConnection: close\r\n\r\n{\"ready\":false}"
    );
    let ready_stats = demo2::db::HealthStats { ui_ready: true, ..stats };
    let ready = demo2::db::health_response(b"GET /ready", &ready_stats);
    assert!(ready.starts_with("HTTP/1.1 200 OK\r\n") && ready.ends_with("{\"ready\":true}"));
    let report = demo2::db::health_response(b"GET /health HTTP/1.1", &ready_stats);
    let body = demo2::db::health_json(&ready_stats);
    assert!(report.ends_with(&body));
    assert!(report.contains(&format!("Content-Length: {}\r\n", body.len())));
    assert!(body.len() > body.chars().count());
}

#[test]
fn health_members_name_each_counter_in_order() {
    let stats = demo2::db::HealthStats {
        ingress_ready: false,
        ui_ready: true,
        ingress_connections: 5,
        ui_clients: 6,
        samples_rx: 7,
        ui_drop: 8,
        db_drop: 9,
        db_write_fail: 10,
        last_db_error: None,
    };
    let members = demo2::db::health_members(&stats);
    let keys: Vec<&str> = members.iter().map(|(k, _)| k.as_str()).collect();
    assert_eq!(
        keys,
        vec![
            "ingress_ready",
            "ui_ready",
            "ingress_connections",
            "ui_clients",
            "samples_rx",
            "ui_drop",
            "db_drop",
            "db_write_fail",
            "last_db_error"
        ]
    );
    assert!(matches!(members[0].1, demo2::db::JsonScalar::Bool(false)));
    assert!(matches!(members[7].1, demo2::db::JsonScalar::UInt(10)));
    assert!(matches!(members[8].1, demo2::db::JsonScalar::Null));
}
