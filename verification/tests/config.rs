use demo2::config::{butterworth_sections, default_feed_addr, default_pg_dsn, resolve_setting, strip_bom, FilterOrderError};
use demo2::can::{CanChannelConfig, CanSignalWatchdogTarget, HW_SUBTYPE_TC1012, HW_SUBTYPE_TC1016};
use demo2::config::{
    collector_can_channels, flag_value, hardware_subtype, parse_can_channel_list, sent_filter_window,
    signal_timeout_ms, watchdog_targets, CanChannelEnv, CollectorCanChannelConfig,
    CollectorCanChannelDetail, CollectorCanSignalWatchdogConfig, default_can_hardware_subtype,
    default_can_signal_timeout_ms, default_db_filter_order, default_sent_filter_window,
};

fn no_env() -> CanChannelEnv {
    CanChannelEnv { channels: None, channel: None, baud_kbps: None, data_baud_kbps: None }
}

#[test]
fn parse_can_channel_list_skips_empty_items() {
    assert_eq!(parse_can_channel_list("0, 2, ,3"), Some(vec![0, 2, 3]));
    assert_eq!(parse_can_channel_list(" , "), None);
    assert_eq!(parse_can_channel_list("0,x"), None);
}

#[test]
fn channel_list_rejects_out_of_range_channels() {
    assert_eq!(parse_can_channel_list("1,256"), None);
    assert_eq!(parse_can_channel_list("+7"), Some(vec![7]));
}

#[test]
fn flags_accept_the_usual_spellings() {
    assert_eq!(flag_value(" TRUE "), Some(true));
    assert_eq!(flag_value("on"), Some(true));
    assert_eq!(flag_value("1"), Some(true));
    assert_eq!(flag_value("Off"), Some(false));
    assert_eq!(flag_value("no"), Some(false));
    assert_eq!(flag_value("maybe"), None);
}

#[test]
fn defaults_match_the_documented_values() {
    assert_eq!(default_can_hardware_subtype(), Some(HW_SUBTYPE_TC1016));
    assert_eq!(default_can_signal_timeout_ms(), 2000);
    assert_eq!(default_db_filter_order(), 10);
    assert_eq!(default_sent_filter_window(), 10);
}

#[test]
fn configured_single_channel_takes_the_default_bit_rates() {
    let channels = collector_can_channels(&no_env(), 2, 500, 2000, &[]);
    assert_eq!(
        channels,
        vec![CanChannelConfig { index: 2, arbitration_baud_kbps: 500, data_baud_kbps: 2000 }]
    );
}

#[test]
fn environment_channel_list_wins_over_configuration() {
    let env = CanChannelEnv {
        channels: Some("0,3".to_string()),
        channel: Some("1".to_string()),
        baud_kbps: Some("250".to_string()),
        data_baud_kbps: None,
    };
    let configured = [CollectorCanChannelConfig::Index(5)];
    let channels = collector_can_channels(&env, 0, 500, 2000, &configured);
    assert_eq!(
        channels,
        vec![
            CanChannelConfig { index: 0, arbitration_baud_kbps: 250, data_baud_kbps: 2000 },
            CanChannelConfig { index: 3, arbitration_baud_kbps: 250, data_baud_kbps: 2000 },
        ]
    );
}

#[test]
fn detailed_channels_keep_their_own_bit_rates() {
    let configured = [
        CollectorCanChannelConfig::Index(0),
        CollectorCanChannelConfig::Detailed(CollectorCanChannelDetail {
            index: 1,
            baud_kbps: Some(1000),
            data_baud_kbps: None,
        }),
    ];
    let channels = collector_can_channels(&no_env(), 0, 500, 2000, &configured);
    assert_eq!(
        channels,
        vec![
            CanChannelConfig { index: 0, arbitration_baud_kbps: 500, data_baud_kbps: 2000 },
            CanChannelConfig { index: 1, arbitration_baud_kbps: 1000, data_baud_kbps: 2000 },
        ]
    );
}

#[test]
fn hardware_subtype_follows_environment_then_name() {
    assert_eq!(hardware_subtype(&Some("12".to_string()), false, Some(11), "TC1016"), 12);
    assert_eq!(hardware_subtype(&None, false, Some(11), "TC1012"), 11);
    assert_eq!(hardware_subtype(&None, true, Some(11), " tc1012 "), HW_SUBTYPE_TC1012);
    assert_eq!(hardware_subtype(&Some("x".to_string()), true, None, "other"), HW_SUBTYPE_TC1016);
}

#[test]
fn watchdog_targets_get_default_labels() {
    let configured = [
        CollectorCanSignalWatchdogConfig { channel: 0, can_id: Some(0x1AB), label: None },
        CollectorCanSignalWatchdogConfig { channel: 2, can_id: None, label: None },
        CollectorCanSignalWatchdogConfig { channel: 1, can_id: None, label: Some("mine".to_string()) },
    ];
    let targets: Vec<CanSignalWatchdogTarget> = watchdog_targets(&configured);
    assert_eq!(targets[0].label, "CAN 0x1AB");
    assert_eq!(targets[0].identifier, Some(0x1AB));
    assert_eq!(targets[1].label, "Channel 2 signal");
    assert_eq!(targets[2].label, "mine");
}

#[test]
fn timeouts_and_windows_are_at_least_one() {
    assert_eq!(signal_timeout_ms(&Some("0".to_string()), 2000), 1);
    assert_eq!(signal_timeout_ms(&Some("bad".to_string()), 2000), 2000);
    assert_eq!(signal_timeout_ms(&None, 0), 1);
    assert_eq!(sent_filter_window(&Some("5".to_string()), 10), 5);
    assert_eq!(sent_filter_window(&None, 0), 1);
}

#[test]
fn viewer_settings_prefer_environment_then_file_then_default() {
    assert_eq!(resolve_setting(Some("10.0.0.1:1".into()), Some("10.0.0.2:2".into()), default_feed_addr()), "10.0.0.1:1");
    assert_eq!(resolve_setting(Some("  ".into()), Some("10.0.0.2:2".into()), default_feed_addr()), "10.0.0.2:2");
    assert_eq!(resolve_setting(None, Some("".into()), default_feed_addr()), "127.0.0.1:19011");
    assert_eq!(
        resolve_setting(None, None, default_pg_dsn()),
        "host=127.0.0.1 port=5432 user=postgres password=123456 dbname=demo2"
    );
}

#[test]
fn configuration_text_loses_its_byte_order_mark() {
    assert_eq!(strip_bom("\u{feff}[ui]\nembed_collector = true\n"), "[ui]\nembed_collector = true\n");
    assert_eq!(strip_bom("[ui]"), "[ui]");
    assert_eq!(strip_bom(""), "");
}

fn parse_viewer_config(text: &str) -> Result<toml::Table, toml::de::Error> {
    toml::from_str(&demo2::config::strip_bom(text))
}

fn embed_collector_from(text: &str) -> bool {
    parse_viewer_config(text)
        .ok()
        .and_then(|file| file.get("ui").and_then(|ui| ui.get("embed_collector")).and_then(|v| v.as_bool()))
        .unwrap_or(false)
}

#[test]
fn reads_embed_collector_from_ui_section() {
    assert!(embed_collector_from("[ui]\nembed_collector = true\n"));
    assert!(!embed_collector_from("[ui]\nembed_collector = false\n"));
}

#[test]
fn reads_embed_collector_from_utf8_bom_config() {
    assert!(embed_collector_from("\u{feff}[ui]\nembed_collector = true\n"));
}

#[test]
fn embed_collector_defaults_to_false() {
    assert!(!embed_collector_from("[collector]\nui_feed_addr = '127.0.0.1:19011'\n"));
    assert!(!embed_collector_from("not valid toml"));
}

#[test]
fn invalid_config_returns_a_parse_error() {
    assert!(parse_viewer_config("not valid toml").is_err());
}

#[test]
fn persistence_switch_reads_one_or_true() {
    assert!(demo2::config::db_disabled(Some("1".into())));
    assert!(demo2::config::db_disabled(Some("TRUE".into())));
    assert!(!demo2::config::db_disabled(Some("yes".into())));
    assert!(!demo2::config::db_disabled(Some(" 1".into())));
    assert!(!demo2::config::db_disabled(None));
}

#[test]
fn butterworth_order_splits_into_sections() {
    assert_eq!(butterworth_sections(4), Ok(2));
    assert_eq!(butterworth_sections(2), Ok(1));
    assert_eq!(butterworth_sections(1), Err(FilterOrderError::TooLow));
    assert_eq!(butterworth_sections(0), Err(FilterOrderError::TooLow));
    assert_eq!(butterworth_sections(5), Err(FilterOrderError::Odd));
    assert_eq!(FilterOrderError::TooLow.message(), "filter order must be at least 2");
    assert_eq!(
        FilterOrderError::Odd.message(),
        "filter order must be even for cascaded Butterworth sections"
    );
}
