use buildermon::clock::{millis_from_nanos, secs_from_nanos};
use buildermon::format::status_indicator_class;
use buildermon::clock::{epoch_millis_now, epoch_now};
use buildermon::collector::{apply_core_samples, Collector, HISTORY_POINTS, MAX_CPU_SPARK_POINTS};
use buildermon::format::{
    browser_tab_id, build_page_title, byte_unit, format_last_build, format_last_build_at,
    format_uptime, header_details_class, host_label, last_build_label_at, scale_pair_unit,
    server_tab_id, theme_icon_class, theme_mode_class, unit_divisor, unit_label, uptime_label,
    ByteUnit,
};
use buildermon::leadership::{
    parse_u64, renew_stream_leadership, text_equal, timestamp_text, LeaderDecision, LeaderRecord,
    LeaderWrite,
};
use buildermon::sparkline::{braille_char, braille_line, scale_max, tail};

#[test]
fn collector_refreshes_disks_every_thirty_samples() {
    let mut c = Collector::new();
    let refreshes: Vec<bool> = (0..61).map(|_| c.start_cycle()).collect();
    assert!(refreshes[0]);
    assert!(!refreshes[1]);
    assert!(!refreshes[29]);
    assert!(refreshes[30]);
    assert!(refreshes[60]);
    assert_eq!(refreshes.iter().filter(|r| **r).count(), 3);
    assert_eq!(c.cycles, 61);
}

#[test]
fn collector_history_keeps_latest_thirty_two() {
    let mut c = Collector::new();
    for i in 0..40u64 {
        c.push_history(i, 100 + i);
    }
    let (rx, tx) = c.histories();
    assert_eq!(rx.len(), HISTORY_POINTS);
    assert_eq!(rx[0], 8);
    assert_eq!(rx[31], 39);
    assert_eq!(tx[0], 108);
}

#[test]
fn core_samples_append_per_core() {
    let mut h: Vec<Vec<u8>> = Vec::new();
    apply_core_samples(&mut h, &vec![1, 2]);
    apply_core_samples(&mut h, &vec![3, 4]);
    assert_eq!(h, vec![vec![1, 3], vec![2, 4]]);
}

#[test]
fn core_count_change_restarts_histories() {
    let mut h: Vec<Vec<u8>> = vec![vec![9, 9], vec![9]];
    apply_core_samples(&mut h, &vec![1, 2, 3]);
    assert_eq!(h, vec![vec![1], vec![2], vec![3]]);
    apply_core_samples(&mut h, &vec![]);
    assert!(h.is_empty());
}

#[test]
fn core_history_keeps_latest_thirty_two() {
    let mut h: Vec<Vec<u32>> = Vec::new();
    for i in 0..50u32 {
        apply_core_samples(&mut h, &vec![i]);
    }
    assert_eq!(h[0].len(), MAX_CPU_SPARK_POINTS);
    assert_eq!(h[0][0], 18);
    assert_eq!(h[0][31], 49);
}

#[test]
fn parse_u64_follows_std() {
    for s in ["0", "42", "+7", "0007", "18446744073709551615", "", "+", "-1", "12a", " 1", "18446744073709551616", "٣"] {
        assert_eq!(parse_u64(s), s.parse::<u64>().ok(), "input {s:?}");
    }
}

#[test]
fn heartbeat_reads_back() {
    for n in [0u64, 9, 10, 1_700_000_000_123, u64::MAX] {
        let text = timestamp_text(n);
        assert_eq!(text, n.to_string());
        assert_eq!(parse_u64(&text), Some(n));
    }
}

#[test]
fn text_equality() {
    assert!(text_equal("tab-1", "tab-1"));
    assert!(!text_equal("tab-1", "tab-12"));
    assert!(text_equal("", ""));
}

fn record(id: Option<&str>, ts: Option<&str>) -> Option<LeaderRecord> {
    Some(LeaderRecord { id: id.map(|s| s.to_string()), ts: ts.map(|s| s.to_string()) })
}

#[test]
fn without_storage_a_tab_leads_when_it_may() {
    assert_eq!(
        renew_stream_leadership("t", true, None, 0),
        LeaderDecision { leader: true, write: LeaderWrite::Keep }
    );
    assert_eq!(
        renew_stream_leadership("t", false, None, 0),
        LeaderDecision { leader: false, write: LeaderWrite::Keep }
    );
}

#[test]
fn hidden_tab_releases_its_own_claim() {
    assert_eq!(
        renew_stream_leadership("t", false, record(Some("t"), Some("5")), 10),
        LeaderDecision { leader: false, write: LeaderWrite::Release }
    );
    assert_eq!(
        renew_stream_leadership("t", false, record(Some("u"), Some("5")), 10),
        LeaderDecision { leader: false, write: LeaderWrite::Keep }
    );
}

#[test]
fn visible_tab_claims_free_own_or_stale_lead() {
    let claim = LeaderDecision { leader: true, write: LeaderWrite::Claim };
    assert_eq!(renew_stream_leadership("t", true, record(None, None), 10), claim);
    assert_eq!(renew_stream_leadership("t", true, record(Some("t"), Some("10")), 10), claim);
    assert_eq!(renew_stream_leadership("t", true, record(Some("u"), Some("1000")), 8001), claim);
    assert_eq!(renew_stream_leadership("t", true, record(Some("u"), Some("junk")), 7001), claim);
    assert_eq!(
        renew_stream_leadership("t", true, record(Some("u"), Some("1000")), 8000),
        LeaderDecision { leader: false, write: LeaderWrite::Keep }
    );
    assert_eq!(
        renew_stream_leadership("t", true, record(Some("u"), None), 7000),
        LeaderDecision { leader: false, write: LeaderWrite::Keep }
    );
}

#[test]
fn uptime_formats() {
    assert_eq!(format_uptime(0), "0m");
    assert_eq!(format_uptime(59), "0m");
    assert_eq!(format_uptime(3599), "59m");
    assert_eq!(format_uptime(3600), "1h 0m");
    assert_eq!(format_uptime(86399), "23h 59m");
    assert_eq!(format_uptime(90061), "1d 1h 1m");
    assert_eq!(uptime_label(None), "--");
    assert_eq!(uptime_label(Some(7260)), "2h 1m");
}

#[test]
fn last_build_formats() {
    assert_eq!(format_last_build_at(100, 104), "just now");
    assert_eq!(format_last_build_at(100, 105), "5s ago");
    assert_eq!(format_last_build_at(100, 159), "59s ago");
    assert_eq!(format_last_build_at(100, 160), "1m ago");
    assert_eq!(format_last_build_at(100, 3699), "59m ago");
    assert_eq!(format_last_build_at(100, 3700), "1h ago");
    assert_eq!(format_last_build_at(500, 100), "just now");
    assert_eq!(last_build_label_at(None, 1), "Never");
    assert_eq!(last_build_label_at(Some(0), 7200), "2h ago");
    assert_eq!(format_last_build(u64::MAX), "just now");
}

#[test]
fn byte_units() {
    assert_eq!(byte_unit(0), ByteUnit::B);
    assert_eq!(byte_unit(1023), ByteUnit::B);
    assert_eq!(byte_unit(1024), ByteUnit::KB);
    assert_eq!(byte_unit(1048575), ByteUnit::KB);
    assert_eq!(byte_unit(1048576), ByteUnit::MB);
    assert_eq!(byte_unit(1073741824), ByteUnit::GB);
    assert_eq!(byte_unit(u64::MAX), ByteUnit::GB);
    assert_eq!(unit_label(ByteUnit::MB), "MB");
    assert_eq!(unit_divisor(ByteUnit::GB), 1073741824);
}

#[test]
fn pair_scale_follows_larger_rate() {
    assert_eq!(scale_pair_unit(10, 2000), ByteUnit::KB);
    assert_eq!(scale_pair_unit(5_000_000, 3), ByteUnit::MB);
    assert_eq!(scale_pair_unit(0, 0), ByteUnit::B);
    assert_eq!(scale_pair_unit(1 << 40, 0), ByteUnit::GB);
}

#[test]
fn page_titles() {
    assert_eq!(build_page_title(None, None), "Loading | NixOS Buildermon");
    assert_eq!(build_page_title(Some(" build01 "), Some("10.0.0.2")), "build01 (10.0.0.2) | NixOS Buildermon");
    assert_eq!(build_page_title(Some("build01.lan"), Some("10.0.0.2")), "build01.lan | NixOS Buildermon");
    assert_eq!(build_page_title(Some("build01"), Some("  ")), "build01 | NixOS Buildermon");
    assert_eq!(build_page_title(Some(""), Some("10.0.0.2")), "10.0.0.2 | NixOS Buildermon");
}

#[test]
fn header_texts() {
    assert_eq!(host_label(None, None), "Loading...");
    assert_eq!(host_label(Some("b"), Some("1.2.3.4")), "b (1.2.3.4)");
    assert_eq!(host_label(None, Some("1.2.3.4")), "Loading... (1.2.3.4)");
    assert_eq!(theme_mode_class(true), "app-shell light-mode");
    assert_eq!(theme_mode_class(false), "app-shell dark-mode");
    assert_eq!(theme_icon_class(true), "theme-icon light");
    assert_eq!(theme_icon_class(false), "theme-icon dark");
    assert_eq!(header_details_class(true), "header-details expanded");
    assert_eq!(header_details_class(false), "header-details");
    assert_eq!(server_tab_id(1234), "server-1234");
    assert_eq!(browser_tab_id(1234, 99), "tab-1234-99");
}

#[test]
fn braille_characters() {
    assert_eq!(braille_char(0, 0), '\u{28C0}');
    assert_eq!(braille_char(3, 3), '\u{2809}');
    assert_eq!(braille_char(1, 2), '\u{2814}');
}

#[test]
fn braille_lines() {
    assert_eq!(braille_line(&vec![]), "\u{2804}\u{2804}\u{2804}\u{2804}");
    assert_eq!(braille_line(&vec![0, 3, 3]), "\u{2848}\u{2881}");
    assert_eq!(braille_line(&vec![2]).chars().count(), 1);
}

#[test]
fn sparkline_tail_and_scale() {
    assert_eq!(tail(&vec![1, 2, 3, 4], 2), vec![3, 4]);
    assert_eq!(tail(&vec![1, 2], 16), vec![1, 2]);
    assert_eq!(tail(&vec![1, 2], 0), Vec::<u64>::new());
    assert_eq!(scale_max(&vec![]), 1);
    assert_eq!(scale_max(&vec![3, 9, 2]), 9);
    assert_eq!(scale_max(&vec![0]), 0);
}

#[test]
fn clock_is_past_2020() {
    assert!(epoch_now() > 1_577_836_800);
    assert!(epoch_millis_now() > 1_577_836_800_000);
}

#[test]
fn clock_arithmetic() {
    assert_eq!(secs_from_nanos(None), 0);
    assert_eq!(secs_from_nanos(Some(1_999_999_999)), 1);
    assert_eq!(secs_from_nanos(Some(u128::MAX)), u64::MAX);
    assert_eq!(millis_from_nanos(None), 0);
    assert_eq!(millis_from_nanos(Some(2_500_000)), 2);
    assert_eq!(millis_from_nanos(Some((1u128 << 64) * 1_000_000 + 3_000_000)), 3);
}

#[test]
fn status_indicator() {
    assert_eq!(status_indicator_class(true), "status-indicator connected");
    assert_eq!(status_indicator_class(false), "status-indicator disconnected");
}
