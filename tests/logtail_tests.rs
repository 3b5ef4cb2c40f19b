use logtail::content::append_bounded;
use logtail::dash::{App, DashEvent, DashState, DashVertical, DashViewMain, Key, TickClock};
use logtail::decoder::LogEntry;
use logtail::metrics::{next_bracket, StateEvent, VaultAgebracket, VaultMetrics};
use logtail::monitor::{LogMonitor, MonitorIds};

const INFO_LINE: &str =
    "INFO 2020-07-08T19:58:26.841778689+01:00 [src/bin/safe_vault.rs:114] started";

fn strings(v: &[&str]) -> Vec<String> {
    v.iter().map(|s| s.to_string()).collect()
}

#[test]
fn decode_structured_line() {
    let e = LogEntry::decode(INFO_LINE).expect("decodes");
    assert_eq!(e.category, "INFO");
    assert_eq!(e.source, "[src/bin/safe_vault.rs:114]");
    assert_eq!(e.message, "started");
    assert_eq!(e.time_string, "2020-07-08T19:58:26.841778689+01:00");
    let t = e.time.expect("timestamp parsed");
    assert_eq!(t.secs, 1594234706);
    assert_eq!(t.nanos, 841778689);
    assert_eq!(t.offset_secs, 3600);
    assert_eq!(e.logstring, INFO_LINE);
}

#[test]
fn decode_twice_gives_equal_results() {
    let a = LogEntry::decode(INFO_LINE).unwrap();
    let b = LogEntry::decode(INFO_LINE).unwrap();
    assert_eq!(a.category, b.category);
    assert_eq!(a.time, b.time);
    assert_eq!(a.source, b.source);
    assert_eq!(a.message, b.message);
    assert_eq!(a.parser_output, b.parser_output);
}

#[test]
fn decode_malformed_timestamp_keeps_fields() {
    let line = "WARN 2020-07-08T19:59:18.540118366+99:99 [src/data_handler/idata_handler.rs:744] 552f45..: Failed to get holders metadata from DB";
    let e = LogEntry::decode(line).expect("decodes");
    assert!(e.time.is_none());
    assert_eq!(e.category, "WARN");
    assert_eq!(e.source, "[src/data_handler/idata_handler.rs:744]");
    assert_eq!(e.message, "552f45..: Failed to get holders metadata from DB");
    assert!(e.parser_output.contains("t: None"));
}

#[test]
fn decode_source_ends_at_last_bracket() {
    let line = "INFO 2020-07-08T19:58:26.841778689+01:00 [a] b] c";
    let e = LogEntry::decode(line).unwrap();
    assert_eq!(e.source, "[a] b]");
    assert_eq!(e.message, "c");
}

#[test]
fn decode_rejects_other_lines() {
    assert!(LogEntry::decode("").is_none());
    assert!(LogEntry::decode("Info 2020-07-08T19:58:26.841778689+01:00 [x] y").is_none());
    assert!(LogEntry::decode("INFO 2020-07-08 19:58:26.841778689+01:00 [x] y").is_none());
    assert!(LogEntry::decode("INFO 2020-07-08T19:58:26.841778689+01:00 x y").is_none());
    assert!(LogEntry::decode("Running safe-vault v0.24.0").is_none());
}

#[test]
fn start_banner_records_version() {
    let mut m = VaultMetrics::new();
    let r = m.gather_metrics("Running safe-vault v0.24.0");
    assert_eq!(r, "START at None");
    assert_eq!(m.running_version.as_deref(), Some("v0.24.0"));
    assert_eq!(m.running_message.as_deref(), Some("Running safe-vault v0.24.0"));
    assert_eq!(m.timeline.len(), 1);
    assert_eq!(m.timeline[0].category, "START");
    assert_eq!(m.timeline[0].message, "Running safe-vault v0.24.0");
    assert!(m.vault_started.is_none());
}

#[test]
fn start_banner_takes_most_recent_time() {
    let mut m = VaultMetrics::new();
    m.gather_metrics(INFO_LINE);
    let r = m.gather_metrics("Running safe-vault v0.25.1");
    assert_eq!(r, "START at 2020-07-08T19:58:26.841778689+01:00");
    assert_eq!(m.vault_started, m.timeline[0].time);
    assert_eq!(m.timeline[1].time, m.timeline[0].time);
}

#[test]
fn untimed_entries_inherit_most_recent() {
    let mut m = VaultMetrics::new();
    m.gather_metrics("Running safe-vault v0.24.0");
    assert!(m.timeline[0].time.is_none());
    m.gather_metrics(INFO_LINE);
    let t = m.timeline[1].time;
    assert!(t.is_some());
    m.gather_metrics("WARN not-a-timestamp-but-35-chars-long!! [x] y");
    assert_eq!(m.timeline.len(), 3);
    assert_eq!(m.timeline[2].time, t);
    assert_eq!(m.most_recent, t);
}

#[test]
fn lines_that_decode_to_nothing_change_nothing() {
    let mut m = VaultMetrics::new();
    let r = m.gather_metrics("just some text vault.rs Vault promoted to Elder");
    assert_eq!(r, "");
    assert!(m.timeline.is_empty());
    assert_eq!(m.agebracket, VaultAgebracket::Child);
    assert_eq!(m.parser_output, "-");
}

#[test]
fn promotion_sets_bracket_and_unrelated_line_keeps_it() {
    let mut m = VaultMetrics::new();
    assert_eq!(m.agebracket, VaultAgebracket::Child);
    let r = m.gather_metrics(
        "INFO 2020-07-08T19:58:26.841778689+01:00 [src/vault.rs:120] Vault promoted to Elder",
    );
    assert_eq!(r, "Vault agebracket: Elder");
    assert_eq!(m.agebracket, VaultAgebracket::Elder);
    m.gather_metrics(INFO_LINE);
    assert_eq!(m.agebracket, VaultAgebracket::Elder);
}

#[test]
fn initialising_as_unknown_word() {
    let mut m = VaultMetrics::new();
    m.gather_metrics(
        "INFO 2020-07-08T19:58:26.841778689+01:00 [src/vault.rs:90] Initializing new Vault as Infant",
    );
    assert_eq!(m.agebracket, VaultAgebracket::Unknown);
    m.gather_metrics(
        "INFO 2020-07-08T19:58:26.841778689+01:00 [src/vault.rs:90] Initializing new Vault as Adult",
    );
    assert_eq!(m.agebracket, VaultAgebracket::Adult);
}

#[test]
fn counts_are_recorded_without_bracket_change() {
    let mut m = VaultMetrics::new();
    let r = m.gather_metrics(
        "INFO 2020-07-08T19:58:26.841778689+01:00 [src/vault.rs:300] No. of Elders: 7",
    );
    assert_eq!(r, "ELDERS: 7");
    assert_eq!(m.elders, 7);
    let r = m.gather_metrics(
        "INFO 2020-07-08T19:58:26.841778689+01:00 [src/vault.rs:301] No. of Adults: 42",
    );
    assert_eq!(r, "ADULTS: 42");
    assert_eq!(m.adults, 42);
    assert_eq!(m.agebracket, VaultAgebracket::Child);
}

#[test]
fn state_line_needs_vault_marker_first() {
    let mut m = VaultMetrics::new();
    let r = m.gather_metrics(
        "INFO 2020-07-08T19:58:26.841778689+01:00 [src/node.rs:1] Vault promoted to Elder",
    );
    assert!(r.starts_with("c: INFO"));
    assert_eq!(m.agebracket, VaultAgebracket::Child);
}

#[test]
fn huge_count_saturates() {
    let mut m = VaultMetrics::new();
    m.gather_metrics(
        "INFO 2020-07-08T19:58:26.841778689+01:00 [src/vault.rs:300] No. of Elders: 99999999999999999999999999",
    );
    assert_eq!(m.elders, usize::MAX);
}

#[test]
fn reset_metrics_restores_child() {
    let mut m = VaultMetrics::new();
    m.gather_metrics(
        "INFO 2020-07-08T19:58:26.841778689+01:00 [src/vault.rs:120] Vault promoted to Adult",
    );
    m.reset_metrics();
    assert_eq!(m.agebracket, VaultAgebracket::Child);
    assert_eq!(m.timeline.len(), 1);
}

#[test]
fn transition_function() {
    let b = VaultAgebracket::Child;
    assert_eq!(next_bracket(b, StateEvent::EldersCount(3)), b);
    assert_eq!(next_bracket(b, StateEvent::AdultsCount(3)), b);
    assert_eq!(
        next_bracket(b, StateEvent::BracketChange(VaultAgebracket::Elder)),
        VaultAgebracket::Elder
    );
}

#[test]
fn window_keeps_last_lines() {
    for cap in 0..5usize {
        let mut items: Vec<String> = Vec::new();
        let all: Vec<String> = (0..9).map(|i| format!("line {}", i)).collect();
        for (n, l) in all.iter().enumerate() {
            append_bounded(&mut items, l.clone(), cap);
            assert!(items.len() <= cap);
            let total = n + 1;
            let keep = cap.min(total);
            assert_eq!(items, all[total - keep..total].to_vec());
        }
    }
}

#[test]
fn monitor_processes_lines_into_both() {
    let mut ids = MonitorIds::new();
    let mut m = LogMonitor::new("a.log".to_string(), 2, &mut ids);
    m.process_line(INFO_LINE);
    m.process_line("noise");
    m.process_line("Running safe-vault v1");
    assert_eq!(m.content, strings(&["noise", "Running safe-vault v1"]));
    assert_eq!(m.metrics.timeline.len(), 2);
}

#[test]
fn monitor_indices_increase() {
    let mut ids = MonitorIds::new();
    let a = LogMonitor::new("b.log".to_string(), 10, &mut ids);
    let b = LogMonitor::new("a.log".to_string(), 10, &mut ids);
    let c = LogMonitor::new("b.log".to_string(), 10, &mut ids);
    assert!(a.index < b.index && b.index < c.index);
    assert_eq!(ids.allocate(), 3);
}

#[test]
fn app_new_one_monitor_per_file() {
    let mut ids = MonitorIds::new();
    let files = strings(&["x.log", "y.log", "x.log"]);
    let app = App::new(&files, 5, None, &mut ids).unwrap();
    assert_eq!(app.monitors.len(), 2);
    assert_eq!(app.monitors[0].logfile, "x.log");
    assert_eq!(app.monitors[1].logfile, "y.log");
    assert!(app.monitors[0].index < app.monitors[1].index);
    assert_eq!(app.dash_state.main_view, DashViewMain::DashHorizontal);
    assert!(App::new(&Vec::new(), 5, None, &mut ids).is_none());
}

#[test]
fn app_new_debug_parser_mode() {
    let mut ids = MonitorIds::new();
    let files = strings(&["x.log", "y.log"]);
    let app = App::new(&files, 5, Some("/tmp/scratch".to_string()), &mut ids).unwrap();
    assert_eq!(app.monitors.len(), 2);
    assert_eq!(app.monitors[1].logfile, "/tmp/scratch");
    assert!(app.dash_state.debug_ui);
    assert_eq!(app.dash_state.main_view, DashViewMain::DashVertical);
}

fn line(src: &str, text: &str) -> DashEvent {
    DashEvent::Line { source: src.to_string(), line: text.to_string() }
}

#[test]
fn dispatcher_routes_every_event_once() {
    let mut ids = MonitorIds::new();
    let mut app = App::new(&strings(&["a", "b"]), 10, None, &mut ids).unwrap();
    let events = vec![
        line("a", "a1"),
        DashEvent::Tick,
        line("b", "b1"),
        DashEvent::Input(Key::Char('v')),
        line("c", "c1"),
        line("a", "a2"),
        DashEvent::Tick,
        line("b", "b2"),
    ];
    let n = app.dispatch_all(&events);
    assert_eq!(n, 8);
    assert_eq!(app.monitors[0].content, strings(&["a1", "a2"]));
    assert_eq!(app.monitors[1].content, strings(&["b1", "b2"]));
    assert!(app.monitors[0].metrics.timeline.is_empty());
    assert_eq!(app.dash_state.main_view, DashViewMain::DashVertical);
}

#[test]
fn dispatcher_stops_at_quit() {
    let mut ids = MonitorIds::new();
    let mut app = App::new(&strings(&["a"]), 10, None, &mut ids).unwrap();
    let events = vec![line("a", "1"), DashEvent::Input(Key::Char('Q')), line("a", "2")];
    assert_eq!(app.dispatch_all(&events), 2);
    assert_eq!(app.monitors[0].content, strings(&["1"]));
}

#[test]
fn keys_switch_layout_and_focus() {
    let mut ids = MonitorIds::new();
    let mut app = App::new(&strings(&["a", "b", "c"]), 10, None, &mut ids).unwrap();
    assert!(!app.handle_event(&DashEvent::Input(Key::Char('D'))));
    assert_eq!(app.dash_state.main_view, DashViewMain::DashDebug);
    app.handle_event(&DashEvent::Input(Key::Char('h')));
    assert_eq!(app.dash_state.main_view, DashViewMain::DashHorizontal);
    app.handle_event(&DashEvent::Input(Key::Left));
    assert_eq!(app.dash_state.dash_vertical.active_view, 2);
    app.handle_event(&DashEvent::Input(Key::Tab));
    assert_eq!(app.dash_state.dash_vertical.active_view, 0);
    app.handle_event(&DashEvent::Input(Key::Right));
    assert_eq!(app.dash_state.dash_vertical.active_view, 1);
    app.handle_event(&line("b", "x"));
    app.handle_event(&line("b", "y"));
    app.handle_event(&DashEvent::Input(Key::Up));
    assert_eq!(app.monitors[1].selected, Some(1));
    app.handle_event(&DashEvent::Input(Key::Down));
    assert_eq!(app.monitors[1].selected, Some(0));
    app.handle_event(&DashEvent::Input(Key::Other));
    assert_eq!(app.monitors[1].selected, Some(0));
    assert!(app.handle_event(&DashEvent::Input(Key::Char('q'))));
}

#[test]
fn tick_clock_fires_once_per_interval() {
    let mut c = TickClock::new(0, 100);
    assert_eq!(c.poll_timeout(30), 70);
    assert!(!c.check_tick(99));
    assert!(c.check_tick(250));
    assert_eq!(c.last_tick, 100);
    assert!(c.check_tick(250));
    assert_eq!(c.last_tick, 200);
    assert!(!c.check_tick(250));
    assert_eq!(c.poll_timeout(250), 50);
}

#[test]
fn dash_defaults() {
    let d = DashState::new();
    assert_eq!(d.main_view, DashViewMain::DashHorizontal);
    assert!(!d.debug_ui);
    assert_eq!(DashVertical::new().active_view, 0);
}

#[test]
fn start_banner_of_any_product() {
    let mut m = VaultMetrics::new();
    let r = m.gather_metrics("Running x 1");
    assert_eq!(r, "START at None");
    assert_eq!(m.running_version.as_deref(), Some("1"));
    assert_eq!(m.timeline[0].category, "START");
    m.gather_metrics("Running other-node v2.0 beta");
    assert_eq!(m.running_version.as_deref(), Some("v2.0 beta"));
    assert_eq!(m.running_message.as_deref(), Some("Running other-node v2.0 beta"));
}

#[test]
fn start_banner_needs_name_and_space() {
    let mut m = VaultMetrics::new();
    assert_eq!(m.gather_metrics("Running  x 1"), "");
    assert_eq!(m.gather_metrics("Running x"), "");
    assert_eq!(m.gather_metrics("Running "), "");
    assert_eq!(m.gather_metrics("running x 1"), "");
    assert!(m.timeline.is_empty());
    assert!(m.running_version.is_none());
}

#[test]
fn category_counts_start_empty() {
    let mut m = VaultMetrics::new();
    assert!(m.category_count.is_empty());
    m.gather_metrics(INFO_LINE);
    assert!(m.category_count.is_empty());
}
