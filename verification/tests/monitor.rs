use rustdesk_rmm::rmm::monitor::{
    alert_log_lines, down_services, fixed_disks, merge_alerts, merge_recent, notify, recent_alerts,
    remember_alerts, stamp, threshold_alerts, watched_services, Breach, DiskBreach, DiskInfo,
};

const RECENT_ALERTS_KEPT: usize = 20;

fn breach(usage: &str, threshold: &str) -> Option<Breach> {
    Some(Breach { usage: usage.to_owned(), threshold: threshold.to_owned() })
}

#[test]
fn a_cpu_breach_is_worded_alone() {
    let alerts = threshold_alerts(breach("95", "90"), None, None, &vec![]);
    assert_eq!(alerts.len(), 1);
    assert!(alerts[0].contains("CPU"));
    assert_eq!(alerts[0], "CPU usage 95% exceeds threshold 90%");
}

#[test]
fn down_service_always_reported() {
    let alerts = threshold_alerts(None, None, None, &vec!["Spooler".to_owned()]);
    assert_eq!(alerts, vec!["Service 'Spooler' is not running".to_owned()]);
}

#[test]
fn all_breaches_reported_together() {
    let alerts = threshold_alerts(
        breach("95", "90"),
        breach("96", "90"),
        Some(DiskBreach {
            mount: "D:\\".to_owned(),
            usage: "97".to_owned(),
            threshold: "90".to_owned(),
        }),
        &vec!["Spooler".to_owned()],
    );
    assert_eq!(alerts.len(), 4);
    assert_eq!(alerts[1], "Memory usage 96% exceeds threshold 90%");
    assert_eq!(alerts[2], "Disk usage on D:\\ 97% exceeds threshold 90%");
    assert_eq!(alerts[3], "Service 'Spooler' is not running");
}

#[test]
fn recent_alerts_newest_first_and_capped() {
    let first = merge_recent("", 1, &vec!["a".to_owned(), "b".to_owned()]);
    assert_eq!(first, vec!["1 b", "1 a"]);
    let json = serde_json::to_string(&first).unwrap();
    let many: Vec<String> = (0..30).map(|i| i.to_string()).collect();
    let merged = merge_recent(&json, 2, &many);
    assert_eq!(merged.len(), RECENT_ALERTS_KEPT);
    assert_eq!(merged[0], "2 29");
    assert!(merge_recent("not json", 3, &vec![]).is_empty());
}

#[test]
fn earlier_alerts_follow_the_new_ones() {
    let merged = merge_recent(r#"["1 old"]"#, 2, &vec!["new".to_owned()]);
    assert_eq!(merged, vec!["2 new", "1 old"]);
}

#[test]
fn remembered_alerts_read_back() {
    let stored = remember_alerts("", -5, &vec!["disk \"C:\" full".to_owned()]);
    assert_eq!(stored, r#"["-5 disk \"C:\" full"]"#);
    assert_eq!(remember_alerts("[]", 1, &vec!["a\u{1}\tb".to_owned()]), r#"["1 a\u0001\tb"]"#);
    assert_eq!(recent_alerts(Some(&stored)), vec!["-5 disk \"C:\" full".to_owned()]);
    assert!(recent_alerts(None).is_empty());
    assert!(recent_alerts(Some("{}")).is_empty());
}

#[test]
fn log_lines_are_stamped_in_order() {
    let lines = alert_log_lines(1700000000, &vec!["a".to_owned(), "b".to_owned()]);
    assert_eq!(lines, vec!["1700000000 a\n", "1700000000 b\n"]);
    assert_eq!(stamp(0, "x"), "0 x");
    assert_eq!(stamp(i64::MIN, "x"), "-9223372036854775808 x");
}

#[test]
fn watch_list_is_trimmed_and_split() {
    assert_eq!(watched_services(" Spooler, ,W32Time ,"), vec!["Spooler", "W32Time"]);
    assert!(watched_services("").is_empty());
}

#[test]
fn only_stopped_services_are_down() {
    let names = vec!["Spooler".to_owned(), "W32Time".to_owned()];
    assert_eq!(down_services(&names, &vec![true, false]), vec!["W32Time"]);
}

#[test]
fn notification_has_one_alert_per_line() {
    assert_eq!(notify(&vec!["a".to_owned(), "b".to_owned()]), "a\nb");
    assert_eq!(notify(&vec![]), "");
}

#[test]
fn removable_and_empty_disks_are_skipped() {
    let disks = vec![
        DiskInfo { mount: "/".to_owned(), removable: false, total_space: 100, available_space: 40 },
        DiskInfo { mount: "/usb".to_owned(), removable: true, total_space: 100, available_space: 0 },
        DiskInfo { mount: "/empty".to_owned(), removable: false, total_space: 0, available_space: 0 },
        DiskInfo { mount: "/odd".to_owned(), removable: false, total_space: 10, available_space: 20 },
    ];
    let fixed = fixed_disks(&disks);
    assert_eq!(fixed.len(), 2);
    assert_eq!((fixed[0].mount.as_str(), fixed[0].used, fixed[0].total), ("/", 60, 100));
    assert_eq!((fixed[1].mount.as_str(), fixed[1].used), ("/odd", 0));
}

#[test]
fn merging_keeps_the_newest_twenty() {
    let earlier: Vec<String> = (0..19).map(|i| format!("1 e{i}")).collect();
    let merged = merge_alerts(&earlier, 7, &vec!["x".to_owned(), "y".to_owned()]);
    assert_eq!(merged.len(), 20);
    assert_eq!(merged[0], "7 y");
    assert_eq!(merged[1], "7 x");
    assert_eq!(merged[2], "1 e0");
    assert_eq!(merged[19], "1 e17");
}
