use powderman::timers::{fires_now, timer_rows, TimerRow};

fn own(name: &str, schedule: &str, next: &str) -> TimerRow {
    TimerRow { source: "powderman".into(), name: name.into(), schedule: schedule.into(), next: next.into() }
}

#[test]
fn every_clock_is_one_list_in_order() {
    let systemd = "Mon 2026-08-10 06:00:00 CEST 9h left Sun 2026-08-09 06:00:00 CEST 14h ago backup.timer backup.service\n\
                   - - - - n/a n/a - logrotate.timer logrotate.service\n\
                   \n";
    let crontab = "# m h dom mon dow command\n\n*/5 * * * * /usr/bin/poll --quiet\n  0 3 * * * nightly\n@reboot\n";
    let rows = timer_rows(vec![own("treebank_sweep", "0 6 * * *", "Mon 06:00")], systemd, crontab);
    let got: Vec<(&str, &str, &str, &str)> = rows
        .iter()
        .map(|r| (r.source.as_str(), r.name.as_str(), r.schedule.as_str(), r.next.as_str()))
        .collect();
    assert_eq!(
        got,
        [
            ("cron", "", "@reboot", ""),
            ("cron", "/usr/bin/poll --quiet", "*/5 * * * *", ""),
            ("cron", "nightly", "0 3 * * *", ""),
            ("powderman", "treebank_sweep", "0 6 * * *", "Mon 06:00"),
            ("systemd", "backup.timer", "", "Mon 2026-08-10 06:00:00"),
            ("systemd", "logrotate.timer", "", "- - -"),
        ]
    );
}

#[test]
fn a_schedule_fires_once_a_minute() {
    assert!(fires_now(true, None, 5));
    assert!(fires_now(true, Some(4), 5));
    assert!(!fires_now(true, Some(5), 5));
    assert!(!fires_now(false, None, 5));
}
