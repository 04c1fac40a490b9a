use enough::daemon::{ClockTime, LaunchDaemon, ScheduleError, SystemdDaemon};

const T: ClockTime = ClockTime { hour: 9, minute: 5, second: 42 };

#[test]
fn service_definition_text() {
    let s = SystemdDaemon::generate_service("/usr/bin/enough", T);
    assert_eq!(
        s,
        "[Unit]\nDescription=Enough Unblock Daemon\nAfter=network.target\n[Service]\nType=oneshot\nExecStart=/usr/bin/enough ___zzzunblock --fix\n[Install]\nWantedBy=default.target\n[Timer]\nOnCalendar=*-*-* 9:5:42\nPersistent=true\n"
    );
}

#[test]
fn plist_definition_text() {
    let p = LaunchDaemon::generate_plist("com.enough.unblock.x", "/bin/enough", ClockTime { hour: 23, minute: 59, second: 0 });
    assert!(p.starts_with("<?xml version=\"1.0\" encoding=\"UTF-8\"?>\n"));
    assert!(p.contains("<key>Label</key>\n    <string>com.enough.unblock.x</string>"));
    assert!(p.contains("<string>sudo</string>\n        <string>/bin/enough</string>\n        <string>___zzzunblock</string>\n        <string>--fix</string>"));
    assert!(p.contains("<key>Hour</key>\n        <integer>23</integer>"));
    assert!(p.contains("<key>Minute</key>\n        <integer>59</integer>"));
    assert!(p.contains("<key>Second</key>\n        <integer>0</integer>"));
    assert!(p.ends_with("</dict>\n</plist>"));
}

#[test]
fn unit_paths() {
    assert_eq!(SystemdDaemon::get_service_path("/home/u", "enough-unblock-1"), "/home/u/.config/systemd/user/enough-unblock-1.service");
    assert_eq!(LaunchDaemon::get_plist_path("/Users/u", "com.enough.unblock.1"), "/Users/u/Library/LaunchAgents/com.enough.unblock.1.plist");
}

#[test]
fn unit_ids_carry_a_fresh_uuid() {
    let a = LaunchDaemon::new_unit_id();
    let b = LaunchDaemon::new_unit_id();
    assert!(a.starts_with("com.enough.unblock."));
    assert_eq!(a.len(), "com.enough.unblock.".len() + 36);
    assert_ne!(a, b);
    let s = SystemdDaemon::new_unit_id();
    assert!(s.starts_with("enough-unblock-"));
    assert_eq!(s.len(), "enough-unblock-".len() + 36);
    let uuid = &s["enough-unblock-".len()..];
    assert!(uuid.chars().all(|c| c.is_ascii_digit() || ('a'..='f').contains(&c) || c == '-'));
    let dashes: Vec<usize> = uuid.char_indices().filter(|(_, c)| *c == '-').map(|(i, _)| i).collect();
    assert_eq!(dashes, vec![8, 13, 18, 23]);
}

#[test]
fn unit_for_reads_local_clock() {
    let text = SystemdDaemon::unit_for("/bin/enough", 1_700_000_000).unwrap();
    assert!(text.contains("OnCalendar=*-*-* "));
    let line = text.lines().find(|l| l.starts_with("OnCalendar=")).unwrap();
    let fields: Vec<u32> = line["OnCalendar=*-*-* ".len()..].split(':').map(|f| f.parse().unwrap()).collect();
    assert_eq!(fields.len(), 3);
    assert!(fields[0] < 24 && fields[1] < 60 && fields[2] < 60);
    assert_eq!(fields[2], 20);
}

#[test]
fn unit_for_succeeds_up_to_year_9999() {
    assert!(LaunchDaemon::unit_for("id", "/bin/enough", 0).is_ok());
    assert!(LaunchDaemon::unit_for("id", "/bin/enough", 253_402_300_799).is_ok());
    assert!(SystemdDaemon::unit_for("/bin/enough", 253_402_300_799).is_ok());
}

#[test]
fn unit_for_rejects_out_of_range_time() {
    assert_eq!(LaunchDaemon::unit_for("id", "/bin/enough", u64::MAX).unwrap_err(), ScheduleError::NoLocalTime);
}
