//! Scheduled unblock units: the definitions that make the operating system's
//! service manager run this program again, with the hidden unblock command, at
//! the unblock time's wall-clock hour, minute and second.
use vstd::prelude::*;

use chrono::{TimeZone, Timelike};

use crate::text::push_char;

verus! {

/// The last second of year 9999, in seconds since the Unix epoch.
pub const LAST_SUPPORTED_SECS: i64 = 253_402_300_799;

/// A wall-clock time of day.
#[derive(Debug, PartialEq, Eq, Structural, Clone, Copy)]
pub struct ClockTime {
    pub hour: u32,
    pub minute: u32,
    pub second: u32,
}

impl ClockTime {
    pub open spec fn wf(&self) -> bool {
        self.hour < 24 && self.minute < 60 && self.second < 60
    }
}

/// Relies on `chrono::Local::timestamp_opt`, `MappedLocalTime::single` and
/// `Timelike`'s `hour`, `minute` and `second`: the local wall-clock time of a
/// Unix time, when it is unambiguous. The result depends on the machine's time
/// zone; chrono documents the ranges of the three fields. For every second
/// from the epoch up to the end of year 9999, `DateTime::from_timestamp`
/// accepts the count, so `timestamp_opt` gives a single result.
#[verifier::external_body]
fn local_clock(unix_secs: i64) -> (r: Option<ClockTime>)
    ensures
        r matches Some(t) ==> t.wf(),
        0 <= unix_secs <= LAST_SUPPORTED_SECS ==> r is Some,
{
    match chrono::Local.timestamp_opt(unix_secs, 0).single() {
        Some(t) => Some(ClockTime { hour: t.hour(), minute: t.minute(), second: t.second() }),
        None => None,
    }
}

pub open spec fn is_uuid_char(c: char) -> bool {
    ('0' <= c && c <= '9') || ('a' <= c && c <= 'f') || c == '-'
}

/// Relies on `uuid::Uuid::new_v4` and the `Display` impl of `Uuid`: a random
/// UUID in its hyphenated lower-case form.
#[verifier::external_body]
fn random_uuid() -> (r: String)
    ensures
        r@.len() == 36,
        forall|i: int| 0 <= i < 36 ==> is_uuid_char(#[trigger] r@[i]),
        forall|i: int| 0 <= i < 36 ==> ((#[trigger] r@[i]) == '-' <==> (i == 8 || i == 13 || i == 18 || i == 23)),
{
    uuid::Uuid::new_v4().to_string()
}

/// The decimal digit for `d`.
pub open spec fn digit(d: nat) -> char {
    if d == 0 {
        '0'
    } else if d == 1 {
        '1'
    } else if d == 2 {
        '2'
    } else if d == 3 {
        '3'
    } else if d == 4 {
        '4'
    } else if d == 5 {
        '5'
    } else if d == 6 {
        '6'
    } else if d == 7 {
        '7'
    } else if d == 8 {
        '8'
    } else {
        '9'
    }
}

/// `n` in decimal, without leading zeros.
pub open spec fn decimal(n: nat) -> Seq<char>
    decreases n,
{
    if n < 10 {
        seq![digit(n)]
    } else {
        decimal(n / 10).push(digit(n % 10))
    }
}

fn digit_char(d: u32) -> (c: char)
    requires
        d < 10,
    ensures
        c == digit(d as nat),
{
    if d == 0 {
        '0'
    } else if d == 1 {
        '1'
    } else if d == 2 {
        '2'
    } else if d == 3 {
        '3'
    } else if d == 4 {
        '4'
    } else if d == 5 {
        '5'
    } else if d == 6 {
        '6'
    } else if d == 7 {
        '7'
    } else if d == 8 {
        '8'
    } else {
        '9'
    }
}

/// Appends `n` in decimal to `out`.
fn push_decimal(out: &mut String, n: u32)
    ensures
        final(out)@ == old(out)@ + decimal(n as nat),
    decreases n,
{
    if n >= 10 {
        push_decimal(out, n / 10);
    }
    push_char(out, digit_char(n % 10));
    assert(final(out)@ =~= old(out)@ + decimal(n as nat));
}

/// Schedules the unblock as a systemd user unit.
pub struct SystemdDaemon;

/// Schedules the unblock as a launchd agent.
pub struct LaunchDaemon;

pub const SERVICE_PREFIX: &'static str = "enough-unblock-";

pub const SERVICE_HEAD: &'static str = "[Unit]\nDescription=Enough Unblock Daemon\nAfter=network.target\n[Service]\nType=oneshot\nExecStart=";

pub const SERVICE_MID: &'static str = " ___zzzunblock --fix\n[Install]\nWantedBy=default.target\n[Timer]\nOnCalendar=*-*-* ";

pub const SERVICE_TAIL: &'static str = "\nPersistent=true\n";

/// The systemd unit that runs `exe` with the hidden unblock command daily at
/// time `t`.
pub open spec fn service_text(exe: Seq<char>, t: ClockTime) -> Seq<char> {
    SERVICE_HEAD@ + exe + SERVICE_MID@ + decimal(t.hour as nat) + ":"@ + decimal(t.minute as nat) + ":"@
        + decimal(t.second as nat) + SERVICE_TAIL@
}

pub const PLIST_PREFIX: &'static str = "com.enough.unblock.";

pub const PLIST_HEAD: &'static str = "<?xml version=\"1.0\" encoding=\"UTF-8\"?>\n<!DOCTYPE plist PUBLIC \"-//Apple//DTD PLIST 1.0//EN\" \"http://www.apple.com/DTDs/PropertyList-1.0.dtd\">\n<plist version=\"1.0\">\n<dict>\n    <key>Label</key>\n    <string>";

pub const PLIST_PROGRAM: &'static str = "</string>\n    <key>ProgramArguments</key>\n    <array>\n        <string>sudo</string>\n        <string>";

pub const PLIST_HOUR: &'static str = "</string>\n        <string>___zzzunblock</string>\n        <string>--fix</string>\n    </array>\n    <key>StartCalendarInterval</key>\n    <dict>\n        <key>Hour</key>\n        <integer>";

pub const PLIST_MINUTE: &'static str = "</integer>\n        <key>Minute</key>\n        <integer>";

pub const PLIST_SECOND: &'static str = "</integer>\n        <key>Second</key>\n        <integer>";

pub const PLIST_TAIL: &'static str = "</integer>\n    </dict>\n    <key>RunAtLoad</key>\n    <false/>\n    <key>StandardOutPath</key>\n    <string>/tmp/enough/unblock.out</string>\n    <key>StandardErrorPath</key>\n    <string>/tmp/enough/unblock.err</string>\n</dict>\n</plist>";

/// The launchd property list labelled `id` that runs `exe` with the hidden
/// unblock command under `sudo` at time `t`.
pub open spec fn plist_text(id: Seq<char>, exe: Seq<char>, t: ClockTime) -> Seq<char> {
    PLIST_HEAD@ + id + PLIST_PROGRAM@ + exe + PLIST_HOUR@ + decimal(t.hour as nat) + PLIST_MINUTE@
        + decimal(t.minute as nat) + PLIST_SECOND@ + decimal(t.second as nat) + PLIST_TAIL@
}

/// The unit's identifier: `prefix` followed by a random UUID.
pub open spec fn is_unit_id(id: Seq<char>, prefix: Seq<char>) -> bool {
    &&& id.len() == prefix.len() + 36
    &&& id.take(prefix.len() as int) == prefix
    &&& forall|i: int| prefix.len() <= i < id.len() ==> is_uuid_char(#[trigger] id[i])
}

/// The unit identifier made of `prefix` and `uuid`.
pub fn unit_id_from(prefix: &str, uuid: &str) -> (r: String)
    ensures
        r@ == prefix@ + uuid@,
{
    let mut r = String::from_str(prefix);
    r.append(uuid);
    r
}

fn unit_id(prefix: &str) -> (r: String)
    ensures
        is_unit_id(r@, prefix@),
{
    let suffix = random_uuid();
    let r = unit_id_from(prefix, suffix.as_str());
    proof {
        assert(r@.take(prefix@.len() as int) =~= prefix@);
        assert forall|i: int| prefix@.len() <= i < r@.len() implies is_uuid_char(#[trigger] r@[i]) by {
            assert(r@[i] == suffix@[i - prefix@.len()]);
        }
    }
    r
}

/// Why a unit definition could not be made.
#[derive(Debug, PartialEq, Eq, Structural)]
pub enum ScheduleError {
    /// The unblock time has no single local wall-clock reading.
    NoLocalTime,
}

/// The local wall-clock time of `unix_secs`, or the error when it has none.
fn clock_of(unix_secs: u64) -> (r: Result<ClockTime, ScheduleError>)
    ensures
        r matches Ok(t) ==> t.wf(),
        unix_secs > i64::MAX ==> r == Err::<ClockTime, ScheduleError>(ScheduleError::NoLocalTime),
        unix_secs <= LAST_SUPPORTED_SECS ==> r is Ok,
{
    if unix_secs > i64::MAX as u64 {
        return Err(ScheduleError::NoLocalTime);
    }
    match local_clock(unix_secs as i64) {
        Some(t) => Ok(t),
        None => Err(ScheduleError::NoLocalTime),
    }
}

impl SystemdDaemon {
    /// A new unit identifier, `enough-unblock-` and a random UUID.
    pub fn new_unit_id() -> (r: String)
        ensures
            is_unit_id(r@, SERVICE_PREFIX@),
    {
        unit_id(SERVICE_PREFIX)
    }

    /// Where the unit `id` is written under the home directory `home`.
    pub fn get_service_path(home: &str, id: &str) -> (r: String)
        ensures
            r@ == home@ + "/.config/systemd/user/"@ + id@ + ".service"@,
    {
        let mut r = String::from_str(home);
        r.append("/.config/systemd/user/");
        r.append(id);
        r.append(".service");
        r
    }

    /// The unit definition that runs `exec_path` with the hidden unblock
    /// command at time `t`.
    pub fn generate_service(exec_path: &str, t: ClockTime) -> (r: String)
        ensures
            r@ == service_text(exec_path@, t),
    {
        let mut r = String::from_str(SERVICE_HEAD);
        r.append(exec_path);
        r.append(SERVICE_MID);
        push_decimal(&mut r, t.hour);
        r.append(":");
        push_decimal(&mut r, t.minute);
        r.append(":");
        push_decimal(&mut r, t.second);
        r.append(SERVICE_TAIL);
        r
    }

    /// The unit definition for an unblock at `unblock_time_secs`, read as
    /// local wall-clock time.
    pub fn unit_for(exec_path: &str, unblock_time_secs: u64) -> (r: Result<String, ScheduleError>)
        ensures
            r matches Ok(text) ==> exists|t: ClockTime| t.wf() && text@ == service_text(exec_path@, t),
            unix_out_of_range(unblock_time_secs) ==> r is Err,
            unblock_time_secs <= LAST_SUPPORTED_SECS ==> r is Ok,
    {
        match clock_of(unblock_time_secs) {
            Ok(t) => Ok(Self::generate_service(exec_path, t)),
            Err(e) => Err(e),
        }
    }
}

/// A Unix time that chrono cannot take as a signed 64-bit count.
pub open spec fn unix_out_of_range(secs: u64) -> bool {
    secs > i64::MAX
}

impl LaunchDaemon {
    /// A new agent label, `com.enough.unblock.` and a random UUID.
    pub fn new_unit_id() -> (r: String)
        ensures
            is_unit_id(r@, PLIST_PREFIX@),
    {
        unit_id(PLIST_PREFIX)
    }

    /// Where the agent `id` is written under the home directory `home`.
    pub fn get_plist_path(home: &str, id: &str) -> (r: String)
        ensures
            r@ == home@ + "/Library/LaunchAgents/"@ + id@ + ".plist"@,
    {
        let mut r = String::from_str(home);
        r.append("/Library/LaunchAgents/");
        r.append(id);
        r.append(".plist");
        r
    }

    /// The property list labelled `id` that runs `executable_path` with the
    /// hidden unblock command at time `t`.
    pub fn generate_plist(id: &str, executable_path: &str, t: ClockTime) -> (r: String)
        ensures
            r@ == plist_text(id@, executable_path@, t),
    {
        let mut r = String::from_str(PLIST_HEAD);
        r.append(id);
        r.append(PLIST_PROGRAM);
        r.append(executable_path);
        r.append(PLIST_HOUR);
        push_decimal(&mut r, t.hour);
        r.append(PLIST_MINUTE);
        push_decimal(&mut r, t.minute);
        r.append(PLIST_SECOND);
        push_decimal(&mut r, t.second);
        r.append(PLIST_TAIL);
        r
    }

    /// The property list for an unblock at `unblock_time_secs`, read as local
    /// wall-clock time.
    pub fn unit_for(id: &str, executable_path: &str, unblock_time_secs: u64) -> (r: Result<
        String,
        ScheduleError,
    >)
        ensures
            r matches Ok(text) ==> exists|t: ClockTime|
                t.wf() && text@ == plist_text(id@, executable_path@, t),
            unix_out_of_range(unblock_time_secs) ==> r is Err,
            unblock_time_secs <= LAST_SUPPORTED_SECS ==> r is Ok,
    {
        match clock_of(unblock_time_secs) {
            Ok(t) => Ok(Self::generate_plist(id, executable_path, t)),
            Err(e) => Err(e),
        }
    }
}

} // verus!
