//! The block lifecycle: starting a block, lifting it, and reporting status.
//!
//! The machine's resources that the engine owns (the hosts file, the state
//! directory with the record of the active block, and the persisted
//! identifier of the scheduled unblock unit) are modelled by `Snapshot`. Each
//! operation computes the snapshot that holds once it has run, and the
//! ordered list of `Action`s that bring the machine there.
use vstd::prelude::*;

use crate::hosts::{
    applied, is_marker_line, remove_is_idempotent, removed, split_lines, valid_host, views,
};
use crate::profile::{hosts_of, website_hosts, BlockState, BlockStateView, Profile};

verus! {

/// Where the record of the active block and the unit identifier are kept.
pub const STATE_DIR: &'static str = "/tmp/enough";

/// Runs the block lifecycle over the hosts file, the scheduled unblock unit
/// and the saved record of the active block.
pub struct BlockManager {
    pub state_dir: String,
}

/// The persisted reference to a scheduled unblock unit: its identifier and
/// the home directory under which its definition was written.
#[derive(Debug)]
pub struct UnitRef {
    pub id: String,
    pub home: String,
}

impl UnitRef {
    pub fn duplicate(&self) -> (r: UnitRef)
        ensures
            r == *self,
    {
        UnitRef { id: self.id.clone(), home: self.home.clone() }
    }
}

/// What the engine finds on the machine: the hosts file's text, whether the
/// state directory exists, the record of the active block, and the persisted
/// unit reference.
pub struct Snapshot {
    pub hosts: String,
    pub state_dir: bool,
    pub record: Option<BlockState>,
    pub unit: Option<UnitRef>,
}

impl Snapshot {
    /// The record and the unit reference live in the state directory.
    pub open spec fn wf(&self) -> bool {
        (self.record is Some || self.unit is Some) ==> self.state_dir
    }

    pub open spec fn record_view(&self) -> Option<BlockStateView> {
        match self.record {
            Some(b) => Some(b@),
            None => None,
        }
    }
}

/// One step that brings the machine to the snapshot an operation computed.
/// Steps without a value take it from that snapshot.
#[derive(Debug)]
pub enum Action {
    /// Create the state directory.
    CreateStateDir,
    /// Write the given text to the hosts file.
    WriteHosts(String),
    /// Flush the name-resolution cache; a failure here is a warning.
    FlushNameCache,
    /// Stop and delete the given unit and its persisted reference; a failure
    /// to stop it is a warning.
    RemoveUnit(UnitRef),
    /// Remove the state directory and all it holds, if it exists.
    ClearStateDir,
    /// Install and start the snapshot's unit, triggered at the record's
    /// unblock time, and persist its reference.
    InstallUnit,
    /// Save the snapshot's record.
    SaveRecord,
}

/// An `Action` as a value of the model: the text to write is its view.
pub enum ActionView {
    CreateStateDir,
    WriteHosts(Seq<char>),
    FlushNameCache,
    RemoveUnit(UnitRef),
    ClearStateDir,
    InstallUnit,
    SaveRecord,
}

impl View for Action {
    type V = ActionView;

    open spec fn view(&self) -> ActionView {
        match self {
            Action::CreateStateDir => ActionView::CreateStateDir,
            Action::WriteHosts(t) => ActionView::WriteHosts(t@),
            Action::FlushNameCache => ActionView::FlushNameCache,
            Action::RemoveUnit(u) => ActionView::RemoveUnit(*u),
            Action::ClearStateDir => ActionView::ClearStateDir,
            Action::InstallUnit => ActionView::InstallUnit,
            Action::SaveRecord => ActionView::SaveRecord,
        }
    }
}

/// The views of a list of actions.
pub open spec fn plan_view(acts: Seq<Action>) -> Seq<ActionView> {
    acts.map_values(|a: Action| a@)
}

#[derive(Debug, PartialEq, Eq, Structural)]
pub enum BlockError {
    /// No state directory: there was no record of an active block.
    MissingState,
    /// The unblock time does not fit in 64-bit seconds.
    TimeOverflow,
}

/// Whether a block is active, and if so under which profile and until when
/// (seconds since the Unix epoch).
#[derive(Debug)]
pub enum Status {
    Blocked { profile_name: String, unblock_time_secs: u64 },
    Unblocked,
}

impl Status {
    /// Whether the status is `Blocked`.
    pub fn is_blocked(&self) -> (r: bool)
        ensures
            r == (self is Blocked),
    {
        match self {
            Status::Blocked { .. } => true,
            Status::Unblocked => false,
        }
    }

    /// Seconds from `now_secs` until the unblock time; zero when unblocked or
    /// when that time has passed.
    pub fn remaining_secs(&self, now_secs: u64) -> (r: u64)
        ensures
            r == match self {
                Status::Blocked { unblock_time_secs, .. } => if *unblock_time_secs > now_secs {
                    (*unblock_time_secs - now_secs) as u64
                } else {
                    0
                },
                Status::Unblocked => 0,
            },
    {
        match self {
            Status::Blocked { unblock_time_secs, .. } => if *unblock_time_secs > now_secs {
                *unblock_time_secs - now_secs
            } else {
                0
            },
            Status::Unblocked => 0,
        }
    }
}

/// The steps that lift a block from `old`: the hosts file first, then the
/// unit if one is recorded, then the state directory if there is one.
pub open spec fn unblock_plan(old: Snapshot) -> Seq<ActionView> {
    let unit = match old.unit {
        Some(u) => seq![ActionView::RemoveUnit(u)],
        None => seq![],
    };
    let dir = if old.state_dir {
        seq![ActionView::ClearStateDir]
    } else {
        seq![]
    };
    seq![ActionView::WriteHosts(removed(old.hosts@)), ActionView::FlushNameCache] + unit + dir
}

/// The state after a block is lifted from `old`: no region in the hosts file,
/// no state directory, no record, no unit.
pub open spec fn unblock_post(old: Snapshot, new: Snapshot) -> bool {
    &&& new.hosts@ == removed(old.hosts@)
    &&& !new.state_dir
    &&& new.record is None
    &&& new.unit is None
}

/// The steps that start a block of `websites` from `old`. The stale block is
/// cleared first, as lifting it would: the hosts file loses its regions, the
/// stale unit and the state directory go. Then the new region is written if
/// there are websites, and the new unit is installed before the record is
/// saved.
pub open spec fn block_plan(old: Snapshot, websites: Seq<Seq<char>>) -> Seq<ActionView> {
    let stale = match old.unit {
        Some(u) => seq![ActionView::RemoveUnit(u)],
        None => seq![],
    };
    let block = if websites.len() > 0 {
        seq![
            ActionView::WriteHosts(blocked_hosts(old.hosts@, websites)),
            ActionView::FlushNameCache,
        ]
    } else {
        seq![]
    };
    seq![ActionView::WriteHosts(removed(old.hosts@)), ActionView::FlushNameCache] + stale + seq![
        ActionView::ClearStateDir,
    ] + block + seq![ActionView::CreateStateDir, ActionView::InstallUnit, ActionView::SaveRecord]
}

/// The hosts file after a block of `websites` starts on text `h`: every earlier
/// region removed, and a region for the websites' hosts appended if there are
/// any websites.
pub open spec fn blocked_hosts(h: Seq<char>, websites: Seq<Seq<char>>) -> Seq<char> {
    if websites.len() > 0 {
        applied(h, hosts_of(websites))
    } else {
        removed(h)
    }
}

/// The state after a block of `profile` under `name` starts at `now_secs` for
/// `duration_secs` with unit `unit`: exactly one record, for this block alone.
pub open spec fn block_post(
    old: Snapshot,
    new: Snapshot,
    name: Seq<char>,
    profile: crate::profile::ProfileView,
    duration_secs: u64,
    now_secs: u64,
    unit: UnitRef,
) -> bool {
    &&& new.hosts@ == blocked_hosts(old.hosts@, profile.websites)
    &&& new.state_dir
    &&& new.unit == Some(unit)
    &&& new.record_view() == Some(
        BlockStateView {
            profile_name: name,
            profile: profile,
            unblock_time_secs: (now_secs + duration_secs) as u64,
        },
    )
}

/// The status that a snapshot reports.
pub open spec fn reports(r: Status, snap: Snapshot) -> bool {
    match snap.record {
        None => r is Unblocked,
        Some(b) => match r {
            Status::Blocked { profile_name, unblock_time_secs } => profile_name@ == b.profile_name@
                && unblock_time_secs == b.unblock_time_secs,
            Status::Unblocked => false,
        },
    }
}

impl BlockManager {
    pub fn new() -> (r: Self)
        ensures
            r.state_dir@ == STATE_DIR@,
    {
        BlockManager { state_dir: String::from_str(STATE_DIR) }
    }

    /// Lifts the active block: the hosts file loses every region, the unit is
    /// removed if one is recorded, and the state directory is cleared. All of
    /// this happens whatever is missing; when there is no state directory the
    /// result also reports `MissingState`, which a defensive caller may take
    /// as "already lifted".
    pub fn unblock_all(&self, snap: &mut Snapshot) -> (r: (Vec<Action>, Result<(), BlockError>))
        ensures
            plan_view(r.0@) == unblock_plan(*old(snap)),
            unblock_post(*old(snap), *final(snap)),
            final(snap).wf(),
            r.1 is Err <==> !old(snap).state_dir,
            r.1 is Err ==> r.1 == Err::<(), BlockError>(BlockError::MissingState),
    {
        let cleaned = Self::remove_existing_blocks(snap.hosts.as_str());
        let mut acts: Vec<Action> = Vec::new();
        acts.push(Action::WriteHosts(cleaned.clone()));
        acts.push(Action::FlushNameCache);
        match &snap.unit {
            Some(u) => acts.push(Action::RemoveUnit(u.duplicate())),
            None => {},
        }
        let had_state = snap.state_dir;
        if had_state {
            acts.push(Action::ClearStateDir);
        }
        snap.hosts = cleaned;
        snap.state_dir = false;
        snap.record = None;
        snap.unit = None;
        assert(plan_view(acts@) =~= unblock_plan(*old(snap)));
        if had_state {
            (acts, Ok(()))
        } else {
            (acts, Err(BlockError::MissingState))
        }
    }

    /// Starts a block of `profile` under `profile_name` for `duration_secs`
    /// from `now_secs`, with the scheduled unit `unit`. Any stale block is
    /// cleared first, whatever state it was left in; the new record is a copy
    /// of the profile with the absolute unblock time. Fails with
    /// `TimeOverflow`, changing nothing, when that time does not fit in a
    /// `u64`.
    pub fn block_items(
        &self,
        snap: &mut Snapshot,
        profile_name: &str,
        profile: &Profile,
        duration_secs: u64,
        now_secs: u64,
        unit: UnitRef,
    ) -> (r: Result<Vec<Action>, BlockError>)
        ensures
            r is Err <==> now_secs + duration_secs > u64::MAX,
            r is Err ==> r == Err::<Vec<Action>, BlockError>(BlockError::TimeOverflow) && *final(snap)
                == *old(snap),
            r matches Ok(acts) ==> plan_view(acts@) == block_plan(*old(snap), profile@.websites)
                && block_post(
                *old(snap),
                *final(snap),
                profile_name@,
                profile@,
                duration_secs,
                now_secs,
                unit,
            ) && final(snap).wf(),
            r is Ok ==> forall|i: int|
                0 <= i < hosts_of(profile@.websites).len() ==> valid_host(
                    #[trigger] hosts_of(profile@.websites)[i],
                ),
    {
        if duration_secs > u64::MAX - now_secs {
            return Err(BlockError::TimeOverflow);
        }
        let unblock_time_secs = now_secs + duration_secs;
        let cleaned = Self::remove_existing_blocks(snap.hosts.as_str());
        let mut acts: Vec<Action> = Vec::new();
        acts.push(Action::WriteHosts(cleaned.clone()));
        acts.push(Action::FlushNameCache);
        match &snap.unit {
            Some(u) => acts.push(Action::RemoveUnit(u.duplicate())),
            None => {},
        }
        acts.push(Action::ClearStateDir);
        let names = website_hosts(&profile.websites);
        proof {
            assert forall|i: int| 0 <= i < hosts_of(profile@.websites).len() implies valid_host(
                #[trigger] hosts_of(profile@.websites)[i],
            ) by {
                assert(views(names@)[i] == names@[i]@);
            }
        }
        let hosts = if profile.websites.len() > 0 {
            let blocked = Self::block_websites(snap.hosts.as_str(), &names);
            acts.push(Action::WriteHosts(blocked.clone()));
            acts.push(Action::FlushNameCache);
            blocked
        } else {
            cleaned
        };
        acts.push(Action::CreateStateDir);
        acts.push(Action::InstallUnit);
        acts.push(Action::SaveRecord);
        let record = BlockState {
            profile_name: String::from_str(profile_name),
            profile: profile.snapshot(),
            unblock_time_secs,
        };
        snap.hosts = hosts;
        snap.state_dir = true;
        snap.record = Some(record);
        snap.unit = Some(unit);
        assert(plan_view(acts@) =~= block_plan(*old(snap), profile@.websites));
        Ok(acts)
    }

    /// The status that the snapshot shows. It reads the record alone: it
    /// changes nothing, and a block whose unblock time has passed is still
    /// reported until it is lifted.
    pub fn get_status(&self, snap: &Snapshot) -> (r: Status)
        ensures
            reports(r, *snap),
    {
        match &snap.record {
            Some(b) => Status::Blocked {
                profile_name: b.profile_name.clone(),
                unblock_time_secs: b.unblock_time_secs,
            },
            None => Status::Unblocked,
        }
    }
}

/// A block started while another is recorded replaces it: afterwards the one
/// record is the later block's, with nothing of the earlier one merged in, and
/// the persisted unit is the later one's.
pub proof fn later_block_supersedes(
    s0: Snapshot,
    s1: Snapshot,
    s2: Snapshot,
    a: Seq<char>,
    profile_a: crate::profile::ProfileView,
    d1: u64,
    t1: u64,
    u1: UnitRef,
    b: Seq<char>,
    profile_b: crate::profile::ProfileView,
    d2: u64,
    t2: u64,
    u2: UnitRef,
)
    requires
        block_post(s0, s1, a, profile_a, d1, t1, u1),
        block_post(s1, s2, b, profile_b, d2, t2, u2),
    ensures
        s1.record_view() == Some(
            BlockStateView { profile_name: a, profile: profile_a, unblock_time_secs: (t1 + d1) as u64 },
        ),
        s2.record_view() == Some(
            BlockStateView { profile_name: b, profile: profile_b, unblock_time_secs: (t2 + d2) as u64 },
        ),
        s2.unit == Some(u2),
{
}

/// After a block is lifted there is no record, no unit reference, no state
/// directory, and no marker line in the hosts file.
pub proof fn unblock_clears_everything(s0: Snapshot, s1: Snapshot)
    requires
        unblock_post(s0, s1),
    ensures
        s1.record is None,
        s1.unit is None,
        !s1.state_dir,
        forall|i: int|
            0 <= i < split_lines(s1.hosts@).len() ==> !is_marker_line(
                #[trigger] split_lines(s1.hosts@)[i],
            ),
{
    remove_is_idempotent(s0.hosts@);
}

/// The status depends on the record alone: while a record is present it is
/// `Blocked`, also once the clock has passed the unblock time, and two
/// readings of one snapshot agree.
pub proof fn status_blocked_until_lifted(r1: Status, r2: Status, snap: Snapshot, now_secs: u64)
    requires
        reports(r1, snap),
        reports(r2, snap),
        snap.record matches Some(b) && b.unblock_time_secs <= now_secs,
    ensures
        r1 is Blocked,
        r2 is Blocked,
        r1->profile_name@ == r2->profile_name@,
        r1->unblock_time_secs == r2->unblock_time_secs,
{
}

} // verus!
