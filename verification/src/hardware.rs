//! Hardware boards and their exclusive lease to a runner.

use vstd::prelude::*;
use crate::db::{
    get_hardware_info, get_hardware_status, hardware_board_list, hardware_exists,
    update_hardware_status, DbView, HardwareStatus, RunnerDb,
};
use crate::http::Status;
use crate::text::{same_text, texts};

verus! {

/// What a board is, to the contracts of this crate.
pub struct HardwareView {
    pub name: Seq<char>,
    pub status: HardwareStatus,
    pub claimed_by: Option<Seq<char>>,
}

impl HardwareView {
    /// A board names a holder exactly while it is claimed.
    pub open spec fn consistent(self) -> bool {
        self.status == HardwareStatus::CLAIMED <==> self.claimed_by.is_some()
    }

    /// Whether the board can be claimed.
    pub open spec fn available(self) -> bool {
        self.status != HardwareStatus::CLAIMED
    }
}

/// A hardware board: its identifier, its status and the runner that holds it.
#[derive(Debug)]
pub struct HardwareInfo {
    pub name: String,
    pub status: HardwareStatus,
    pub claimed_by: Option<String>,
}

impl View for HardwareInfo {
    type V = HardwareView;

    open spec fn view(&self) -> HardwareView {
        HardwareView {
            name: self.name@,
            status: self.status,
            claimed_by: match self.claimed_by {
                Some(runner) => Some(runner@),
                None => None,
            },
        }
    }
}

impl HardwareInfo {
    /// A board with the given identifier, status and holder.
    pub fn new(name: String, status: HardwareStatus, claimed_by: Option<String>) -> (r: Self)
        ensures
            r.name == name,
            r.status == status,
            r.claimed_by == claimed_by,
    {
        Self { name, status, claimed_by }
    }

    /// The board with this identifier, or `None` where there is none.
    pub fn retrieve(db: &RunnerDb, hardware: &str) -> (r: Option<Self>)
        requires
            db@.wf(),
        ensures
            r.is_some() == db@.has_hardware(hardware@),
            r matches Some(info) ==> info@ == db@.board(hardware@),
    {
        if !hardware_exists(db, hardware) {
            return None;
        }
        Some(get_hardware_info(db, hardware))
    }
}

impl PartialEq for HardwareInfo {
    fn eq(&self, other: &Self) -> (r: bool) {
        let same_holder = match (&self.claimed_by, &other.claimed_by) {
            (Some(a), Some(b)) => same_text(a.as_str(), b.as_str()),
            (None, None) => true,
            _ => false,
        };
        same_text(self.name.as_str(), other.name.as_str()) && self.status == other.status
            && same_holder
    }
}

impl vstd::std_specs::cmp::PartialEqSpecImpl for HardwareInfo {
    open spec fn obeys_eq_spec() -> bool {
        true
    }

    open spec fn eq_spec(&self, other: &Self) -> bool {
        self@ == other@
    }
}

impl Clone for HardwareInfo {
    fn clone(&self) -> (r: Self)
        ensures
            r == *self,
    {
        let claimed_by = match &self.claimed_by {
            Some(runner) => Some(runner.clone()),
            None => None,
        };
        HardwareInfo { name: self.name.clone(), status: self.status, claimed_by }
    }
}

/// The answer to an attempt to claim the board `hardware`.
pub open spec fn claim_status(db: DbView, hardware: Seq<char>) -> Status {
    if !db.has_hardware(hardware) {
        Status::NotFound
    } else if !db.board(hardware).available() {
        Status::Conflict
    } else {
        Status::Okay
    }
}

/// The tables after `runner` attempted to claim the board `hardware`.
pub open spec fn claim_effect(db: DbView, hardware: Seq<char>, runner: Seq<char>) -> DbView {
    if claim_status(db, hardware) == Status::Okay {
        db.with_hardware_status(hardware, runner, HardwareStatus::CLAIMED)
    } else {
        db
    }
}

/// The answer to an attempt to release the board `hardware`.
pub open spec fn release_status(db: DbView, hardware: Seq<char>) -> Status {
    if !db.has_hardware(hardware) {
        Status::NotFound
    } else if db.board(hardware).available() {
        Status::Conflict
    } else {
        Status::Okay
    }
}

/// The tables after `runner` attempted to release the board `hardware`. Who
/// releases a board leaves no trace in them.
pub open spec fn release_effect(db: DbView, hardware: Seq<char>, runner: Seq<char>) -> DbView {
    if release_status(db, hardware) == Status::Okay {
        db.with_hardware_status(hardware, runner, HardwareStatus::FREE)
    } else {
        db
    }
}

/// Whether the board can be claimed: every board can but one that is claimed.
/// An unknown board is reported as `NotFound`.
pub fn is_hardware_available(db: &RunnerDb, hardware: &str) -> (r: Result<bool, Status>)
    requires
        db@.wf(),
    ensures
        r.is_ok() == db@.has_hardware(hardware@),
        r matches Ok(available) ==> available == db@.board(hardware@).available(),
        r matches Err(status) ==> status == Status::NotFound,
{
    if !hardware_exists(db, hardware) {
        return Err(Status::NotFound);
    }
    Ok(HardwareStatus::CLAIMED != get_hardware_status(db, hardware))
}

/// All boards, in the order of the rows.
pub fn hardware_info(db: &RunnerDb) -> (infos: Vec<HardwareInfo>)
    requires
        db@.wf(),
    ensures
        infos@.map_values(|h: HardwareInfo| h@) == db@.hardware,
{
    let boards = hardware_board_list(db);
    let mut infos: Vec<HardwareInfo> = Vec::new();
    let mut i: usize = 0;
    assert(boards.len() == db@.hardware.len()) by {
        assert(texts(boards@).len() == db@.hardware_names().len());
    }
    while i < boards.len()
        invariant
            i <= boards.len(),
            db@.wf(),
            texts(boards@) == db@.hardware_names(),
            boards.len() == db@.hardware.len(),
            infos.len() == i,
            forall|j: int| 0 <= j < i ==> (#[trigger] infos[j])@ == db@.hardware[j],
        decreases boards.len() - i,
    {
        proof {
            db@.lemma_board_at(i as int);
        }
        if let Some(info) = HardwareInfo::retrieve(db, boards[i].as_str()) {
            infos.push(info);
        }
        i += 1;
    }
    infos
}

/// Claims a board for a runner. The board is checked and written in one
/// step, so of two claims on a free board the first is answered `Okay` and
/// the second `Conflict`. An unknown board is answered `NotFound`, a claimed
/// one `Conflict`, and neither changes anything.
pub fn claim_hardware(db: &mut RunnerDb, hardware: &str, runner: &str) -> (status: Status)
    requires
        old(db)@.wf(),
    ensures
        status == claim_status(old(db)@, hardware@),
        final(db)@ == claim_effect(old(db)@, hardware@, runner@),
        final(db)@.wf(),
        final(db)@.boards_kept_but(old(db)@, hardware@),
        status == Status::Okay ==> final(db)@.board(hardware@) == (HardwareView {
            name: hardware@,
            status: HardwareStatus::CLAIMED,
            claimed_by: Some(runner@),
        }),
{
    match is_hardware_available(db, hardware) {
        Ok(true) => {},
        Ok(false) => {
            return Status::Conflict;
        },
        Err(_) => {
            return Status::NotFound;
        },
    }
    update_hardware_status(db, hardware, runner, HardwareStatus::CLAIMED);
    Status::Okay
}

/// Releases a board. The board is checked and written in one step. An
/// unknown board is answered `NotFound`, one that is not claimed `Conflict`,
/// and neither changes anything. The runner need not be the holder.
pub fn release_hardware(db: &mut RunnerDb, hardware: &str, runner: &str) -> (status: Status)
    requires
        old(db)@.wf(),
    ensures
        status == release_status(old(db)@, hardware@),
        final(db)@ == release_effect(old(db)@, hardware@, runner@),
        final(db)@.wf(),
        final(db)@.boards_kept_but(old(db)@, hardware@),
        status == Status::Okay ==> final(db)@.board(hardware@) == (HardwareView {
            name: hardware@,
            status: HardwareStatus::FREE,
            claimed_by: None,
        }),
{
    match is_hardware_available(db, hardware) {
        Ok(false) => {},
        Ok(true) => {
            return Status::Conflict;
        },
        Err(_) => {
            return Status::NotFound;
        },
    }
    update_hardware_status(db, hardware, runner, HardwareStatus::FREE);
    Status::Okay
}

/// Of two claims on one board, one after the other, at most one is answered
/// `Okay`; where the first is, the second is answered `Conflict`, whoever the
/// two runners are.
pub proof fn lemma_claim_is_exclusive(
    db: DbView,
    hardware: Seq<char>,
    first: Seq<char>,
    second: Seq<char>,
)
    requires
        db.wf(),
    ensures
        claim_status(db, hardware) == Status::Okay ==> claim_status(
            claim_effect(db, hardware, first),
            hardware,
        ) == Status::Conflict,
        !(claim_status(db, hardware) == Status::Okay && claim_status(
            claim_effect(db, hardware, first),
            hardware,
        ) == Status::Okay),
        claim_status(db, hardware) == Status::Okay ==> claim_effect(
            claim_effect(db, hardware, first),
            hardware,
            second,
        ).board(hardware).claimed_by == Some(first),
{
    if claim_status(db, hardware) == Status::Okay {
        db.lemma_with_hardware_status(hardware, first, HardwareStatus::CLAIMED);
    }
}

/// A board that was claimed with success and is then released is available
/// again, and the release is answered `Okay`.
pub proof fn lemma_release_after_claim(db: DbView, hardware: Seq<char>, runner: Seq<char>)
    requires
        db.wf(),
        claim_status(db, hardware) == Status::Okay,
    ensures
        release_status(claim_effect(db, hardware, runner), hardware) == Status::Okay,
        release_effect(claim_effect(db, hardware, runner), hardware, runner).has_hardware(hardware),
        release_effect(claim_effect(db, hardware, runner), hardware, runner).board(
            hardware,
        ).available(),
        release_effect(claim_effect(db, hardware, runner), hardware, runner).board(hardware).status
            == HardwareStatus::FREE,
{
    db.lemma_with_hardware_status(hardware, runner, HardwareStatus::CLAIMED);
    let claimed = claim_effect(db, hardware, runner);
    claimed.lemma_with_hardware_status(hardware, runner, HardwareStatus::FREE);
}

/// The release of a board that is free is answered `Conflict` and changes
/// nothing.
pub proof fn lemma_release_of_free_board(db: DbView, hardware: Seq<char>, runner: Seq<char>)
    requires
        db.wf(),
        db.has_hardware(hardware),
        db.board(hardware).status == HardwareStatus::FREE,
    ensures
        release_status(db, hardware) == Status::Conflict,
        release_effect(db, hardware, runner) == db,
{
}

} // verus!
