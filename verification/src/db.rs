//! The image of the pool's two tables, and the accessors that read and update it.

use vstd::prelude::*;
use crate::hardware::{HardwareInfo, HardwareView};
use crate::runners::{lease_seconds, RunnerInfo, RunnerView};
use crate::text::{same_text, texts};
use crate::timestamp::Timestamp;

verus! {

/// The lifecycle state of a runner.
#[allow(non_camel_case_types)]
#[derive(Clone, Copy, Debug, PartialEq, Eq, Structural, Hash)]
pub enum RunnerStatus {
    RESETTING,
    IDLE,
    RUNNING,
    ERROR,
    OFFLINE,
}

/// The state of a hardware board.
#[allow(non_camel_case_types)]
#[derive(Clone, Copy, Debug, PartialEq, Eq, Structural, Hash)]
pub enum HardwareStatus {
    FREE,
    CLAIMED,
    UNAVAILABLE,
    ERROR,
}

impl RunnerStatus {
    /// The text under which a status is persisted.
    pub open spec fn name(self) -> Seq<char> {
        match self {
            RunnerStatus::RESETTING => "RESETTING"@,
            RunnerStatus::IDLE => "IDLE"@,
            RunnerStatus::RUNNING => "RUNNING"@,
            RunnerStatus::ERROR => "ERROR"@,
            RunnerStatus::OFFLINE => "OFFLINE"@,
        }
    }

    /// The text under which this status is persisted.
    pub fn as_ref(&self) -> (r: &'static str)
        ensures
            r@ == self.name(),
    {
        match self {
            RunnerStatus::RESETTING => "RESETTING",
            RunnerStatus::IDLE => "IDLE",
            RunnerStatus::RUNNING => "RUNNING",
            RunnerStatus::ERROR => "ERROR",
            RunnerStatus::OFFLINE => "OFFLINE",
        }
    }

    /// Decodes a persisted status. `None` means that the text is no status at
    /// all: the stored record is corrupt and must not be processed further.
    pub fn from_str(s: &str) -> (r: Option<RunnerStatus>)
        ensures
            match r {
                Some(status) => status.name() == s@,
                None => forall|status: RunnerStatus| status.name() != s@,
            },
    {
        if same_text(s, "RESETTING") {
            Some(RunnerStatus::RESETTING)
        } else if same_text(s, "IDLE") {
            Some(RunnerStatus::IDLE)
        } else if same_text(s, "RUNNING") {
            Some(RunnerStatus::RUNNING)
        } else if same_text(s, "ERROR") {
            Some(RunnerStatus::ERROR)
        } else if same_text(s, "OFFLINE") {
            Some(RunnerStatus::OFFLINE)
        } else {
            None
        }
    }

    /// No two statuses are persisted under the same text, so decoding the text
    /// of a status gives that status back and nothing else.
    pub proof fn lemma_name_injective(a: RunnerStatus, b: RunnerStatus)
        requires
            a.name() == b.name(),
        ensures
            a == b,
    {
        reveal_strlit("RESETTING");
        reveal_strlit("IDLE");
        reveal_strlit("RUNNING");
        reveal_strlit("ERROR");
        reveal_strlit("OFFLINE");
        assert("RESETTING"@.len() == 9 && "IDLE"@.len() == 4 && "RUNNING"@.len() == 7);
        assert("RUNNING"@[0] == 'R' && "OFFLINE"@[0] == 'O');
    }
}

impl HardwareStatus {
    /// The text under which a status is persisted.
    pub open spec fn name(self) -> Seq<char> {
        match self {
            HardwareStatus::FREE => "FREE"@,
            HardwareStatus::CLAIMED => "CLAIMED"@,
            HardwareStatus::UNAVAILABLE => "UNAVAILABLE"@,
            HardwareStatus::ERROR => "ERROR"@,
        }
    }

    /// The text under which this status is persisted.
    pub fn as_ref(&self) -> (r: &'static str)
        ensures
            r@ == self.name(),
    {
        match self {
            HardwareStatus::FREE => "FREE",
            HardwareStatus::CLAIMED => "CLAIMED",
            HardwareStatus::UNAVAILABLE => "UNAVAILABLE",
            HardwareStatus::ERROR => "ERROR",
        }
    }

    /// Decodes a persisted status. `None` means that the text is no status at
    /// all: the stored record is corrupt and must not be processed further.
    pub fn from_str(s: &str) -> (r: Option<HardwareStatus>)
        ensures
            match r {
                Some(status) => status.name() == s@,
                None => forall|status: HardwareStatus| status.name() != s@,
            },
    {
        if same_text(s, "FREE") {
            Some(HardwareStatus::FREE)
        } else if same_text(s, "CLAIMED") {
            Some(HardwareStatus::CLAIMED)
        } else if same_text(s, "UNAVAILABLE") {
            Some(HardwareStatus::UNAVAILABLE)
        } else if same_text(s, "ERROR") {
            Some(HardwareStatus::ERROR)
        } else {
            None
        }
    }

    /// No two statuses are persisted under the same text.
    pub proof fn lemma_name_injective(a: HardwareStatus, b: HardwareStatus)
        requires
            a.name() == b.name(),
        ensures
            a == b,
    {
        reveal_strlit("FREE");
        reveal_strlit("CLAIMED");
        reveal_strlit("UNAVAILABLE");
        reveal_strlit("ERROR");
        assert("FREE"@.len() == 4 && "CLAIMED"@.len() == 7);
        assert("UNAVAILABLE"@.len() == 11 && "ERROR"@.len() == 5);
    }
}

/// What the two tables hold, row by row and in the order of the rows.
pub struct DbView {
    pub runners: Seq<RunnerView>,
    pub hardware: Seq<HardwareView>,
}

impl DbView {
    /// The identifiers of the runners, in the order of the rows.
    pub open spec fn runner_names(self) -> Seq<Seq<char>> {
        self.runners.map_values(|r: RunnerView| r.name)
    }

    /// The identifiers of the boards, in the order of the rows.
    pub open spec fn hardware_names(self) -> Seq<Seq<char>> {
        self.hardware.map_values(|h: HardwareView| h.name)
    }

    /// Whether a runner with this identifier exists.
    pub open spec fn has_runner(self, id: Seq<char>) -> bool {
        self.runner_names().contains(id)
    }

    /// Whether a board with this identifier exists.
    pub open spec fn has_hardware(self, id: Seq<char>) -> bool {
        self.hardware_names().contains(id)
    }

    /// The runner with this identifier, where one exists.
    pub open spec fn runner(self, id: Seq<char>) -> RunnerView {
        self.runners[self.runner_names().index_of(id)]
    }

    /// The board with this identifier, where one exists.
    pub open spec fn board(self, id: Seq<char>) -> HardwareView {
        self.hardware[self.hardware_names().index_of(id)]
    }

    /// Identifiers are keys, and every board names a holder exactly while it
    /// is claimed.
    pub open spec fn wf(self) -> bool {
        &&& self.runner_names().no_duplicates()
        &&& self.hardware_names().no_duplicates()
        &&& forall|i: int| 0 <= i < self.hardware.len() ==> (#[trigger] self.hardware[i]).consistent()
    }

    /// The identifiers of the boards that name `runner` as their holder, in
    /// the order of the rows.
    pub open spec fn claimed_by(self, runner: Seq<char>) -> Seq<Seq<char>> {
        self.hardware.filter(|h: HardwareView| h.claimed_by == Some(runner)).map_values(
            |h: HardwareView| h.name,
        )
    }

    /// The tables after the status of the board `id` was set on behalf of
    /// `runner`: a board that becomes claimed names the runner as its holder,
    /// a board that takes any other status names none.
    pub open spec fn with_hardware_status(
        self,
        id: Seq<char>,
        runner: Seq<char>,
        status: HardwareStatus,
    ) -> DbView {
        DbView {
            runners: self.runners,
            hardware: self.hardware.map_values(
                |h: HardwareView|
                    if h.name == id {
                        HardwareView {
                            name: h.name,
                            status,
                            claimed_by: if status == HardwareStatus::CLAIMED {
                                Some(runner)
                            } else {
                                None
                            },
                        }
                    } else {
                        h
                    },
            ),
        }
    }

    /// The tables after the status of the runner `id` was set.
    pub open spec fn with_runner_status(self, id: Seq<char>, status: RunnerStatus) -> DbView {
        DbView {
            runners: self.runners.map_values(
                |r: RunnerView| if r.name == id { RunnerView { status, ..r } } else { r },
            ),
            hardware: self.hardware,
        }
    }

    /// The tables after the lease expiry of the runner `id` was set.
    pub open spec fn with_runner_lease(self, id: Seq<char>, expiry: Option<i64>) -> DbView {
        DbView {
            runners: self.runners.map_values(
                |r: RunnerView| if r.name == id { RunnerView { time_to_reset: expiry, ..r } } else { r },
            ),
            hardware: self.hardware,
        }
    }

    /// Whether the boards are those of `before`, but for the board `id`.
    pub open spec fn boards_kept_but(self, before: DbView, id: Seq<char>) -> bool {
        &&& self.hardware_names() == before.hardware_names()
        &&& forall|other: Seq<char>|
            other != id && before.has_hardware(other) ==> #[trigger] self.board(other)
                == before.board(other)
    }

    /// Whether the runners are those of `before`, but for the runner `id`.
    pub open spec fn runners_kept_but(self, before: DbView, id: Seq<char>) -> bool {
        &&& self.runner_names() == before.runner_names()
        &&& forall|other: Seq<char>|
            other != id && before.has_runner(other) ==> #[trigger] self.runner(other)
                == before.runner(other)
    }

    /// Whether the board `id` exists and names `runner` as its holder.
    pub open spec fn is_held(self, id: Seq<char>, runner: Seq<char>) -> bool {
        exists|j: int|
            0 <= j < self.hardware.len() && (#[trigger] self.hardware[j]).name == id
                && self.hardware[j].claimed_by == Some(runner)
    }

    /// The boards that `claimed_by` lists are the boards that name the runner
    /// as their holder: each listed identifier belongs to such a board, and
    /// each such board is listed.
    pub proof fn lemma_claimed_by(self, runner: Seq<char>)
        ensures
            forall|k: int|
                0 <= k < self.claimed_by(runner).len() ==> self.is_held(
                    #[trigger] self.claimed_by(runner)[k],
                    runner,
                ),
            forall|j: int|
                0 <= j < self.hardware.len() && (#[trigger] self.hardware[j]).claimed_by == Some(
                    runner,
                ) ==> self.claimed_by(runner).contains(self.hardware[j].name),
    {
        let held = |h: HardwareView| h.claimed_by == Some(runner);
        let name = |h: HardwareView| h.name;
        let boards = self.hardware.filter(held);
        assert forall|k: int| 0 <= k < self.claimed_by(runner).len() implies self.is_held(
            #[trigger] self.claimed_by(runner)[k],
            runner,
        ) by {
            self.hardware.lemma_filter_pred(held, k);
            self.hardware.lemma_filter_contains_rev(held, boards[k]);
            let j = choose|j: int| 0 <= j < self.hardware.len() && self.hardware[j] == boards[k];
        }
        assert forall|j: int|
            0 <= j < self.hardware.len() && (#[trigger] self.hardware[j]).claimed_by == Some(
                runner,
            ) implies self.claimed_by(runner).contains(self.hardware[j].name) by {
            self.hardware.lemma_filter_contains(held, j);
            let k = choose|k: int| 0 <= k < boards.len() && boards[k] == self.hardware[j];
            assert(boards.map_values(name)[k] == self.hardware[j].name);
        }
    }

    /// The board in row `i` is the board with the identifier of that row.
    pub proof fn lemma_board_at(self, i: int)
        requires
            self.wf(),
            0 <= i < self.hardware.len(),
        ensures
            self.has_hardware(self.hardware[i].name),
            self.board(self.hardware[i].name) == self.hardware[i],
            self.hardware_names().index_of(self.hardware[i].name) == i,
    {
        let names = self.hardware_names();
        assert(names[i] == self.hardware[i].name);
        let k = names.index_of(self.hardware[i].name);
    }

    /// The runner in row `i` is the runner with the identifier of that row.
    pub proof fn lemma_runner_at(self, i: int)
        requires
            self.wf(),
            0 <= i < self.runners.len(),
        ensures
            self.has_runner(self.runners[i].name),
            self.runner(self.runners[i].name) == self.runners[i],
            self.runner_names().index_of(self.runners[i].name) == i,
    {
        let names = self.runner_names();
        assert(names[i] == self.runners[i].name);
        let k = names.index_of(self.runners[i].name);
    }

    /// Setting the status of a board keeps the identifiers and the runners,
    /// gives the board the new status and holder, and leaves every other
    /// board as it was.
    pub proof fn lemma_with_hardware_status(
        self,
        id: Seq<char>,
        runner: Seq<char>,
        status: HardwareStatus,
    )
        requires
            self.wf(),
        ensures
            self.with_hardware_status(id, runner, status).wf(),
            self.with_hardware_status(id, runner, status).runners == self.runners,
            self.with_hardware_status(id, runner, status).boards_kept_but(self, id),
            self.has_hardware(id) ==> self.with_hardware_status(id, runner, status).board(id)
                == (HardwareView {
                    name: id,
                    status,
                    claimed_by: if status == HardwareStatus::CLAIMED {
                        Some(runner)
                    } else {
                        None
                    },
                }),
    {
        let after = self.with_hardware_status(id, runner, status);
        assert(after.hardware_names() =~= self.hardware_names());
        assert forall|other: Seq<char>| self.has_hardware(other) implies (if other == id {
            after.board(other) == (HardwareView {
                name: id,
                status,
                claimed_by: if status == HardwareStatus::CLAIMED {
                    Some(runner)
                } else {
                    None
                },
            })
        } else {
            after.board(other) == self.board(other)
        }) by {
            assert(self.hardware_names()[self.hardware_names().index_of(other)] == other);
        }
    }

    /// Setting the status of a runner keeps the identifiers and the boards,
    /// gives the runner the new status, and leaves its lease and every other
    /// runner as they were.
    pub proof fn lemma_with_runner_status(self, id: Seq<char>, status: RunnerStatus)
        requires
            self.wf(),
        ensures
            self.with_runner_status(id, status).wf(),
            self.with_runner_status(id, status).hardware == self.hardware,
            self.with_runner_status(id, status).runners_kept_but(self, id),
            self.has_runner(id) ==> self.with_runner_status(id, status).runner(id) == (RunnerView {
                name: id,
                status,
                time_to_reset: self.runner(id).time_to_reset,
            }),
    {
        let after = self.with_runner_status(id, status);
        assert(after.runner_names() =~= self.runner_names());
        assert forall|other: Seq<char>| self.has_runner(other) implies (if other == id {
            after.runner(other) == (RunnerView {
                name: id,
                status,
                time_to_reset: self.runner(id).time_to_reset,
            })
        } else {
            after.runner(other) == self.runner(other)
        }) by {
            assert(self.runner_names()[self.runner_names().index_of(other)] == other);
        }
    }

    /// Setting the lease of a runner keeps the identifiers and the boards,
    /// gives the runner the new lease, and leaves its status and every other
    /// runner as they were.
    pub proof fn lemma_with_runner_lease(self, id: Seq<char>, expiry: Option<i64>)
        requires
            self.wf(),
        ensures
            self.with_runner_lease(id, expiry).wf(),
            self.with_runner_lease(id, expiry).hardware == self.hardware,
            self.with_runner_lease(id, expiry).runners_kept_but(self, id),
            self.has_runner(id) ==> self.with_runner_lease(id, expiry).runner(id) == (RunnerView {
                name: id,
                status: self.runner(id).status,
                time_to_reset: expiry,
            }),
    {
        let after = self.with_runner_lease(id, expiry);
        assert(after.runner_names() =~= self.runner_names());
        assert forall|other: Seq<char>| self.has_runner(other) implies (if other == id {
            after.runner(other) == (RunnerView {
                name: id,
                status: self.runner(id).status,
                time_to_reset: expiry,
            })
        } else {
            after.runner(other) == self.runner(other)
        }) by {
            assert(self.runner_names()[self.runner_names().index_of(other)] == other);
        }
    }

    /// A runner that is added under a new identifier is found under it, and
    /// every other runner is found as before.
    pub proof fn lemma_runner_added(self, runner: RunnerView)
        requires
            self.wf(),
            !self.has_runner(runner.name),
        ensures
            (DbView { runners: self.runners.push(runner), hardware: self.hardware }).wf(),
            (DbView { runners: self.runners.push(runner), hardware: self.hardware }).has_runner(
                runner.name,
            ),
            (DbView { runners: self.runners.push(runner), hardware: self.hardware }).runner(
                runner.name,
            ) == runner,
            forall|other: Seq<char>|
                self.has_runner(other) ==> (DbView {
                    runners: self.runners.push(runner),
                    hardware: self.hardware,
                }).has_runner(other) && #[trigger] (DbView {
                    runners: self.runners.push(runner),
                    hardware: self.hardware,
                }).runner(other) == self.runner(other),
    {
        let after = DbView { runners: self.runners.push(runner), hardware: self.hardware };
        let last = self.runners.len() as int;
        assert(after.runner_names() =~= self.runner_names().push(runner.name));
        assert(after.runner_names()[last] == runner.name);
        after.lemma_runner_at(last);
        assert forall|other: Seq<char>| self.has_runner(other) implies after.has_runner(other)
            && #[trigger] after.runner(other) == self.runner(other) by {
            let at = self.runner_names().index_of(other);
            assert(self.runner_names()[at] == other);
            assert(after.runner_names()[at] == other);
            after.lemma_runner_at(at);
        }
    }

    /// A board that is added under a new identifier is found under it, and
    /// every other board is found as before.
    pub proof fn lemma_board_added(self, board: HardwareView)
        requires
            self.wf(),
            !self.has_hardware(board.name),
            board.consistent(),
        ensures
            (DbView { runners: self.runners, hardware: self.hardware.push(board) }).wf(),
            (DbView { runners: self.runners, hardware: self.hardware.push(board) }).has_hardware(
                board.name,
            ),
            (DbView { runners: self.runners, hardware: self.hardware.push(board) }).board(
                board.name,
            ) == board,
            forall|other: Seq<char>|
                self.has_hardware(other) ==> (DbView {
                    runners: self.runners,
                    hardware: self.hardware.push(board),
                }).has_hardware(other) && #[trigger] (DbView {
                    runners: self.runners,
                    hardware: self.hardware.push(board),
                }).board(other) == self.board(other),
    {
        let after = DbView { runners: self.runners, hardware: self.hardware.push(board) };
        let last = self.hardware.len() as int;
        assert(after.hardware_names() =~= self.hardware_names().push(board.name));
        assert(after.hardware_names()[last] == board.name);
        after.lemma_board_at(last);
        assert forall|other: Seq<char>| self.has_hardware(other) implies after.has_hardware(other)
            && #[trigger] after.board(other) == self.board(other) by {
            let at = self.hardware_names().index_of(other);
            assert(self.hardware_names()[at] == other);
            assert(after.hardware_names()[at] == other);
            after.lemma_board_at(at);
        }
    }
}

/// The image of the two tables: the runners and the hardware boards.
#[derive(Debug)]
pub struct RunnerDb {
    runners: Vec<RunnerInfo>,
    hardware: Vec<HardwareInfo>,
}

impl View for RunnerDb {
    type V = DbView;

    closed spec fn view(&self) -> DbView {
        DbView {
            runners: self.runners@.map_values(|r: RunnerInfo| r@),
            hardware: self.hardware@.map_values(|h: HardwareInfo| h@),
        }
    }
}

impl RunnerDb {
    /// Two empty tables.
    pub fn new() -> (db: RunnerDb)
        ensures
            db@.runners.len() == 0,
            db@.hardware.len() == 0,
            db@.wf(),
    {
        RunnerDb { runners: Vec::new(), hardware: Vec::new() }
    }

    /// Adds a runner. A runner whose identifier is taken is not added, and the
    /// answer is `false`.
    pub fn insert_runner(&mut self, info: RunnerInfo) -> (added: bool)
        requires
            old(self)@.wf(),
        ensures
            added == !old(self)@.has_runner(info@.name),
            added ==> final(self)@.runners == old(self)@.runners.push(info@),
            !added ==> final(self)@.runners == old(self)@.runners,
            final(self)@.hardware == old(self)@.hardware,
            final(self)@.wf(),
            added ==> final(self)@.has_runner(info@.name) && final(self)@.runner(info@.name)
                == info@,
            forall|other: Seq<char>|
                old(self)@.has_runner(other) ==> final(self)@.has_runner(other)
                    && #[trigger] final(self)@.runner(other) == old(self)@.runner(other),
    {
        if runner_exists(self, info.name.as_str()) {
            return false;
        }
        proof {
            self@.lemma_runner_added(info@);
            assert(self.runners@.push(info).map_values(|r: RunnerInfo| r@)
                =~= self@.runners.push(info@));
        }
        self.runners.push(info);
        true
    }

    /// Adds a board. A board whose identifier is taken, or that names a holder
    /// without being claimed, or is claimed without naming one, is not added,
    /// and the answer is `false`.
    pub fn insert_hardware(&mut self, info: HardwareInfo) -> (added: bool)
        requires
            old(self)@.wf(),
        ensures
            added == (!old(self)@.has_hardware(info@.name) && info@.consistent()),
            added ==> final(self)@.hardware == old(self)@.hardware.push(info@),
            !added ==> final(self)@.hardware == old(self)@.hardware,
            final(self)@.runners == old(self)@.runners,
            final(self)@.wf(),
            added ==> final(self)@.has_hardware(info@.name) && final(self)@.board(info@.name)
                == info@,
            forall|other: Seq<char>|
                old(self)@.has_hardware(other) ==> final(self)@.has_hardware(other)
                    && #[trigger] final(self)@.board(other) == old(self)@.board(other),
    {
        let claimed = info.status == HardwareStatus::CLAIMED;
        if claimed != info.claimed_by.is_some() {
            return false;
        }
        if hardware_exists(self, info.name.as_str()) {
            return false;
        }
        proof {
            self@.lemma_board_added(info@);
            assert(self.hardware@.push(info).map_values(|h: HardwareInfo| h@)
                =~= self@.hardware.push(info@));
        }
        self.hardware.push(info);
        true
    }
}

/// Whether a runner with this identifier exists.
pub fn runner_exists(db: &RunnerDb, runner: &str) -> (found: bool)
    ensures
        found == db@.has_runner(runner@),
{
    let mut i: usize = 0;
    while i < db.runners.len()
        invariant
            i <= db.runners.len(),
            forall|j: int| 0 <= j < i ==> db@.runner_names()[j] != runner@,
        decreases db.runners.len() - i,
    {
        if same_text(db.runners[i].name.as_str(), runner) {
            assert(db@.runner_names()[i as int] == runner@);
            return true;
        }
        i += 1;
    }
    false
}

/// Sets the status of the runner with this identifier, where one exists.
pub fn update_runner_status(db: &mut RunnerDb, runner: &str, status: RunnerStatus)
    requires
        old(db)@.wf(),
    ensures
        final(db)@ == old(db)@.with_runner_status(runner@, status),
        final(db)@.wf(),
        final(db)@.runners_kept_but(old(db)@, runner@),
        old(db)@.has_runner(runner@) ==> final(db)@.runner(runner@) == (RunnerView {
            name: runner@,
            status,
            time_to_reset: old(db)@.runner(runner@).time_to_reset,
        }),
{
    let ghost before = *db;
    proof {
        before@.lemma_with_runner_status(runner@, status);
    }
    let mut i: usize = 0;
    while i < db.runners.len()
        invariant
            i <= db.runners.len(),
            db.runners.len() == before.runners.len(),
            db.hardware == before.hardware,
            forall|j: int| 0 <= j < i ==> (#[trigger] db.runners[j])@
                == before@.with_runner_status(runner@, status).runners[j],
            forall|j: int| i <= j < db.runners.len() ==> db.runners[j] == before.runners[j],
        decreases db.runners.len() - i,
    {
        if same_text(db.runners[i].name.as_str(), runner) {
            let row = RunnerInfo {
                name: db.runners[i].name.clone(),
                status,
                time_to_reset: clone_lease(&db.runners[i].time_to_reset),
            };
            db.runners.set(i, row);
        }
        i += 1;
    }
    proof {
        assert(db@.runners =~= before@.with_runner_status(runner@, status).runners);
        assert(db@.runner_names() =~= before@.runner_names());
    }
}

/// A copy of a lease expiry.
fn clone_lease(lease: &Option<Timestamp>) -> (r: Option<Timestamp>)
    ensures
        r == *lease,
{
    match lease {
        Some(expiry) => Some(expiry.clone()),
        None => None,
    }
}

/// Sets the lease expiry of the runner with this identifier, where one exists.
pub fn update_runner_time_to_reset(
    db: &mut RunnerDb,
    runner: &str,
    time_to_reset: Option<Timestamp>,
)
    requires
        old(db)@.wf(),
    ensures
        final(db)@ == old(db)@.with_runner_lease(runner@, lease_seconds(time_to_reset)),
        final(db)@.wf(),
        final(db)@.runners_kept_but(old(db)@, runner@),
        old(db)@.has_runner(runner@) ==> final(db)@.runner(runner@) == (RunnerView {
            name: runner@,
            status: old(db)@.runner(runner@).status,
            time_to_reset: lease_seconds(time_to_reset),
        }),
{
    let ghost before = *db;
    proof {
        before@.lemma_with_runner_lease(runner@, lease_seconds(time_to_reset));
    }
    let ghost expiry = lease_seconds(time_to_reset);
    let mut i: usize = 0;
    while i < db.runners.len()
        invariant
            i <= db.runners.len(),
            db.runners.len() == before.runners.len(),
            db.hardware == before.hardware,
            expiry == lease_seconds(time_to_reset),
            forall|j: int| 0 <= j < i ==> (#[trigger] db.runners[j])@
                == before@.with_runner_lease(runner@, expiry).runners[j],
            forall|j: int| i <= j < db.runners.len() ==> db.runners[j] == before.runners[j],
        decreases db.runners.len() - i,
    {
        if same_text(db.runners[i].name.as_str(), runner) {
            let row = RunnerInfo {
                name: db.runners[i].name.clone(),
                status: db.runners[i].status,
                time_to_reset: clone_lease(&time_to_reset),
            };
            db.runners.set(i, row);
        }
        i += 1;
    }
    proof {
        assert(db@.runners =~= before@.with_runner_lease(runner@, expiry).runners);
        assert(db@.runner_names() =~= before@.runner_names());
    }
}

/// The identifiers of all runners, in the order of the rows.
pub fn runner_id_list(db: &RunnerDb) -> (ids: Vec<String>)
    ensures
        texts(ids@) == db@.runner_names(),
{
    let mut ids: Vec<String> = Vec::new();
    let mut i: usize = 0;
    while i < db.runners.len()
        invariant
            i <= db.runners.len(),
            ids.len() == i,
            forall|j: int| 0 <= j < i ==> (#[trigger] ids[j])@ == db.runners[j].name@,
        decreases db.runners.len() - i,
    {
        ids.push(db.runners[i].name.clone());
        i += 1;
    }
    ids
}

/// The runner with this identifier.
pub fn get_runner_info(db: &RunnerDb, runner: &str) -> (info: RunnerInfo)
    requires
        db@.wf(),
        db@.has_runner(runner@),
    ensures
        info@ == db@.runner(runner@),
{
    let mut i: usize = 0;
    while i < db.runners.len()
        invariant
            i <= db.runners.len(),
            db@.wf(),
            db@.has_runner(runner@),
            forall|j: int| 0 <= j < i ==> db@.runner_names()[j] != runner@,
        decreases db.runners.len() - i,
    {
        if same_text(db.runners[i].name.as_str(), runner) {
            assert(db@.runner_names()[i as int] == runner@);
            return db.runners[i].clone();
        }
        i += 1;
    }
    db.runners[0].clone()
}

/// Whether a board with this identifier exists.
pub fn hardware_exists(db: &RunnerDb, hardware: &str) -> (found: bool)
    ensures
        found == db@.has_hardware(hardware@),
{
    let mut i: usize = 0;
    while i < db.hardware.len()
        invariant
            i <= db.hardware.len(),
            forall|j: int| 0 <= j < i ==> db@.hardware_names()[j] != hardware@,
        decreases db.hardware.len() - i,
    {
        if same_text(db.hardware[i].name.as_str(), hardware) {
            assert(db@.hardware_names()[i as int] == hardware@);
            return true;
        }
        i += 1;
    }
    false
}

/// The board with this identifier.
pub fn get_hardware_info(db: &RunnerDb, hardware: &str) -> (info: HardwareInfo)
    requires
        db@.wf(),
        db@.has_hardware(hardware@),
    ensures
        info@ == db@.board(hardware@),
{
    let mut i: usize = 0;
    while i < db.hardware.len()
        invariant
            i <= db.hardware.len(),
            db@.wf(),
            db@.has_hardware(hardware@),
            forall|j: int| 0 <= j < i ==> db@.hardware_names()[j] != hardware@,
        decreases db.hardware.len() - i,
    {
        if same_text(db.hardware[i].name.as_str(), hardware) {
            assert(db@.hardware_names()[i as int] == hardware@);
            return db.hardware[i].clone();
        }
        i += 1;
    }
    db.hardware[0].clone()
}

/// The status of the board with this identifier.
pub fn get_hardware_status(db: &RunnerDb, hardware: &str) -> (status: HardwareStatus)
    requires
        db@.wf(),
        db@.has_hardware(hardware@),
    ensures
        status == db@.board(hardware@).status,
{
    get_hardware_info(db, hardware).status
}

/// The identifiers of the boards that name `runner` as their holder, in the
/// order of the rows.
pub fn get_hardware_claimed_by_runner(db: &RunnerDb, runner: &str) -> (ids: Vec<String>)
    ensures
        texts(ids@) == db@.claimed_by(runner@),
{
    let ghost held = |h: HardwareView| h.claimed_by == Some(runner@);
    let ghost name = |h: HardwareView| h.name;
    let mut ids: Vec<String> = Vec::new();
    let mut i: usize = 0;
    proof {
        db@.hardware.take(0).lemma_filter_len(held);
    }
    while i < db.hardware.len()
        invariant
            i <= db.hardware.len(),
            held == |h: HardwareView| h.claimed_by == Some(runner@),
            name == |h: HardwareView| h.name,
            texts(ids@) == db@.hardware.take(i as int).filter(held).map_values(name),
        decreases db.hardware.len() - i,
    {
        let ghost so_far = db@.hardware.take(i as int);
        let ghost row = db@.hardware[i as int];
        proof {
            assert(db@.hardware.take(i + 1) =~= so_far.push(row));
            so_far.lemma_filter_push(row, held);
        }
        let is_held = match &db.hardware[i].claimed_by {
            Some(holder) => same_text(holder.as_str(), runner),
            None => false,
        };
        if is_held {
            ids.push(db.hardware[i].name.clone());
            proof {
                assert(so_far.filter(held).push(row).map_values(name)
                    =~= so_far.filter(held).map_values(name).push(row.name));
            }
        }
        i += 1;
    }
    proof {
        assert(db@.hardware.take(i as int) =~= db@.hardware);
    }
    ids
}

/// Sets the status of the board with this identifier, where one exists, on
/// behalf of `runner`: a board that becomes claimed names the runner as its
/// holder, a board that takes any other status names none.
pub fn update_hardware_status(
    db: &mut RunnerDb,
    hardware: &str,
    runner: &str,
    status: HardwareStatus,
)
    requires
        old(db)@.wf(),
    ensures
        final(db)@ == old(db)@.with_hardware_status(hardware@, runner@, status),
        final(db)@.wf(),
        final(db)@.boards_kept_but(old(db)@, hardware@),
        old(db)@.has_hardware(hardware@) ==> final(db)@.board(hardware@) == (HardwareView {
            name: hardware@,
            status,
            claimed_by: if status == HardwareStatus::CLAIMED {
                Some(runner@)
            } else {
                None
            },
        }),
{
    let ghost before = *db;
    proof {
        before@.lemma_with_hardware_status(hardware@, runner@, status);
    }
    let ghost after = before@.with_hardware_status(hardware@, runner@, status);
    let mut i: usize = 0;
    while i < db.hardware.len()
        invariant
            i <= db.hardware.len(),
            db.hardware.len() == before.hardware.len(),
            db.runners == before.runners,
            after == before@.with_hardware_status(hardware@, runner@, status),
            forall|j: int| 0 <= j < i ==> (#[trigger] db.hardware[j])@ == after.hardware[j],
            forall|j: int| i <= j < db.hardware.len() ==> db.hardware[j] == before.hardware[j],
        decreases db.hardware.len() - i,
    {
        if same_text(db.hardware[i].name.as_str(), hardware) {
            let claimed_by = if status == HardwareStatus::CLAIMED {
                Some(runner.to_owned())
            } else {
                None
            };
            let row = HardwareInfo { name: db.hardware[i].name.clone(), status, claimed_by };
            db.hardware.set(i, row);
        }
        i += 1;
    }
    proof {
        assert(db@.hardware =~= after.hardware);
        assert(db@.hardware_names() =~= before@.hardware_names());
    }
}

/// The identifiers of all boards, in the order of the rows.
pub fn hardware_board_list(db: &RunnerDb) -> (ids: Vec<String>)
    ensures
        texts(ids@) == db@.hardware_names(),
{
    let mut ids: Vec<String> = Vec::new();
    let mut i: usize = 0;
    while i < db.hardware.len()
        invariant
            i <= db.hardware.len(),
            ids.len() == i,
            forall|j: int| 0 <= j < i ==> (#[trigger] ids[j])@ == db.hardware[j].name@,
        decreases db.hardware.len() - i,
    {
        ids.push(db.hardware[i].name.clone());
        i += 1;
    }
    ids
}

} // verus!
