//! The watchdog: the periodic pass that resets the runners whose lease has
//! run out.

use vstd::prelude::*;
use crate::db::{DbView, RunnerDb};
use crate::hardware::HardwareView;
use crate::runners::{
    freed, reset_runner, runner_reset, runners_info, RunnerInfo, RunnerView,
};
use crate::text::texts;
use crate::vm::{Command, CommandQueue, VmCommandView};

verus! {

/// The time between two passes of the watchdog, in seconds, where none is
/// configured.
pub const DEFAULT_INTERVAL_SECS: u64 = 30;

/// Whether the lease of a runner has run out at the time `now`. A runner
/// without a lease has none that could.
pub open spec fn expired(runner: RunnerView, now: i64) -> bool {
    runner.time_to_reset matches Some(expiry) && expiry <= now
}

/// Whether a board is held by a runner whose lease has run out at the time
/// `now`.
pub open spec fn holder_expired(db: DbView, board: HardwareView, now: i64) -> bool {
    &&& board.claimed_by.is_some()
    &&& db.has_runner(board.claimed_by->0)
    &&& expired(db.runner(board.claimed_by->0), now)
}

/// Whether one of the first `limit` runners is called `name` and its lease
/// has run out at the time `now`.
spec fn expired_among(db: DbView, name: Seq<char>, now: i64, limit: int) -> bool {
    exists|i: int|
        0 <= i < limit && i < db.runners.len() && (#[trigger] db.runners[i]).name == name
            && expired(db.runners[i], now)
}

/// The identifiers of the runners whose lease has run out at the time `now`,
/// in the order of the rows.
pub open spec fn expired_names(runners: Seq<RunnerView>, now: i64) -> Seq<Seq<char>> {
    runners.filter(|r: RunnerView| expired(r, now)).map_values(|r: RunnerView| r.name)
}

/// The signals that tell the machines of the given runners to revert.
pub open spec fn revert_commands(names: Seq<Seq<char>>) -> Seq<VmCommandView> {
    names.map_values(|name: Seq<char>| VmCommandView { vm: name, command: Command::revert })
}

/// The tables after a pass of the watchdog at the time `now`: every runner
/// whose lease has run out is reset, and every board that such a runner held
/// is free. All other runners and boards are as they were.
pub open spec fn sweep_effect(db: DbView, now: i64) -> DbView {
    DbView {
        runners: db.runners.map_values(
            |r: RunnerView| if expired(r, now) { reset_runner(r) } else { r },
        ),
        hardware: db.hardware.map_values(
            |h: HardwareView| if holder_expired(db, h, now) { freed(h) } else { h },
        ),
    }
}

/// What a pass does, runner by runner and board by board: a runner is reset
/// where its lease has run out, a board is free where its holder is such a
/// runner, and everything else is as it was.
pub proof fn lemma_sweep(db: DbView, now: i64)
    requires
        db.wf(),
    ensures
        sweep_effect(db, now).wf(),
        sweep_effect(db, now).runner_names() == db.runner_names(),
        sweep_effect(db, now).hardware_names() == db.hardware_names(),
        forall|id: Seq<char>|
            db.has_runner(id) ==> #[trigger] sweep_effect(db, now).runner(id) == (if expired(
                db.runner(id),
                now,
            ) {
                reset_runner(db.runner(id))
            } else {
                db.runner(id)
            }),
        forall|id: Seq<char>|
            db.has_hardware(id) ==> #[trigger] sweep_effect(db, now).board(id) == (if holder_expired(
                db,
                db.board(id),
                now,
            ) {
                freed(db.board(id))
            } else {
                db.board(id)
            }),
{
    let after = sweep_effect(db, now);
    assert(after.runner_names() =~= db.runner_names());
    assert(after.hardware_names() =~= db.hardware_names());
    assert forall|id: Seq<char>| db.has_runner(id) implies #[trigger] after.runner(id)
        == (if expired(db.runner(id), now) {
        reset_runner(db.runner(id))
    } else {
        db.runner(id)
    }) by {
        assert(db.runner_names()[db.runner_names().index_of(id)] == id);
    }
    assert forall|id: Seq<char>| db.has_hardware(id) implies #[trigger] after.board(id)
        == (if holder_expired(db, db.board(id), now) {
        freed(db.board(id))
    } else {
        db.board(id)
    }) by {
        assert(db.hardware_names()[db.hardware_names().index_of(id)] == id);
    }
}

/// With identifiers that are keys, a runner called `name` whose lease has
/// run out is among all runners exactly where the runner of that name is one.
proof fn lemma_expired_among_all(db: DbView, name: Seq<char>, now: i64)
    requires
        db.wf(),
    ensures
        expired_among(db, name, now, db.runners.len() as int) == (db.has_runner(name) && expired(
            db.runner(name),
            now,
        )),
{
    if expired_among(db, name, now, db.runners.len() as int) {
        let i = choose|i: int|
            0 <= i < db.runners.len() && i < db.runners.len() && (#[trigger] db.runners[i]).name
                == name && expired(db.runners[i], now);
        db.lemma_runner_at(i);
    }
    if db.has_runner(name) && expired(db.runner(name), now) {
        let at = db.runner_names().index_of(name);
        assert(db.runner_names()[at] == name);
        assert(db.runners[at].name == name);
    }
}

/// One pass of the watchdog at the time `now`, which the caller reads from
/// the clock: resets every runner whose lease is present and has run out, and
/// returns the identifiers of those runners in the order of the rows. A
/// runner without a lease is never reset.
pub fn reset_task(db: &mut RunnerDb, queue: &mut CommandQueue, now: i64) -> (reset: Vec<String>)
    requires
        old(db)@.wf(),
    ensures
        final(db)@ == sweep_effect(old(db)@, now),
        final(db)@.wf(),
        texts(reset@) == expired_names(old(db)@.runners, now),
        final(queue)@ == old(queue)@ + revert_commands(expired_names(old(db)@.runners, now)),
        final(db)@.runner_names() == old(db)@.runner_names(),
        final(db)@.hardware_names() == old(db)@.hardware_names(),
        forall|id: Seq<char>|
            old(db)@.has_runner(id) ==> #[trigger] final(db)@.runner(id) == (if expired(
                old(db)@.runner(id),
                now,
            ) {
                reset_runner(old(db)@.runner(id))
            } else {
                old(db)@.runner(id)
            }),
        forall|id: Seq<char>|
            old(db)@.has_hardware(id) ==> #[trigger] final(db)@.board(id) == (if holder_expired(
                old(db)@,
                old(db)@.board(id),
                now,
            ) {
                freed(old(db)@.board(id))
            } else {
                old(db)@.board(id)
            }),
{
    let ghost before = db@;
    proof {
        lemma_sweep(before, now);
    }
    let ghost waiting = queue@;
    let ghost due = |r: RunnerView| expired(r, now);
    let ghost name = |r: RunnerView| r.name;
    let runners = runners_info(db);
    let ghost rows = runners@.map_values(|r: RunnerInfo| r@);
    let mut reset: Vec<String> = Vec::new();
    let mut i: usize = 0;
    proof {
        before.runners.take(0).lemma_filter_len(due);
    }
    while i < runners.len()
        invariant
            i <= runners.len(),
            before.wf(),
            db@.wf(),
            due == |r: RunnerView| expired(r, now),
            name == |r: RunnerView| r.name,
            rows == runners@.map_values(|r: RunnerInfo| r@),
            rows == before.runners,
            runners.len() == before.runners.len(),
            db@.runners.len() == before.runners.len(),
            db@.hardware.len() == before.hardware.len(),
            forall|j: int|
                0 <= j < before.runners.len() ==> #[trigger] db@.runners[j] == (if j < i && expired(
                    before.runners[j],
                    now,
                ) {
                    reset_runner(before.runners[j])
                } else {
                    before.runners[j]
                }),
            forall|j: int|
                0 <= j < before.hardware.len() ==> #[trigger] db@.hardware[j] == (if before.hardware[j].claimed_by.is_some()
                    && expired_among(before, before.hardware[j].claimed_by->0, now, i as int) {
                    freed(before.hardware[j])
                } else {
                    before.hardware[j]
                }),
            texts(reset@) == before.runners.take(i as int).filter(due).map_values(name),
            queue@ == waiting + revert_commands(texts(reset@)),
        decreases runners.len() - i,
    {
        let ghost current = db@;
        let ghost row = before.runners[i as int];
        let ghost so_far = before.runners.take(i as int);
        proof {
            assert(before.runners.take(i + 1) =~= so_far.push(row));
            so_far.lemma_filter_push(row, due);
        }
        let is_due = match &runners[i].time_to_reset {
            Some(time_to_reset) => time_to_reset.unix() <= now,
            None => false,
        };
        if is_due {
            proof {
                assert(current.runner_names() =~= before.runner_names());
                before.lemma_runner_at(i as int);
            }
            let _ = runner_reset(db, queue, runners[i].name.as_str());
            reset.push(runners[i].name.clone());
            proof {
                assert(so_far.filter(due).push(row).map_values(name) =~= so_far.filter(
                    due,
                ).map_values(name).push(row.name));
                assert forall|j: int| 0 <= j < before.runners.len() implies #[trigger] db@.runners[j]
                    == (if j < i + 1 && expired(before.runners[j], now) {
                    reset_runner(before.runners[j])
                } else {
                    before.runners[j]
                }) by {
                    before.lemma_runner_at(j);
                }
            }
        }
        proof {
            assert forall|j: int| 0 <= j < before.hardware.len() implies #[trigger] db@.hardware[j]
                == (if before.hardware[j].claimed_by.is_some() && expired_among(
                before,
                before.hardware[j].claimed_by->0,
                now,
                i + 1,
            ) {
                freed(before.hardware[j])
            } else {
                before.hardware[j]
            }) by {
                if before.hardware[j].claimed_by.is_some() {
                    lemma_expired_among_step(before, before.hardware[j].claimed_by->0, now, i as int);
                }
            }
        }
        i += 1;
    }
    proof {
        assert(before.runners.take(i as int) =~= before.runners);
        assert(db@.runners =~= sweep_effect(before, now).runners);
        assert forall|j: int| 0 <= j < before.hardware.len() implies #[trigger] db@.hardware[j]
            == sweep_effect(before, now).hardware[j] by {
            if before.hardware[j].claimed_by.is_some() {
                lemma_expired_among_all(before, before.hardware[j].claimed_by->0, now);
            }
        }
        assert(db@.hardware =~= sweep_effect(before, now).hardware);
    }
    reset
}

/// Whether a runner called `name` with a lease that has run out is among the
/// first `limit + 1` runners comes down to the first `limit` and the one
/// after them.
proof fn lemma_expired_among_step(db: DbView, name: Seq<char>, now: i64, limit: int)
    requires
        0 <= limit < db.runners.len(),
    ensures
        expired_among(db, name, now, limit + 1) == (expired_among(db, name, now, limit) || (
        db.runners[limit].name == name && expired(db.runners[limit], now))),
{
}

/// A pass of the watchdog leaves every runner without a lease, and every
/// runner whose lease has not run out, as it was; every runner whose lease has
/// run out is `RESETTING` afterwards and holds no lease.
pub proof fn lemma_sweep_resets_the_expired_only(db: DbView, now: i64)
    ensures
        sweep_effect(db, now).runners.len() == db.runners.len(),
        forall|i: int|
            0 <= i < db.runners.len() && !expired(#[trigger] db.runners[i], now) ==> sweep_effect(
                db,
                now,
            ).runners[i] == db.runners[i],
        forall|i: int|
            0 <= i < db.runners.len() && (#[trigger] db.runners[i]).time_to_reset.is_none()
                ==> sweep_effect(db, now).runners[i] == db.runners[i],
        forall|i: int|
            0 <= i < db.runners.len() && expired(#[trigger] db.runners[i], now) ==> sweep_effect(
                db,
                now,
            ).runners[i] == reset_runner(db.runners[i]),
{
}

/// A pass of the watchdog over tables that hold one runner with a lease
/// that has run out does to them what a reset of that runner does.
pub proof fn lemma_sweep_of_one_is_a_reset(db: DbView, runner: Seq<char>, now: i64)
    requires
        db.wf(),
        db.has_runner(runner),
        expired(db.runner(runner), now),
        forall|i: int|
            0 <= i < db.runners.len() && (#[trigger] db.runners[i]).name != runner ==> !expired(
                db.runners[i],
                now,
            ),
    ensures
        sweep_effect(db, now) == crate::runners::reset_effect(db, runner),
        expired_names(db.runners, now) == seq![runner],
{
    let at = db.runner_names().index_of(runner);
    let swept = sweep_effect(db, now);
    let reset = crate::runners::reset_effect(db, runner);
    assert forall|i: int| 0 <= i < db.runners.len() implies ((#[trigger] db.runners[i]).name
        == runner <==> i == at) by {
        db.lemma_runner_at(i);
    }
    assert(swept.runners =~= reset.runners);
    assert forall|j: int| 0 <= j < db.hardware.len() implies swept.hardware[j]
        == reset.hardware[j] by {
        let board = db.hardware[j];
        if board.claimed_by.is_some() && db.has_runner(board.claimed_by->0) {
            let holder = board.claimed_by->0;
            assert(db.runner_names()[db.runner_names().index_of(holder)] == holder);
        }
    }
    assert(swept.hardware =~= reset.hardware);
    lemma_expired_names_of_one(db.runners, at, now);
}

/// Where the runner in row `at` is the only one whose lease has run out,
/// the runners whose lease has run out are that one.
proof fn lemma_expired_names_of_one(runners: Seq<RunnerView>, at: int, now: i64)
    requires
        0 <= at < runners.len(),
        expired(runners[at], now),
        forall|i: int| 0 <= i < runners.len() && i != at ==> !expired(#[trigger] runners[i], now),
    ensures
        expired_names(runners, now) == seq![runners[at].name],
    decreases runners.len(),
{
    let due = |r: RunnerView| expired(r, now);
    let front = runners.drop_last();
    assert(runners =~= front.push(runners.last()));
    front.lemma_filter_push(runners.last(), due);
    if at == runners.len() - 1 {
        lemma_no_expired_names(front, now);
    } else {
        lemma_expired_names_of_one(front, at, now);
    }
}

/// Where no lease has run out, the runners whose lease has run out are none.
proof fn lemma_no_expired_names(runners: Seq<RunnerView>, now: i64)
    requires
        forall|i: int| 0 <= i < runners.len() ==> !expired(#[trigger] runners[i], now),
    ensures
        runners.filter(|r: RunnerView| expired(r, now)).len() == 0,
    decreases runners.len(),
{
    let due = |r: RunnerView| expired(r, now);
    if runners.len() == 0 {
        runners.lemma_filter_len(due);
    } else {
        let front = runners.drop_last();
        assert(runners =~= front.push(runners.last()));
        front.lemma_filter_push(runners.last(), due);
        lemma_no_expired_names(front, now);
    }
}

/// The watchdog: how often it passes over the runners.
#[derive(Clone, Copy, Debug, PartialEq, Eq, Structural)]
pub struct RunnerResetTask {
    interval_secs: u64,
}

impl RunnerResetTask {
    /// The seconds between two passes.
    pub closed spec fn spec_interval_secs(&self) -> u64 {
        self.interval_secs
    }

    /// The watchdog that passes every `DEFAULT_INTERVAL_SECS` seconds.
    pub fn new() -> (task: Self)
        ensures
            task.spec_interval_secs() == DEFAULT_INTERVAL_SECS,
    {
        RunnerResetTask { interval_secs: DEFAULT_INTERVAL_SECS }
    }

    /// The watchdog that passes every `interval_secs` seconds.
    pub fn every(interval_secs: u64) -> (task: Self)
        ensures
            task.spec_interval_secs() == interval_secs,
    {
        RunnerResetTask { interval_secs }
    }

    /// The seconds between two passes.
    #[verifier::when_used_as_spec(spec_interval_secs)]
    pub fn interval_secs(&self) -> (secs: u64)
        ensures
            secs == self.spec_interval_secs(),
    {
        self.interval_secs
    }

    /// One pass at the time `now`, which the caller reads from the clock.
    pub fn tick(&self, db: &mut RunnerDb, queue: &mut CommandQueue, now: i64) -> (reset: Vec<
        String,
    >)
        requires
            old(db)@.wf(),
        ensures
            final(db)@ == sweep_effect(old(db)@, now),
            final(db)@.wf(),
            texts(reset@) == expired_names(old(db)@.runners, now),
            final(queue)@ == old(queue)@ + revert_commands(expired_names(old(db)@.runners, now)),
    {
        reset_task(db, queue, now)
    }
}

} // verus!
