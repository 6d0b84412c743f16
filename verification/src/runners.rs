//! Runners and their lifecycle.

use vstd::prelude::*;
use vstd::string::*;
use crate::db::{
    get_hardware_claimed_by_runner, get_runner_info, runner_exists, runner_id_list,
    update_runner_status, update_runner_time_to_reset, DbView, HardwareStatus, RunnerDb,
    RunnerStatus,
};
use crate::hardware::HardwareView;
use crate::http::Status;
use crate::text::{same_text, texts};
use crate::timestamp::{representable, Timestamp};
use crate::vm::{Command, CommandQueue, VmCommandView};

verus! {

/// What a runner is, to the contracts of this crate. The lease is the expiry
/// in seconds since the epoch.
pub struct RunnerView {
    pub name: Seq<char>,
    pub status: RunnerStatus,
    pub time_to_reset: Option<i64>,
}

impl RunnerView {
    /// A runner that is being reset holds no lease.
    pub open spec fn consistent(self) -> bool {
        self.time_to_reset.is_some() ==> self.status != RunnerStatus::RESETTING
    }
}

/// The expiry of a lease in seconds since the epoch.
pub open spec fn lease_seconds(lease: Option<Timestamp>) -> Option<i64> {
    match lease {
        Some(expiry) => Some(expiry@),
        None => None,
    }
}

/// A runner: its identifier, its status and the expiry of its lease.
#[derive(Debug)]
pub struct RunnerInfo {
    pub name: String,
    pub status: RunnerStatus,
    pub time_to_reset: Option<Timestamp>,
}

impl View for RunnerInfo {
    type V = RunnerView;

    open spec fn view(&self) -> RunnerView {
        RunnerView {
            name: self.name@,
            status: self.status,
            time_to_reset: lease_seconds(self.time_to_reset),
        }
    }
}

impl RunnerInfo {
    /// A runner with the given identifier, status and lease expiry.
    pub fn new(name: String, status: RunnerStatus, time_to_reset: Option<Timestamp>) -> (r: Self)
        ensures
            r.name == name,
            r.status == status,
            r.time_to_reset == time_to_reset,
    {
        Self { name, status, time_to_reset }
    }

    /// The runner with this identifier, or `None` where there is none.
    pub fn retrieve(db: &RunnerDb, runner: &str) -> (r: Option<Self>)
        requires
            db@.wf(),
        ensures
            r.is_some() == db@.has_runner(runner@),
            r matches Some(info) ==> info@ == db@.runner(runner@),
    {
        if !runner_exists(db, runner) {
            return None;
        }
        Some(get_runner_info(db, runner))
    }
}

impl PartialEq for RunnerInfo {
    fn eq(&self, other: &Self) -> (r: bool) {
        let same_lease = match (&self.time_to_reset, &other.time_to_reset) {
            (Some(a), Some(b)) => a.unix() == b.unix(),
            (None, None) => true,
            _ => false,
        };
        same_text(self.name.as_str(), other.name.as_str()) && self.status == other.status
            && same_lease
    }
}

impl vstd::std_specs::cmp::PartialEqSpecImpl for RunnerInfo {
    open spec fn obeys_eq_spec() -> bool {
        true
    }

    open spec fn eq_spec(&self, other: &Self) -> bool {
        self@ == other@
    }
}

impl Clone for RunnerInfo {
    fn clone(&self) -> (r: Self)
        ensures
            r == *self,
    {
        let time_to_reset = match &self.time_to_reset {
            Some(expiry) => Some(expiry.clone()),
            None => None,
        };
        RunnerInfo { name: self.name.clone(), status: self.status, time_to_reset }
    }
}

/// A board after its release: free, with no holder.
pub open spec fn freed(board: HardwareView) -> HardwareView {
    HardwareView { name: board.name, status: HardwareStatus::FREE, claimed_by: None }
}

/// The boards after every board that names `runner` as its holder was released.
pub open spec fn released_all(hardware: Seq<HardwareView>, runner: Seq<char>) -> Seq<HardwareView> {
    hardware.map_values(
        |h: HardwareView| if h.claimed_by == Some(runner) { freed(h) } else { h },
    )
}

/// The tables after the runner gave everything back: it is being reset, its
/// lease is gone, and every board that it held is free.
pub open spec fn recycled(db: DbView, runner: Seq<char>) -> DbView {
    DbView {
        runners: db.runners.map_values(
            |r: RunnerView| if r.name == runner { reset_runner(r) } else { r },
        ),
        hardware: released_all(db.hardware, runner),
    }
}

/// The answer to an operation that every existing runner accepts.
pub open spec fn found_status(db: DbView, runner: Seq<char>) -> Status {
    if db.has_runner(runner) {
        Status::Okay
    } else {
        Status::NotFound
    }
}

/// The tables after a reset of `runner` was asked for.
pub open spec fn reset_effect(db: DbView, runner: Seq<char>) -> DbView {
    if db.has_runner(runner) {
        recycled(db, runner)
    } else {
        db
    }
}

/// A runner after its reset: being reset, without a lease.
pub open spec fn reset_runner(runner: RunnerView) -> RunnerView {
    RunnerView { name: runner.name, status: RunnerStatus::RESETTING, time_to_reset: None }
}

/// What `recycled` does, runner by runner and board by board: the runner is
/// reset, every board that it held is free, and everything else is as it was.
pub proof fn lemma_recycled(db: DbView, runner: Seq<char>)
    requires
        db.wf(),
    ensures
        recycled(db, runner).wf(),
        recycled(db, runner).runners_kept_but(db, runner),
        recycled(db, runner).hardware_names() == db.hardware_names(),
        db.has_runner(runner) ==> recycled(db, runner).runner(runner) == reset_runner(
            db.runner(runner),
        ),
        forall|id: Seq<char>|
            db.has_hardware(id) ==> #[trigger] recycled(db, runner).board(id) == (if db.board(
                id,
            ).claimed_by == Some(runner) {
                freed(db.board(id))
            } else {
                db.board(id)
            }),
{
    let after = recycled(db, runner);
    assert(after.runner_names() =~= db.runner_names());
    assert(after.hardware_names() =~= db.hardware_names());
    assert forall|other: Seq<char>| db.has_runner(other) implies (if other == runner {
        after.runner(other) == reset_runner(db.runner(other))
    } else {
        after.runner(other) == db.runner(other)
    }) by {
        assert(db.runner_names()[db.runner_names().index_of(other)] == other);
    }
    assert forall|id: Seq<char>| db.has_hardware(id) implies #[trigger] after.board(id) == (if db.board(
        id,
    ).claimed_by == Some(runner) {
        freed(db.board(id))
    } else {
        db.board(id)
    }) by {
        assert(db.hardware_names()[db.hardware_names().index_of(id)] == id);
    }
}

/// The runner with this identifier, or `None` where there is none.
pub fn runner_info(db: &RunnerDb, runner: &str) -> (r: Option<RunnerInfo>)
    requires
        db@.wf(),
    ensures
        r.is_some() == db@.has_runner(runner@),
        r matches Some(info) ==> info@ == db@.runner(runner@),
{
    RunnerInfo::retrieve(db, runner)
}

/// All runners, in the order of the rows.
pub fn runners_info(db: &RunnerDb) -> (infos: Vec<RunnerInfo>)
    requires
        db@.wf(),
    ensures
        infos@.map_values(|r: RunnerInfo| r@) == db@.runners,
{
    let runners = runner_id_list(db);
    let mut infos: Vec<RunnerInfo> = Vec::new();
    let mut i: usize = 0;
    assert(runners.len() == db@.runners.len()) by {
        assert(texts(runners@).len() == db@.runner_names().len());
    }
    while i < runners.len()
        invariant
            i <= runners.len(),
            db@.wf(),
            texts(runners@) == db@.runner_names(),
            runners.len() == db@.runners.len(),
            infos.len() == i,
            forall|j: int| 0 <= j < i ==> (#[trigger] infos[j])@ == db@.runners[j],
        decreases runners.len() - i,
    {
        proof {
            db@.lemma_runner_at(i as int);
        }
        let info = RunnerInfo::retrieve(db, runners[i].as_str());
        if let Some(info) = info {
            infos.push(info);
        }
        i += 1;
    }
    infos
}

/// Releases every board that names `runner` as its holder. A release that
/// is refused is passed over, so that one board cannot keep the others from
/// being released; with consistent tables none is refused.
fn release_hardware(db: &mut RunnerDb, runner: &str)
    requires
        old(db)@.wf(),
    ensures
        final(db)@.runners == old(db)@.runners,
        final(db)@.hardware == released_all(old(db)@.hardware, runner@),
        final(db)@.wf(),
{
    let ghost before = db@;
    let claimed_hw = get_hardware_claimed_by_runner(db, runner);
    let ghost ids = texts(claimed_hw@);
    proof {
        before.lemma_claimed_by(runner@);
    }
    let mut k: usize = 0;
    while k < claimed_hw.len()
        invariant
            k <= claimed_hw.len(),
            before.wf(),
            db@.wf(),
            ids == texts(claimed_hw@),
            ids == before.claimed_by(runner@),
            forall|i: int| 0 <= i < ids.len() ==> before.is_held(#[trigger] ids[i], runner@),
            db@.runners == before.runners,
            db@.hardware.len() == before.hardware.len(),
            forall|j: int|
                0 <= j < before.hardware.len() ==> #[trigger] db@.hardware[j] == (if before.hardware[j].claimed_by
                    == Some(runner@) && ids.take(k as int).contains(before.hardware[j].name) {
                    freed(before.hardware[j])
                } else {
                    before.hardware[j]
                }),
        decreases claimed_hw.len() - k,
    {
        let ghost current = db@;
        let ghost id = ids[k as int];
        let ghost next = ids.take(k + 1);
        proof {
            let at = choose|j: int|
                0 <= j < before.hardware.len() && (#[trigger] before.hardware[j]).name == id
                    && before.hardware[j].claimed_by == Some(runner@);
            current.lemma_board_at(at);
            before.lemma_board_at(at);
            current.lemma_with_hardware_status(id, runner@, HardwareStatus::FREE);
        }
        let _ = crate::hardware::release_hardware(db, claimed_hw[k].as_str(), runner);
        proof {
            assert forall|j: int| 0 <= j < before.hardware.len() implies #[trigger] db@.hardware[j]
                == (if before.hardware[j].claimed_by == Some(runner@) && next.contains(
                before.hardware[j].name,
            ) {
                freed(before.hardware[j])
            } else {
                before.hardware[j]
            }) by {
                before.lemma_board_at(j);
                if before.hardware[j].name == id {
                    assert(next[k as int] == id);
                }
            }
        }
        k += 1;
    }
    proof {
        assert(ids.take(k as int) =~= ids);
    }
}

/// Resets a runner: it takes the status `RESETTING`, its lease ends, every
/// board that it holds is released, and its virtual machine is told to revert
/// to its snapshot. An unknown runner is answered `NotFound` and changes
/// nothing.
pub fn runner_reset(db: &mut RunnerDb, queue: &mut CommandQueue, runner: &str) -> (status: Status)
    requires
        old(db)@.wf(),
    ensures
        status == found_status(old(db)@, runner@),
        final(db)@ == reset_effect(old(db)@, runner@),
        final(db)@.wf(),
        final(queue)@ == if old(db)@.has_runner(runner@) {
            old(queue)@.push(VmCommandView { vm: runner@, command: Command::revert })
        } else {
            old(queue)@
        },
        final(db)@.runners_kept_but(old(db)@, runner@),
        final(db)@.hardware_names() == old(db)@.hardware_names(),
        status == Status::Okay ==> final(db)@.runner(runner@) == reset_runner(
            old(db)@.runner(runner@),
        ),
        status == Status::Okay ==> forall|id: Seq<char>|
            old(db)@.has_hardware(id) ==> #[trigger] final(db)@.board(id) == (if old(db)@.board(
                id,
            ).claimed_by == Some(runner@) {
                freed(old(db)@.board(id))
            } else {
                old(db)@.board(id)
            }),
{
    proof {
        lemma_recycled(db@, runner@);
    }
    if !runner_exists(db, runner) {
        return Status::NotFound;
    }
    let ghost before = db@;
    update_runner_time_to_reset(db, runner, None);
    update_runner_status(db, runner, RunnerStatus::RESETTING);
    proof {
        assert(db@.runners =~= recycled(before, runner@).runners);
    }
    release_hardware(db, runner);
    crate::vm::reset(queue, runner);
    Status::Okay
}

/// The answer to a launch of `runner` at the time `now` with a lease of
/// `validity` seconds.
pub open spec fn launch_status(db: DbView, runner: Seq<char>, now: i64, validity: i64) -> Status {
    if !db.has_runner(runner) {
        Status::NotFound
    } else if db.runner(runner).time_to_reset.is_some() {
        Status::Conflict
    } else if !representable(now + validity) {
        Status::InternalServerError
    } else {
        Status::Okay
    }
}

/// The tables after a launch of `runner` was asked for at the time `now`
/// with a lease of `validity` seconds.
pub open spec fn launch_effect(db: DbView, runner: Seq<char>, now: i64, validity: i64) -> DbView {
    if launch_status(db, runner, now, validity) == Status::Okay {
        db.with_runner_lease(runner, Some((now + validity) as i64)).with_runner_status(
            runner,
            RunnerStatus::IDLE,
        )
    } else {
        db
    }
}

/// Launches a runner at the time `now`, which the caller reads from the
/// clock: the runner becomes `IDLE` and its lease ends `validity` seconds
/// later. A runner that holds a lease is answered `Conflict` and has to be
/// reset first; an unknown runner is answered `NotFound`; a lease whose end is
/// no representable date is answered `InternalServerError`. None of the three
/// changes anything.
pub fn runner_launch(db: &mut RunnerDb, runner: &str, now: i64, validity: i64) -> (status: Status)
    requires
        old(db)@.wf(),
    ensures
        status == launch_status(old(db)@, runner@, now, validity),
        final(db)@ == launch_effect(old(db)@, runner@, now, validity),
        final(db)@.wf(),
        final(db)@.runners_kept_but(old(db)@, runner@),
        status == Status::Okay ==> final(db)@.runner(runner@) == (RunnerView {
            name: runner@,
            status: RunnerStatus::IDLE,
            time_to_reset: Some((now + validity) as i64),
        }),
{
    if !runner_exists(db, runner) {
        return Status::NotFound;
    }
    if get_runner_info(db, runner).time_to_reset.is_some() {
        return Status::Conflict;
    }
    let timestamp = Timestamp::new(now, validity);
    if timestamp.is_none() {
        return Status::InternalServerError;
    }
    update_runner_time_to_reset(db, runner, timestamp);
    update_runner_status(db, runner, RunnerStatus::IDLE);
    Status::Okay
}

/// Starts the virtual machine of a runner: the runner becomes `RUNNING` and
/// its machine is told to start. An unknown runner is answered `NotFound` and
/// changes nothing.
pub fn vm_start(db: &mut RunnerDb, queue: &mut CommandQueue, runner: &str) -> (status: Status)
    requires
        old(db)@.wf(),
    ensures
        status == found_status(old(db)@, runner@),
        final(db)@ == if old(db)@.has_runner(runner@) {
            old(db)@.with_runner_status(runner@, RunnerStatus::RUNNING)
        } else {
            old(db)@
        },
        final(db)@.wf(),
        final(queue)@ == if old(db)@.has_runner(runner@) {
            old(queue)@.push(VmCommandView { vm: runner@, command: Command::start })
        } else {
            old(queue)@
        },
        final(db)@.runners_kept_but(old(db)@, runner@),
        status == Status::Okay ==> final(db)@.runner(runner@) == (RunnerView {
            name: runner@,
            status: RunnerStatus::RUNNING,
            time_to_reset: old(db)@.runner(runner@).time_to_reset,
        }),
{
    if !runner_exists(db, runner) {
        return Status::NotFound;
    }
    update_runner_status(db, runner, RunnerStatus::RUNNING);
    crate::vm::start(queue, runner);
    Status::Okay
}

/// Stops the virtual machine of a runner: the runner becomes `OFFLINE` and
/// its machine is told to stop. An unknown runner is answered `NotFound` and
/// changes nothing.
pub fn vm_stop(db: &mut RunnerDb, queue: &mut CommandQueue, runner: &str) -> (status: Status)
    requires
        old(db)@.wf(),
    ensures
        status == found_status(old(db)@, runner@),
        final(db)@ == if old(db)@.has_runner(runner@) {
            old(db)@.with_runner_status(runner@, RunnerStatus::OFFLINE)
        } else {
            old(db)@
        },
        final(db)@.wf(),
        final(queue)@ == if old(db)@.has_runner(runner@) {
            old(queue)@.push(VmCommandView { vm: runner@, command: Command::stop })
        } else {
            old(queue)@
        },
        final(db)@.runners_kept_but(old(db)@, runner@),
        status == Status::Okay ==> final(db)@.runner(runner@) == (RunnerView {
            name: runner@,
            status: RunnerStatus::OFFLINE,
            time_to_reset: old(db)@.runner(runner@).time_to_reset,
        }),
{
    if !runner_exists(db, runner) {
        return Status::NotFound;
    }
    update_runner_status(db, runner, RunnerStatus::OFFLINE);
    crate::vm::stop(queue, runner);
    Status::Okay
}

/// The work that follows a request for a snapshot. It is expected to take
/// long, so the request is answered at once and the caller runs the job
/// apart from it.
#[derive(Debug)]
pub struct SnapshotJob {
    runner: String,
}

impl SnapshotJob {
    /// The identifier of the runner whose snapshot is due.
    pub closed spec fn runner_name(&self) -> Seq<char> {
        self.runner@
    }

    /// The identifier of the runner whose snapshot is due.
    pub fn runner(&self) -> (r: &str)
        ensures
            r@ == self.runner_name(),
    {
        self.runner.as_str()
    }

    /// Does the work: the runner takes the status `RESETTING`, its lease
    /// ends, every board that it holds is released, and its virtual machine
    /// is told to take a snapshot.
    pub fn run(self, db: &mut RunnerDb, queue: &mut CommandQueue)
        requires
            old(db)@.wf(),
        ensures
            final(db)@ == recycled(old(db)@, self.runner_name()),
            final(db)@.wf(),
            final(queue)@ == old(queue)@.push(
                VmCommandView { vm: self.runner_name(), command: Command::createsnap },
            ),
            final(db)@.runners_kept_but(old(db)@, self.runner_name()),
            final(db)@.hardware_names() == old(db)@.hardware_names(),
            old(db)@.has_runner(self.runner_name()) ==> final(db)@.runner(self.runner_name())
                == reset_runner(old(db)@.runner(self.runner_name())),
            forall|id: Seq<char>|
                old(db)@.has_hardware(id) ==> #[trigger] final(db)@.board(id) == (if old(
                    db,
                )@.board(id).claimed_by == Some(self.runner_name()) {
                    freed(old(db)@.board(id))
                } else {
                    old(db)@.board(id)
                }),
    {
        let ghost before = db@;
        proof {
            lemma_recycled(before, self.runner_name());
        }
        let runner = self.runner.as_str();
        update_runner_status(db, runner, RunnerStatus::RESETTING);
        update_runner_time_to_reset(db, runner, None);
        proof {
            assert(db@.runners =~= recycled(before, runner@).runners);
        }
        release_hardware(db, runner);
        crate::vm::snapshot(queue, runner);
    }
}

/// Asks for a snapshot of the virtual machine of a runner. The answer is
/// `Okay` together with the job that does the work, or `NotFound` and no job
/// for an unknown runner. The tables change only when the job runs.
pub fn vm_snapshot(db: &RunnerDb, runner: &str) -> (r: (Status, Option<SnapshotJob>))
    ensures
        r.0 == found_status(db@, runner@),
        r.1.is_some() == db@.has_runner(runner@),
        r.1 matches Some(job) ==> job.runner_name() == runner@,
{
    if !runner_exists(db, runner) {
        return (Status::NotFound, None);
    }
    (Status::Okay, Some(SnapshotJob { runner: runner.to_owned() }))
}

/// The answer of the token provider: a registration token.
#[derive(Debug)]
pub struct TokenResponse {
    token: String,
}

impl View for TokenResponse {
    type V = Seq<char>;

    /// The token.
    closed spec fn view(&self) -> Seq<char> {
        self.token@
    }
}

impl TokenResponse {
    /// The answer that carries `token`.
    pub fn new(token: String) -> (r: Self)
        ensures
            r@ == token@,
    {
        TokenResponse { token }
    }

    /// The token.
    pub fn token(&self) -> (r: &str)
        ensures
            r@ == self@,
    {
        self.token.as_str()
    }

    /// Gives the token out.
    pub fn into_token(self) -> (r: String)
        ensures
            r@ == self@,
    {
        self.token
    }
}

/// What has to be configured for the token provider to be asked: the
/// organization, the credential and the proxy through which it is reached.
#[derive(Debug)]
pub struct TokenConfig {
    pub org: Option<String>,
    pub pat: Option<String>,
    pub proxy: Option<String>,
}

impl TokenConfig {
    /// Whether nothing is missing.
    pub open spec fn complete(&self) -> bool {
        self.org.is_some() && self.pat.is_some() && self.proxy.is_some()
    }

    /// The configuration with the given parts.
    pub fn new(org: Option<String>, pat: Option<String>, proxy: Option<String>) -> (r: Self)
        ensures
            r.org == org,
            r.pat == pat,
            r.proxy == proxy,
    {
        TokenConfig { org, pat, proxy }
    }

    /// Whether nothing is missing.
    pub fn is_complete(&self) -> (r: bool)
        ensures
            r == self.complete(),
    {
        self.org.is_some() && self.pat.is_some() && self.proxy.is_some()
    }
}

/// The request that asks the token provider for a registration token: a POST
/// to `url` with the two headers, sent through `proxy`.
#[derive(Debug)]
pub struct TokenRequest {
    pub url: String,
    pub authorization: String,
    pub accept: String,
    pub proxy: String,
}

/// The address at which an organization's registration tokens are issued.
pub open spec fn token_url(org: Seq<char>) -> Seq<char> {
    "https://api.github.com/orgs/"@ + org + "/actions/runners/registration-token"@
}

/// The value of the header that presents a credential.
pub open spec fn bearer(pat: Seq<char>) -> Seq<char> {
    "Bearer "@ + pat
}

/// The media type that the request accepts.
pub open spec fn accepted_media() -> Seq<char> {
    "application/vnd.github.v3+json"@
}

/// The request that asks for a registration token of the organization `org`
/// with the credential `pat`, through `proxy`.
pub fn token_request(org: &str, pat: &str, proxy: &str) -> (request: TokenRequest)
    ensures
        request.url@ == token_url(org@),
        request.authorization@ == bearer(pat@),
        request.accept@ == accepted_media(),
        request.proxy@ == proxy@,
{
    let mut url = "https://api.github.com/orgs/".to_owned();
    url.append(org);
    url.append("/actions/runners/registration-token");
    let mut authorization = "Bearer ".to_owned();
    authorization.append(pat);
    TokenRequest {
        url,
        authorization,
        accept: "application/vnd.github.v3+json".to_owned(),
        proxy: proxy.to_owned(),
    }
}

/// The first step of issuing a token: decides whether the provider is to be
/// asked, and with which request. Missing configuration is answered
/// `InternalServerError`; with complete configuration an unknown runner is
/// answered `BadRequest`.
pub fn runner_request_github_token(db: &RunnerDb, runner: &str, config: &TokenConfig) -> (r:
    Result<TokenRequest, Status>)
    ensures
        r.is_ok() == (config.complete() && db@.has_runner(runner@)),
        !config.complete() ==> r == Err::<TokenRequest, Status>(Status::InternalServerError),
        config.complete() && !db@.has_runner(runner@) ==> r == Err::<TokenRequest, Status>(
            Status::BadRequest,
        ),
        r matches Ok(request) ==> {
            &&& request.url@ == token_url(config.org->0@)
            &&& request.authorization@ == bearer(config.pat->0@)
            &&& request.accept@ == accepted_media()
            &&& request.proxy@ == config.proxy->0@
        },
{
    match (&config.org, &config.pat, &config.proxy) {
        (Some(org), Some(pat), Some(proxy)) => {
            if !runner_exists(db, runner) {
                return Err(Status::BadRequest);
            }
            Ok(token_request(org.as_str(), pat.as_str(), proxy.as_str()))
        },
        _ => Err(Status::InternalServerError),
    }
}

/// The tables after a token was asked for on behalf of `runner` and the
/// provider answered: the runner is `IDLE` after a token came and `ERROR`
/// after none did. Its lease is not touched.
pub open spec fn token_effect(
    db: DbView,
    runner: Seq<char>,
    configured: bool,
    fetched: bool,
) -> DbView {
    if !configured || !db.has_runner(runner) {
        db
    } else if fetched {
        db.with_runner_status(runner, RunnerStatus::IDLE)
    } else {
        db.with_runner_status(runner, RunnerStatus::ERROR)
    }
}

/// The second step of issuing a token: records what the provider answered
/// and returns the token. `fetched` is the provider's answer, or `None`
/// where the call failed. Missing configuration is answered
/// `InternalServerError` and an unknown runner `BadRequest`, and neither
/// changes anything. Otherwise the runner becomes `IDLE` and the token is
/// returned, or, where the call failed, the runner becomes `ERROR` and the
/// answer is `InternalServerError`.
pub fn runner_return_github_token(
    db: &mut RunnerDb,
    runner: &str,
    config: &TokenConfig,
    fetched: Option<TokenResponse>,
) -> (r: Result<String, Status>)
    requires
        old(db)@.wf(),
    ensures
        final(db)@ == token_effect(old(db)@, runner@, config.complete(), fetched.is_some()),
        final(db)@.wf(),
        r.is_ok() == (config.complete() && old(db)@.has_runner(runner@) && fetched.is_some()),
        r matches Ok(token) ==> token@ == fetched->0@,
        r matches Err(status) ==> status == if config.complete() && !old(db)@.has_runner(runner@) {
            Status::BadRequest
        } else {
            Status::InternalServerError
        },
        final(db)@.runners_kept_but(old(db)@, runner@),
        config.complete() && old(db)@.has_runner(runner@) ==> final(db)@.runner(runner@)
            == (RunnerView {
            name: runner@,
            status: if fetched.is_some() {
                RunnerStatus::IDLE
            } else {
                RunnerStatus::ERROR
            },
            time_to_reset: old(db)@.runner(runner@).time_to_reset,
        }),
{
    if !config.is_complete() {
        return Err(Status::InternalServerError);
    }
    if !runner_exists(db, runner) {
        return Err(Status::BadRequest);
    }
    match fetched {
        Some(token) => {
            update_runner_status(db, runner, RunnerStatus::IDLE);
            Ok(token.into_token())
        },
        None => {
            update_runner_status(db, runner, RunnerStatus::ERROR);
            Err(Status::InternalServerError)
        },
    }
}

/// A launch of a runner that holds a lease is answered `Conflict` and leaves
/// the tables, and with them the status of the runner, as they were.
pub proof fn lemma_launch_with_lease_is_refused(
    db: DbView,
    runner: Seq<char>,
    now: i64,
    validity: i64,
)
    requires
        db.wf(),
        db.has_runner(runner),
        db.runner(runner).time_to_reset.is_some(),
    ensures
        launch_status(db, runner, now, validity) == Status::Conflict,
        launch_effect(db, runner, now, validity) == db,
{
}

/// A launch that is answered `Okay` makes the runner `IDLE` and gives it the
/// lease that ends `validity` seconds after `now`; the next launch is
/// answered `Conflict`.
pub proof fn lemma_launch_takes_the_lease(db: DbView, runner: Seq<char>, now: i64, validity: i64)
    requires
        db.wf(),
        launch_status(db, runner, now, validity) == Status::Okay,
    ensures
        launch_effect(db, runner, now, validity).wf(),
        launch_effect(db, runner, now, validity).has_runner(runner),
        launch_effect(db, runner, now, validity).runner(runner) == (RunnerView {
            name: runner,
            status: RunnerStatus::IDLE,
            time_to_reset: Some((now + validity) as i64),
        }),
        forall|later: i64, window: i64|
            launch_status(launch_effect(db, runner, now, validity), runner, later, window)
                == Status::Conflict,
{
    let after = launch_effect(db, runner, now, validity);
    assert(after.runner_names() =~= db.runner_names());
}

/// After the reset of a runner that exists, the runner is `RESETTING` and
/// holds no lease, every board that named it as its holder is free and
/// names none, and no board names it any more. All other runners and boards
/// are as they were.
pub proof fn lemma_reset_gives_everything_back(db: DbView, runner: Seq<char>)
    requires
        db.wf(),
        db.has_runner(runner),
    ensures
        reset_effect(db, runner).wf(),
        reset_effect(db, runner).has_runner(runner),
        reset_effect(db, runner).runner(runner).status == RunnerStatus::RESETTING,
        reset_effect(db, runner).runner(runner).time_to_reset.is_none(),
        reset_effect(db, runner).hardware.len() == db.hardware.len(),
        reset_effect(db, runner).runners.len() == db.runners.len(),
        forall|j: int|
            0 <= j < db.hardware.len() && (#[trigger] db.hardware[j]).claimed_by == Some(runner)
                ==> reset_effect(db, runner).hardware[j].status == HardwareStatus::FREE
                && reset_effect(db, runner).hardware[j].claimed_by.is_none(),
        forall|j: int|
            0 <= j < db.hardware.len() && (#[trigger] reset_effect(
                db,
                runner,
            ).hardware[j]).claimed_by == Some(runner) ==> reset_effect(db, runner).hardware[j].status
                == HardwareStatus::FREE,
        forall|j: int|
            0 <= j < db.hardware.len() ==> (#[trigger] reset_effect(
                db,
                runner,
            ).hardware[j]).claimed_by != Some(runner),
        forall|j: int|
            0 <= j < db.hardware.len() && (#[trigger] db.hardware[j]).claimed_by != Some(runner)
                ==> reset_effect(db, runner).hardware[j] == db.hardware[j],
        forall|j: int|
            0 <= j < db.runners.len() && (#[trigger] db.runners[j]).name != runner
                ==> reset_effect(db, runner).runners[j] == db.runners[j],
{
    let after = reset_effect(db, runner);
    assert(after.runner_names() =~= db.runner_names());
    assert(after.hardware_names() =~= db.hardware_names());
}

/// A second reset, right after the first, is answered `Okay` as the first
/// was and changes nothing: the runner stays `RESETTING` without a lease.
pub proof fn lemma_reset_is_idempotent(db: DbView, runner: Seq<char>)
    requires
        db.wf(),
        db.has_runner(runner),
    ensures
        found_status(db, runner) == Status::Okay,
        found_status(reset_effect(db, runner), runner) == Status::Okay,
        reset_effect(reset_effect(db, runner), runner) == reset_effect(db, runner),
        reset_effect(reset_effect(db, runner), runner).runner(runner).status
            == RunnerStatus::RESETTING,
        reset_effect(reset_effect(db, runner), runner).runner(runner).time_to_reset.is_none(),
{
    lemma_reset_gives_everything_back(db, runner);
    let once = reset_effect(db, runner);
    let twice = reset_effect(once, runner);
    assert(twice.runners =~= once.runners);
    assert(twice.hardware =~= once.hardware);
}

/// Whether no runner that is being reset holds a lease.
pub open spec fn leases_consistent(db: DbView) -> bool {
    forall|i: int| 0 <= i < db.runners.len() ==> (#[trigger] db.runners[i]).consistent()
}

/// No operation of the lifecycle leaves a runner that is being reset with a
/// lease: where the tables were consistent before a launch, a reset, a
/// start, a stop or the issue of a token, they are consistent after it.
pub proof fn lemma_lifecycle_keeps_leases_consistent(
    db: DbView,
    runner: Seq<char>,
    now: i64,
    validity: i64,
    configured: bool,
    fetched: bool,
)
    requires
        db.wf(),
        leases_consistent(db),
    ensures
        leases_consistent(launch_effect(db, runner, now, validity)),
        leases_consistent(reset_effect(db, runner)),
        leases_consistent(recycled(db, runner)),
        leases_consistent(db.with_runner_status(runner, RunnerStatus::RUNNING)),
        leases_consistent(db.with_runner_status(runner, RunnerStatus::OFFLINE)),
        leases_consistent(token_effect(db, runner, configured, fetched)),
{
}

/// Issuing a token, whatever comes of it, leaves the lease of every runner
/// and every board as it was.
pub proof fn lemma_token_keeps_leases(
    db: DbView,
    runner: Seq<char>,
    configured: bool,
    fetched: bool,
)
    ensures
        token_effect(db, runner, configured, fetched).hardware == db.hardware,
        token_effect(db, runner, configured, fetched).runners.len() == db.runners.len(),
        forall|i: int|
            0 <= i < db.runners.len() ==> (#[trigger] token_effect(
                db,
                runner,
                configured,
                fetched,
            ).runners[i]).time_to_reset == db.runners[i].time_to_reset,
        !configured ==> token_effect(db, runner, configured, fetched) == db,
{
}

} // verus!
