use runner_manager::db::{get_runner_info, HardwareStatus, RunnerDb, RunnerStatus};
use runner_manager::hardware::{claim_hardware, hardware_info, HardwareInfo};
use runner_manager::http::Status;
use runner_manager::reset_task::{reset_task, RunnerResetTask, DEFAULT_INTERVAL_SECS};
use runner_manager::runners::{runner_launch, runners_info, RunnerInfo};
use runner_manager::timestamp::Timestamp;
use runner_manager::vm::{Command, CommandQueue, VmCommand};

fn runner(name: &str, status: RunnerStatus, lease: Option<i64>) -> RunnerInfo {
    RunnerInfo::new(name.to_string(), status, lease.map(Timestamp::from_unix))
}

fn board(name: &str, status: HardwareStatus, holder: Option<&str>) -> HardwareInfo {
    HardwareInfo::new(name.to_string(), status, holder.map(|h| h.to_string()))
}

fn signal(vm: &str, command: Command) -> VmCommand {
    VmCommand::new(vm.to_string(), command)
}

fn pool() -> RunnerDb {
    let mut db = RunnerDb::new();
    assert!(db.insert_runner(runner("early", RunnerStatus::RUNNING, Some(100))));
    assert!(db.insert_runner(runner("free", RunnerStatus::OFFLINE, None)));
    assert!(db.insert_runner(runner("late", RunnerStatus::IDLE, Some(300))));
    assert!(db.insert_runner(runner("mid", RunnerStatus::ERROR, Some(200))));
    assert!(db.insert_hardware(board("b1", HardwareStatus::CLAIMED, Some("late"))));
    assert!(db.insert_hardware(board("b2", HardwareStatus::CLAIMED, Some("early"))));
    assert!(db.insert_hardware(board("b3", HardwareStatus::FREE, None)));
    assert!(db.insert_hardware(board("b4", HardwareStatus::CLAIMED, Some("mid"))));
    assert!(db.insert_hardware(board("b5", HardwareStatus::CLAIMED, Some("free"))));
    assert!(db.insert_hardware(board("b6", HardwareStatus::CLAIMED, Some("early"))));
    db
}

#[test]
fn a_runner_launched_for_a_second_is_reset_by_the_next_pass() {
    let mut db = RunnerDb::new();
    let mut queue = CommandQueue::new();
    assert!(db.insert_runner(runner("R", RunnerStatus::OFFLINE, None)));
    assert!(db.insert_hardware(board("B", HardwareStatus::FREE, None)));
    assert_eq!(runner_launch(&mut db, "R", 1000, 1), Status::Okay);
    assert_eq!(claim_hardware(&mut db, "B", "R"), Status::Okay);
    assert_eq!(get_runner_info(&db, "R"), runner("R", RunnerStatus::IDLE, Some(1001)));
    assert_eq!(reset_task(&mut db, &mut queue, 1002), vec!["R".to_string()]);
    assert_eq!(get_runner_info(&db, "R").status, RunnerStatus::RESETTING);
    assert!(get_runner_info(&db, "R").time_to_reset.is_none());
    assert_eq!(hardware_info(&db), vec![board("B", HardwareStatus::FREE, None)]);
    assert_eq!(queue.take(), vec![signal("R", Command::revert)]);
}

#[test]
fn a_runner_launched_by_the_clock_is_reset_by_a_pass_after_its_lease() {
    let mut db = RunnerDb::new();
    let mut queue = CommandQueue::new();
    assert!(db.insert_runner(runner("R", RunnerStatus::OFFLINE, None)));
    let now = chrono::Utc::now().timestamp();
    assert_eq!(runner_launch(&mut db, "R", now, 1), Status::Okay);
    assert!(reset_task(&mut db, &mut queue, now).is_empty());
    assert_eq!(get_runner_info(&db, "R"), runner("R", RunnerStatus::IDLE, Some(now + 1)));
    assert_eq!(reset_task(&mut db, &mut queue, now + 2), vec!["R".to_string()]);
    assert_eq!(get_runner_info(&db, "R"), runner("R", RunnerStatus::RESETTING, None));
}

#[test]
fn a_pass_by_the_clock_resets_what_has_run_out_already() {
    let mut db = RunnerDb::new();
    let mut queue = CommandQueue::new();
    assert!(db.insert_runner(runner("gone", RunnerStatus::OFFLINE, None)));
    assert!(db.insert_runner(runner("fresh", RunnerStatus::OFFLINE, None)));
    assert!(db.insert_runner(runner("idle", RunnerStatus::IDLE, None)));
    let now = chrono::Utc::now().timestamp();
    assert_eq!(runner_launch(&mut db, "gone", now, -5), Status::Okay);
    assert_eq!(runner_launch(&mut db, "fresh", now, 3600), Status::Okay);
    let fresh = get_runner_info(&db, "fresh");
    let later = chrono::Utc::now().timestamp();
    assert_eq!(reset_task(&mut db, &mut queue, later), vec!["gone".to_string()]);
    assert_eq!(get_runner_info(&db, "gone"), runner("gone", RunnerStatus::RESETTING, None));
    assert_eq!(get_runner_info(&db, "fresh"), fresh);
    assert_eq!(get_runner_info(&db, "idle"), runner("idle", RunnerStatus::IDLE, None));
    assert_eq!(queue.take(), vec![signal("gone", Command::revert)]);
    assert!(RunnerResetTask::new().tick(&mut db, &mut queue, later).is_empty());
    assert_eq!(queue.len(), 0);
}

#[test]
fn a_tick_is_a_pass() {
    let mut db = pool();
    let mut queue = CommandQueue::new();
    let reset = RunnerResetTask::every(5).tick(&mut db, &mut queue, 250);
    assert_eq!(reset, vec!["early".to_string(), "mid".to_string()]);
    assert_eq!(get_runner_info(&db, "early"), runner("early", RunnerStatus::RESETTING, None));
    assert_eq!(get_runner_info(&db, "late"), runner("late", RunnerStatus::IDLE, Some(300)));
    assert_eq!(queue.take(), vec![signal("early", Command::revert), signal("mid", Command::revert)]);
}

#[test]
fn a_lease_that_ends_now_has_run_out() {
    let mut db = pool();
    let mut queue = CommandQueue::new();
    assert!(reset_task(&mut db, &mut queue, 99).is_empty());
    assert_eq!(get_runner_info(&db, "early"), runner("early", RunnerStatus::RUNNING, Some(100)));
    assert_eq!(reset_task(&mut db, &mut queue, 100), vec!["early".to_string()]);
    assert_eq!(get_runner_info(&db, "early"), runner("early", RunnerStatus::RESETTING, None));
}

#[test]
fn a_pass_resets_every_runner_whose_lease_has_run_out_and_no_other() {
    let mut db = pool();
    let mut queue = CommandQueue::new();
    assert_eq!(reset_task(&mut db, &mut queue, 250), vec!["early".to_string(), "mid".to_string()]);
    assert_eq!(
        runners_info(&db),
        vec![
            runner("early", RunnerStatus::RESETTING, None),
            runner("free", RunnerStatus::OFFLINE, None),
            runner("late", RunnerStatus::IDLE, Some(300)),
            runner("mid", RunnerStatus::RESETTING, None),
        ]
    );
    assert_eq!(
        hardware_info(&db),
        vec![
            board("b1", HardwareStatus::CLAIMED, Some("late")),
            board("b2", HardwareStatus::FREE, None),
            board("b3", HardwareStatus::FREE, None),
            board("b4", HardwareStatus::FREE, None),
            board("b5", HardwareStatus::CLAIMED, Some("free")),
            board("b6", HardwareStatus::FREE, None),
        ]
    );
    assert_eq!(queue.take(), vec![signal("early", Command::revert), signal("mid", Command::revert)]);
}

#[test]
fn a_runner_without_a_lease_is_never_reset() {
    let mut db = pool();
    let mut queue = CommandQueue::new();
    let reset = reset_task(&mut db, &mut queue, i64::MAX);
    assert_eq!(reset, vec!["early".to_string(), "late".to_string(), "mid".to_string()]);
    assert_eq!(get_runner_info(&db, "free"), runner("free", RunnerStatus::OFFLINE, None));
    assert_eq!(
        hardware_info(&db)[4],
        board("b5", HardwareStatus::CLAIMED, Some("free"))
    );
}

#[test]
fn a_second_pass_finds_nothing_to_do() {
    let mut db = pool();
    let mut queue = CommandQueue::new();
    assert_eq!(reset_task(&mut db, &mut queue, 1000).len(), 3);
    let runners = runners_info(&db);
    let boards = hardware_info(&db);
    assert_eq!(queue.take().len(), 3);
    assert!(reset_task(&mut db, &mut queue, 1000).is_empty());
    assert_eq!(runners_info(&db), runners);
    assert_eq!(hardware_info(&db), boards);
    assert_eq!(queue.len(), 0);
}

#[test]
fn a_pass_before_any_lease_ends_changes_nothing() {
    let mut db = pool();
    let mut queue = CommandQueue::new();
    let runners = runners_info(&db);
    let boards = hardware_info(&db);
    assert!(reset_task(&mut db, &mut queue, i64::MIN).is_empty());
    assert!(reset_task(&mut db, &mut queue, 0).is_empty());
    assert_eq!(runners_info(&db), runners);
    assert_eq!(hardware_info(&db), boards);
    assert_eq!(queue.len(), 0);
}

#[test]
fn a_pass_over_empty_tables_does_nothing() {
    let mut db = RunnerDb::new();
    let mut queue = CommandQueue::new();
    assert!(reset_task(&mut db, &mut queue, 5).is_empty());
    assert!(reset_task(&mut db, &mut queue, i64::MAX).is_empty());
    assert_eq!(queue.len(), 0);
}

#[test]
fn signals_of_a_pass_follow_the_signals_that_wait() {
    let mut db = pool();
    let mut queue = CommandQueue::new();
    runner_manager::vm::start(&mut queue, "free");
    reset_task(&mut db, &mut queue, 100);
    assert_eq!(queue.take(), vec![signal("free", Command::start), signal("early", Command::revert)]);
}

#[test]
fn the_watchdog_passes_every_half_minute_unless_told_otherwise() {
    assert_eq!(DEFAULT_INTERVAL_SECS, 30);
    assert_eq!(RunnerResetTask::new().interval_secs(), 30);
    assert_eq!(RunnerResetTask::every(5).interval_secs(), 5);
    assert_eq!(RunnerResetTask::every(30), RunnerResetTask::new());
}
