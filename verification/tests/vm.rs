use runner_manager::vm::{
    exec_command, file_name, get_path, reset, snapshot, start, stop, Command, CommandQueue,
    VmCommand, COMMAND_DELAY_SECS, DEFAULT_COMMAND_DIR,
};

fn std_join(dir: &str, file: &str) -> String {
    std::path::Path::new(dir).join(file).to_str().unwrap().to_string()
}

#[test]
fn commands_have_their_names() {
    assert_eq!(Command::start.as_ref(), "start");
    assert_eq!(Command::stop.as_ref(), "stop");
    assert_eq!(Command::createsnap.as_ref(), "createsnap");
    assert_eq!(Command::revert.as_ref(), "revert");
}

#[test]
fn the_marker_file_is_named_after_machine_and_command() {
    assert_eq!(file_name("runner-1", Command::revert), "runner-1.revert");
    assert_eq!(file_name("runner-1", Command::createsnap), "runner-1.createsnap");
    assert_eq!(file_name("", Command::start), ".start");
    assert_eq!(file_name("a.b", Command::stop), "a.b.stop");
}

#[test]
fn the_marker_file_lies_below_the_directory() {
    assert_eq!(get_path("/tmp/test", "runner-1", Command::revert), "/tmp/test/runner-1.revert");
    assert_eq!(get_path(DEFAULT_COMMAND_DIR, "vm", Command::start), "/tmp/test/vm.start");
    assert_eq!(get_path("/tmp/test/", "vm", Command::stop), "/tmp/test/vm.stop");
    assert_eq!(get_path("", "vm", Command::stop), "vm.stop");
    assert_eq!(get_path("/", "vm", Command::stop), "/vm.stop");
    assert_eq!(get_path("share", "vm", Command::createsnap), "share/vm.createsnap");
}

#[test]
fn a_machine_name_from_the_root_stands_for_itself() {
    assert_eq!(get_path("/tmp/test", "/etc/vm", Command::stop), "/etc/vm.stop");
}

#[test]
fn the_path_is_the_one_that_the_standard_library_joins() {
    let dirs = ["/tmp/test", "/tmp/test/", "", "/", "share", "a/b", "a//", "ä/ö"];
    let machines = ["runner-1", "", "/abs", "sub/vm", "ü", ".", ".."];
    let commands = [Command::start, Command::stop, Command::createsnap, Command::revert];
    for dir in dirs {
        for machine in machines {
            for command in commands {
                let file = format!("{}.{}", machine, command.as_ref());
                assert_eq!(get_path(dir, machine, command), std_join(dir, &file));
            }
        }
    }
}

#[test]
fn a_signal_knows_its_file() {
    let signal = VmCommand::new("runner-7".to_string(), Command::createsnap);
    assert_eq!(signal.file_name(), "runner-7.createsnap");
    assert_eq!(signal.path("/srv/commands"), "/srv/commands/runner-7.createsnap");
}

#[test]
fn signals_are_handed_out_in_the_order_in_which_they_came() {
    let mut queue = CommandQueue::new();
    assert_eq!(queue.len(), 0);
    start(&mut queue, "a");
    stop(&mut queue, "b");
    snapshot(&mut queue, "c");
    reset(&mut queue, "d");
    exec_command(&mut queue, "e", Command::start);
    assert_eq!(queue.len(), 5);
    let due = queue.take();
    assert_eq!(
        due,
        vec![
            VmCommand::new("a".to_string(), Command::start),
            VmCommand::new("b".to_string(), Command::stop),
            VmCommand::new("c".to_string(), Command::createsnap),
            VmCommand::new("d".to_string(), Command::revert),
            VmCommand::new("e".to_string(), Command::start),
        ]
    );
    assert_eq!(queue.len(), 0);
    assert!(queue.take().is_empty());
}

#[test]
fn a_signal_waits_half_a_minute() {
    assert_eq!(COMMAND_DELAY_SECS, 30);
}
