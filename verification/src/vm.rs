//! Signals to the virtual machines of the runners.
//!
//! A signal is a marker file named after the machine and the command, which a
//! watcher outside this process consumes. This module decides which signals
//! are due and where their files go; it collects them in a queue and leaves
//! the writing to the caller.

use vstd::prelude::*;
use vstd::string::*;
use crate::text::same_text;

verus! {

/// The time, in seconds, that passes between the decision to send a signal
/// and the creation of its file.
pub const COMMAND_DELAY_SECS: u64 = 30;

/// The directory of the marker files where none is configured.
pub const DEFAULT_COMMAND_DIR: &'static str = "/tmp/test";

/// The commands that a virtual machine understands.
#[allow(non_camel_case_types)]
#[derive(Clone, Copy, Debug, PartialEq, Eq, Structural, Hash)]
pub enum Command {
    start,
    stop,
    createsnap,
    revert,
}

impl Command {
    /// The text of a command, which ends the name of its marker file.
    pub open spec fn name(self) -> Seq<char> {
        match self {
            Command::start => "start"@,
            Command::stop => "stop"@,
            Command::createsnap => "createsnap"@,
            Command::revert => "revert"@,
        }
    }

    /// The text of this command.
    pub fn as_ref(&self) -> (r: &'static str)
        ensures
            r@ == self.name(),
    {
        match self {
            Command::start => "start",
            Command::stop => "stop",
            Command::createsnap => "createsnap",
            Command::revert => "revert",
        }
    }
}

/// The name of the marker file of a command for a machine: the machine's
/// identifier, a dot, and the command.
pub open spec fn file_name_of(vm: Seq<char>, command: Command) -> Seq<char> {
    vm + seq!['.'] + command.name()
}

/// Where a file lies that is named `file` and looked up from the directory
/// `dir`: a name that starts at the root stands for itself; any other name
/// follows the directory, after a slash unless the directory is empty or
/// brings its own.
pub open spec fn joined(dir: Seq<char>, file: Seq<char>) -> Seq<char> {
    if file.len() > 0 && file[0] == '/' {
        file
    } else if dir.len() == 0 || dir.last() == '/' {
        dir + file
    } else {
        dir + seq!['/'] + file
    }
}

/// The name of the marker file of a command for a machine.
pub fn file_name(vm: &str, command: Command) -> (name: String)
    ensures
        name@ == file_name_of(vm@, command),
{
    proof {
        reveal_strlit(".");
    }
    let mut name = vm.to_owned();
    name.append(".");
    name.append(command.as_ref());
    name
}

/// The path of the marker file of a command for a machine, below the
/// directory `dir`.
pub fn get_path(dir: &str, vm: &str, command: Command) -> (path: String)
    ensures
        path@ == joined(dir@, file_name_of(vm@, command)),
{
    proof {
        reveal_strlit("/");
    }
    let file = file_name(vm, command);
    if file.as_str().get_char(0) == '/' {
        return file;
    }
    let len = dir.unicode_len();
    let mut path = dir.to_owned();
    if len > 0 && dir.get_char(len - 1) != '/' {
        path.append("/");
    }
    path.append(file.as_str());
    path
}

/// A signal that is due: a command for the virtual machine of a runner.
#[derive(Debug)]
pub struct VmCommand {
    pub vm: String,
    pub command: Command,
}

/// What a signal is, to the contracts of this crate.
pub struct VmCommandView {
    pub vm: Seq<char>,
    pub command: Command,
}

impl View for VmCommand {
    type V = VmCommandView;

    open spec fn view(&self) -> VmCommandView {
        VmCommandView { vm: self.vm@, command: self.command }
    }
}

impl PartialEq for VmCommand {
    fn eq(&self, other: &Self) -> (r: bool) {
        same_text(self.vm.as_str(), other.vm.as_str()) && self.command == other.command
    }
}

impl vstd::std_specs::cmp::PartialEqSpecImpl for VmCommand {
    open spec fn obeys_eq_spec() -> bool {
        true
    }

    open spec fn eq_spec(&self, other: &Self) -> bool {
        self@ == other@
    }
}

impl VmCommand {
    /// The signal that carries `command` to the machine `vm`.
    pub fn new(vm: String, command: Command) -> (r: Self)
        ensures
            r.vm == vm,
            r.command == command,
    {
        VmCommand { vm, command }
    }

    /// The name of the marker file of this signal.
    pub fn file_name(&self) -> (name: String)
        ensures
            name@ == file_name_of(self@.vm, self@.command),
    {
        file_name(self.vm.as_str(), self.command)
    }

    /// The path of the marker file of this signal below the directory `dir`.
    pub fn path(&self, dir: &str) -> (path: String)
        ensures
            path@ == joined(dir@, file_name_of(self@.vm, self@.command)),
    {
        get_path(dir, self.vm.as_str(), self.command)
    }
}

/// The signals that are due and not yet handed out, oldest first.
#[derive(Debug)]
pub struct CommandQueue {
    pending: Vec<VmCommand>,
}

impl View for CommandQueue {
    type V = Seq<VmCommandView>;

    closed spec fn view(&self) -> Seq<VmCommandView> {
        self.pending@.map_values(|c: VmCommand| c@)
    }
}

impl CommandQueue {
    /// A queue that holds no signal.
    pub fn new() -> (queue: CommandQueue)
        ensures
            queue@.len() == 0,
    {
        CommandQueue { pending: Vec::new() }
    }

    /// The number of signals that wait.
    pub fn len(&self) -> (n: usize)
        ensures
            n == self@.len(),
    {
        self.pending.len()
    }

    /// Hands out the signals that wait, oldest first, and leaves the queue empty.
    pub fn take(&mut self) -> (due: Vec<VmCommand>)
        ensures
            due@.map_values(|c: VmCommand| c@) == old(self)@,
            final(self)@.len() == 0,
    {
        let mut due: Vec<VmCommand> = Vec::new();
        core::mem::swap(&mut due, &mut self.pending);
        due
    }
}

/// Queues a command for the virtual machine `vm`.
pub fn exec_command(queue: &mut CommandQueue, vm: &str, command: Command)
    ensures
        final(queue)@ == old(queue)@.push(VmCommandView { vm: vm@, command }),
{
    let signal = VmCommand { vm: vm.to_owned(), command };
    queue.pending.push(signal);
}

/// Queues the command that starts the virtual machine of a runner.
pub fn start(queue: &mut CommandQueue, runner: &str)
    ensures
        final(queue)@ == old(queue)@.push(VmCommandView { vm: runner@, command: Command::start }),
{
    exec_command(queue, runner, Command::start);
}

/// Queues the command that stops the virtual machine of a runner.
pub fn stop(queue: &mut CommandQueue, runner: &str)
    ensures
        final(queue)@ == old(queue)@.push(VmCommandView { vm: runner@, command: Command::stop }),
{
    exec_command(queue, runner, Command::stop);
}

/// Queues the command that takes a snapshot of the virtual machine of a runner.
pub fn snapshot(queue: &mut CommandQueue, runner: &str)
    ensures
        final(queue)@ == old(queue)@.push(
            VmCommandView { vm: runner@, command: Command::createsnap },
        ),
{
    exec_command(queue, runner, Command::createsnap);
}

/// Queues the command that reverts the virtual machine of a runner to its
/// snapshot.
pub fn reset(queue: &mut CommandQueue, runner: &str)
    ensures
        final(queue)@ == old(queue)@.push(VmCommandView { vm: runner@, command: Command::revert }),
{
    exec_command(queue, runner, Command::revert);
}

} // verus!
