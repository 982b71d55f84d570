//! The server: queues the tasks of the clients and distributes them to the executors.
//!
//! The server's state changes by one step at a time. What has to be done outside, to send a
//! message or to start an executor, is handed back to the caller.

use crate::clock;
use crate::config::ExecConfig;
use crate::history::History;
use crate::ipc::{CallMe, Message, TaskDetails, TaskModel};
use crate::queue::TaskQueue;
use crate::server_model::{ServerModel, PRIORITY_BUMP, UNKNOWN_TASK};
use crate::text::push_decimal;
use std::collections::VecDeque;
use ubyte::{ByteUnit, ToByteUnit};
use vstd::prelude::*;

verus! {

/// What is known of a connection.
#[derive(Debug, Clone, Copy, PartialEq, Eq, Structural)]
pub enum ConnectionType {
    /// It has not sent a message yet.
    Pending,
    /// It has submitted a task.
    Client,
    /// It runs tasks.
    Exec,
    /// Nothing more is expected from it.
    Dead,
}

/// One remote connection.
#[derive(Debug, Clone, Copy)]
pub struct Remote {
    /// What is known of the connection.
    pub conn_type: ConnectionType,
    /// For a client, the executor that was given its task. For an executor, the client whose
    /// task it runs.
    pub paired_id: Option<u32>,
}

/// A message that is to be sent to a remote.
pub struct Delivery {
    /// The remote.
    pub to: usize,
    /// What to send.
    pub message: Message,
    /// If the message cannot be sent: true if the server cannot go on, false if
    /// `forward_failed` is to be called, and the notice that it returns is to be sent.
    pub must_arrive: bool,
}

/// What is to be done after a message has been taken in.
pub struct Reaction {
    /// A message to send, if any.
    pub delivery: Option<Delivery>,
    /// True if the queues have changed and are to be processed.
    pub update: bool,
}

/// How far the processing of the queues has come. It starts with `Starting`.
#[derive(Debug, Clone, Copy, PartialEq, Eq)]
pub enum UpdatePhase {
    /// Executors are started as long as more are needed.
    Starting,
    /// Tasks are given out as long as there are executors.
    Assigning,
    /// Idle executors are released, as no more tasks are coming.
    Releasing,
}

/// What is to be done next in the processing of the queues.
pub enum UpdateStep {
    /// An executor is to be started in a queue, the second one if true. `exec_started` is to be
    /// called when that has been done. The processing goes on with `Starting`.
    Start(bool),
    /// A message is to be sent. The processing goes on with the given phase.
    Send(Delivery, UpdatePhase),
    /// The server's books are not in order: a task is to be given out whose client or executor is
    /// paired already, or an executor is to be released while none is counted as running.
    Clash,
    /// Nothing: the queues have been processed.
    Done,
}

/// A task and the executor that is to run it.
struct Assignment {
    /// The client that submitted the task.
    client_id: usize,
    /// The executor that is to run it.
    exec_id: usize,
    /// The task.
    details: TaskDetails,
}

/// The sum of two byte counts of the `ubyte` crate, which stays at the largest number that can be
/// held.
#[verifier::external_body]
fn add_bytes(total: u64, size: usize) -> (sum: u64)
    ensures
        sum == crate::server_model::byte_sum(total as nat, size as nat),
{
    (ByteUnit::Byte(total) + size.bytes()).as_u64()
}

/// A byte count of the `ubyte` crate divided by a number; the largest count if that is zero.
#[verifier::external_body]
fn divide_bytes(total: u64, divisor: u64) -> (share: u64)
    ensures
        share == crate::server_model::byte_share(total as nat, divisor as nat),
{
    (ByteUnit::Byte(total) / divisor).as_u64()
}

/// The text of a byte count, with a unit of a fitting size.
pub uninterp spec fn byte_count_text(count: u64) -> Seq<char>;

/// The `Display` output of a byte count of the `ubyte` crate. What it looks like is not said.
#[verifier::external_body]
fn show_bytes(count: u64) -> (text: String)
    ensures
        text@ == byte_count_text(count),
{
    ByteUnit::Byte(count).to_string()
}

/// The server's state.
pub struct ServerState {
    /// Connections to clients and executors. The position is the id.
    remotes: Vec<Remote>,
    /// Tasks that no executor has been given yet.
    task_queue: TaskQueue,
    /// Executors that wait for tasks.
    exec_queue: VecDeque<usize>,
    /// Total tasks submitted.
    submit_count: usize,
    /// Total tasks completed.
    finish_count: usize,
    /// Executors that have been started but have not called yet.
    pending_exec_count: usize,
    /// The same, for those of the second queue.
    second_pending_exec_count: usize,
    /// Executors that are running.
    running_exec_count: usize,
    /// When the most recent task came in, if any.
    last_submit_time: Option<u128>,
    /// When something happened last.
    last_activity_time: u128,
    /// User configuration.
    user_config: ExecConfig,
    /// The command that starts an executor.
    start_cmd: String,
    /// The same, for the second queue, if that is in use.
    second_start_cmd: Option<String>,
    /// Elapsed times of prior runs.
    prior_history: History,
    /// Elapsed times of this run.
    in_the_making: History,
    /// Total bytes of output.
    total_bytes: u64,
    /// Bytes of output in the current reporting period.
    bytes_this_period: u64,
    /// Total time that tasks took.
    total_run_time: u128,
    /// Total time to send results back.
    total_send_time: u128,
    /// The longest time to send results back.
    peak_send_time: u128,
}

impl View for ServerState {
    type V = ServerModel;

    closed spec fn view(&self) -> ServerModel {
        ServerModel {
            remotes: self.remotes@,
            tasks: self.task_queue@,
            idle: self.exec_queue@,
            submit_count: self.submit_count as nat,
            finish_count: self.finish_count as nat,
            pending_exec_count: self.pending_exec_count as nat,
            second_pending_exec_count: self.second_pending_exec_count as nat,
            running_exec_count: self.running_exec_count as nat,
            last_submit_time: self.last_submit_time,
            last_activity_time: self.last_activity_time,
            initial_count: self.user_config.initial_count as nat,
            max_count: self.user_config.max_count as nat,
            keep_pending: self.user_config.keep_pending as nat,
            release_delay: self.user_config.release_delay as nat,
            idle_shutdown_after: self.user_config.idle_shutdown_after as nat,
            start_cmd: self.start_cmd@,
            second_start_cmd: match self.second_start_cmd {
                Some(cmd) => Some(cmd@),
                None => None,
            },
            prior_history: self.prior_history@,
            in_the_making: self.in_the_making@,
            total_bytes: self.total_bytes as nat,
            bytes_this_period: self.bytes_this_period as nat,
            total_run_time: self.total_run_time as nat,
            total_send_time: self.total_send_time as nat,
            peak_send_time: self.peak_send_time as nat,
        }
    }
}

fn command_text(cmd: &str, addr: &str, code: u64) -> (text: String)
    ensures
        text@ == crate::server_model::exec_command(cmd@, addr@, code as nat),
{
    let mut text = cmd.to_owned();
    text.append(" exec --callme=");
    text.append(addr);
    text.append(" --code=");
    push_decimal(&mut text, code);
    text
}

impl ServerState {
    /// Every id refers to a remote, and the parts are well formed.
    pub closed spec fn wf(&self) -> bool {
        &&& self.task_queue.wf()
        &&& self.prior_history.wf()
        &&& self.in_the_making.wf()
        &&& self@.valid()
    }

    /// The state of a server that has just started. `max_cpus` overrides the configured maximum,
    /// `alt_start_cmd` asks for the alternate start command, `both_queues` for both.
    pub fn new(
        config: ExecConfig,
        prior_history: History,
        port: &CallMe,
        max_cpus: Option<usize>,
        alt_start_cmd: bool,
        both_queues: bool,
        now: u128,
    ) -> (state: ServerState)
        requires
            prior_history.wf(),
            port.access_code % 2 == 0,
        ensures
            state.wf(),
            state@ == crate::server_model::initial_state(
                config,
                prior_history@,
                *port,
                max_cpus,
                alt_start_cmd,
                both_queues,
                now,
            ),
    {
        let mut user_config: ExecConfig = config;
        if let Some(count) = max_cpus {
            user_config.max_count = count;
        }
        let addr = port.addr.as_str();
        let start_cmd: String = match &user_config.alt_start_cmd {
            Some(cmd) if alt_start_cmd => command_text(cmd.as_str(), addr, port.access_code),
            _ => command_text(user_config.start_cmd.as_str(), addr, port.access_code),
        };
        let second_start_cmd: Option<String> = match &user_config.alt_start_cmd {
            Some(cmd) if both_queues => Some(
                command_text(cmd.as_str(), addr, port.access_code + 1),
            ),
            _ => None,
        };
        let state = ServerState {
            remotes: Vec::new(),
            task_queue: TaskQueue::new(),
            exec_queue: VecDeque::new(),
            submit_count: 0,
            finish_count: 0,
            pending_exec_count: 0,
            second_pending_exec_count: 0,
            running_exec_count: 0,
            last_submit_time: None,
            last_activity_time: now,
            user_config,
            start_cmd,
            second_start_cmd,
            prior_history,
            in_the_making: History::default(),
            total_bytes: 0,
            bytes_this_period: 0,
            total_run_time: 0,
            total_send_time: 0,
            peak_send_time: 0,
        };
        assert(state@ == crate::server_model::initial_state(
            config,
            prior_history@,
            *port,
            max_cpus,
            alt_start_cmd,
            both_queues,
            now,
        ));
        state
    }

    /// The command that starts an executor, of the first or the second queue. Without a second
    /// queue there is none for that.
    pub fn start_command(&self, second_queue: bool) -> (cmd: Option<&str>)
        ensures
            match cmd {
                Some(cmd) => Some(cmd@) == self@.command(second_queue),
                None => self@.command(second_queue) is None,
            },
    {
        if second_queue {
            match &self.second_start_cmd {
                Some(cmd) => Some(cmd.as_str()),
                None => None,
            }
        } else {
            Some(self.start_cmd.as_str())
        }
    }

    /// Resets the inactivity timer.
    pub fn activity_occurred(&mut self, now: u128)
        requires
            old(self).wf(),
        ensures
            final(self).wf(),
            final(self)@ == (ServerModel { last_activity_time: now, ..old(self)@ }),
    {
        self.last_activity_time = now;
    }

    /// True if no tasks are queued, no executor runs, and no activity has occurred within the
    /// shutdown period.
    pub fn ok_to_shutdown(&self, now: u128) -> (ok: bool)
        requires
            self.wf(),
        ensures
            ok == self@.ok_to_shutdown(now),
    {
        let count = self.task_queue.len();
        proof {
            if self@.tasks.dom().len() == 0 {
                assert(self@.tasks.dom() =~= Set::<(nat, TaskModel)>::empty());
            }
        }
        count == 0 && self.running_exec_count == 0 && clock::whole_seconds(
            self.last_activity_time,
            now,
        ) > self.user_config.idle_shutdown_after as u128
    }

    /// Takes out what has been recorded in this run, to be written before the server shuts down.
    pub fn shutdown(&mut self) -> (recorded: Option<History>)
        requires
            old(self).wf(),
        ensures
            final(self).wf(),
            final(self)@ == (ServerModel { in_the_making: Map::empty(), ..old(self)@ }),
            match recorded {
                Some(history) => history.wf() && history@ == old(self)@.in_the_making && history@
                    != Map::<Seq<char>, (u128, u128)>::empty(),
                None => old(self)@.in_the_making == Map::<Seq<char>, (u128, u128)>::empty(),
            },
    {
        if self.in_the_making.is_empty() {
            None
        } else {
            let mut recorded = History::default();
            std::mem::swap(&mut recorded, &mut self.in_the_making);
            Some(recorded)
        }
    }

    /// Adds a new remote which has connected to the server, and returns its id.
    pub fn add_remote(&mut self) -> (id: usize)
        requires
            old(self).wf(),
        ensures
            final(self).wf(),
            id == old(self)@.remotes.len(),
            final(self)@ == old(self)@.remote_added(),
    {
        self.remotes.push(Remote { conn_type: ConnectionType::Pending, paired_id: None });
        assert(self@ == old(self)@.remote_added());
        self.remotes.len() - 1
    }

    /// The priority of a task, or the largest number if that is greater.
    pub fn priority(&self, details: &TaskDetails) -> (priority: u128)
        requires
            self.wf(),
        ensures
            priority as int == (if self@.priority(details@) <= u128::MAX {
                self@.priority(details@) as int
            } else {
                u128::MAX as int
            }),
    {
        let target_id = details.get_target_id();
        let prior: u128 = match self.prior_history.get(target_id.as_str()) {
            Some(elapsed) => elapsed,
            None => UNKNOWN_TASK,
        };
        if details.priority_task {
            if prior <= u128::MAX - PRIORITY_BUMP {
                prior + PRIORITY_BUMP
            } else {
                u128::MAX
            }
        } else {
            prior
        }
    }

    /// True if the message from a remote can be handled in this state.
    pub fn accepts(&self, id: usize, message: &Message) -> (accepts: bool)
        requires
            self.wf(),
        ensures
            accepts == self@.accepts(id, *message),
    {
        if id >= self.remotes.len() {
            return false;
        }
        let remote = self.remotes[id];
        match message {
            Message::YourObedientServant { .. } => self.running_exec_count < usize::MAX,
            Message::Task { access_code: _, user_code: _, details } => {
                self.submit_count < usize::MAX && self.priority(details) <= clock::LONGEST_SPAN
            },
            Message::TaskOutput { .. } => remote.paired_id.is_some(),
            Message::TaskDone { exit_code: _, target_id: _, run_time, send_time } => {
                remote.paired_id.is_some() && self.finish_count < usize::MAX
                    && fits(self.total_run_time, *run_time) && fits(
                    self.total_send_time,
                    *send_time,
                )
            },
            Message::TaskFailed { .. } => {
                remote.paired_id.is_some() && self.finish_count < usize::MAX
            },
            Message::Dropped => {
                remote.conn_type != ConnectionType::Exec || self.running_exec_count > 0
            },
            Message::LastTaskSent => false,
            Message::CancelTask => false,
            Message::PissOff => false,
        }
    }

    fn set_type(&mut self, id: usize, conn_type: ConnectionType)
        requires
            old(self).wf(),
            id < old(self)@.remotes.len(),
        ensures
            final(self).wf(),
            final(self)@ == old(self)@.with_type(id as int, conn_type),
    {
        let paired_id = self.remotes[id].paired_id;
        self.remotes.set(id, Remote { conn_type, paired_id });
        assert(self@ == old(self)@.with_type(id as int, conn_type));
        assert forall|i: int| 0 <= i < self@.remotes.len() implies (
        (#[trigger] self@.remotes[i]).paired_id matches Some(other) ==> other
            < self@.remotes.len()) by {
            assert(self@.remotes[i].paired_id == old(self)@.remotes[i].paired_id);
        }
    }

    fn set_pair(&mut self, id: usize, paired_id: Option<u32>)
        requires
            old(self).wf(),
            id < old(self)@.remotes.len(),
            paired_id matches Some(other) ==> other < old(self)@.remotes.len(),
        ensures
            final(self).wf(),
            final(self)@ == old(self)@.with_pair(id as int, paired_id),
    {
        let conn_type = self.remotes[id].conn_type;
        self.remotes.set(id, Remote { conn_type, paired_id });
        assert(self@ == old(self)@.with_pair(id as int, paired_id));
        assert forall|i: int| 0 <= i < self@.remotes.len() implies (
        (#[trigger] self@.remotes[i]).paired_id matches Some(other) ==> other
            < self@.remotes.len()) by {
            assert(i != id ==> self@.remotes[i] == old(self)@.remotes[i]);
        }
    }

    /// An executor is ready for a task, either because it is new or because it has completed one.
    fn exec_is_ready(&mut self, id: usize)
        requires
            old(self).wf(),
            id < old(self)@.remotes.len(),
        ensures
            final(self).wf(),
            final(self)@ == old(self)@.exec_is_ready(id),
    {
        self.set_pair(id, None);
        self.exec_queue.push_back(id);
        assert(self@ == old(self)@.exec_is_ready(id));
    }

    /// A remote has told that its task has ended. Only an executor is then ready for another.
    fn task_ended(&mut self, id: usize)
        requires
            old(self).wf(),
            id < old(self)@.remotes.len(),
        ensures
            final(self).wf(),
            final(self)@ == old(self)@.task_ended(id),
    {
        if self.remotes[id].conn_type == ConnectionType::Exec {
            self.exec_is_ready(id);
        }
    }

    /// A remote is identified by its first message. This one is an executor and is ready for a
    /// task.
    fn remote_is_exec(&mut self, id: usize, second_queue: bool)
        requires
            old(self).wf(),
            id < old(self)@.remotes.len(),
            old(self)@.running_exec_count < usize::MAX,
        ensures
            final(self).wf(),
            final(self)@ == old(self)@.remote_is_exec(id, second_queue),
    {
        self.set_type(id, ConnectionType::Exec);
        self.running_exec_count = self.running_exec_count + 1;
        if !second_queue && self.pending_exec_count > 0 {
            self.pending_exec_count = self.pending_exec_count - 1;
        } else if second_queue && self.second_pending_exec_count > 0 {
            self.second_pending_exec_count = self.second_pending_exec_count - 1;
        }
        self.exec_is_ready(id);
    }

    /// A remote is identified by its first message. This one is a client and has submitted a task.
    fn remote_is_client(&mut self, id: usize, details: TaskDetails, now: u128)
        requires
            old(self).wf(),
            id < old(self)@.remotes.len(),
            old(self)@.priority(details@) <= clock::LONGEST_SPAN,
        ensures
            final(self).wf(),
            final(self)@ == old(self)@.remote_is_client(id, details@, now),
    {
        let priority = self.priority(&details);
        self.set_type(id, ConnectionType::Client);
        self.task_queue.push(id, details, priority, self.submit_count);
        self.last_submit_time = Some(now);
        assert(self@ == old(self)@.remote_is_client(id, details@, now));
    }

    /// The delivery of a message to the remote that is paired with the given one: given an
    /// executor, to the client that submitted the task, and given a client, to the executor of its
    /// task. One that is dead gets nothing.
    fn to_paired_remote(&self, id: usize, message: Message) -> (delivery: Option<Delivery>)
        requires
            self.wf(),
            id < self@.remotes.len(),
            self@.remotes[id as int].paired_id is Some,
        ensures
            ({
                let other = self@.remotes[id as int].paired_id->0;
                if self@.passes_on(id) {
                    delivery == Some(
                        Delivery { to: other as usize, message, must_arrive: false },
                    )
                } else {
                    delivery is None
                }
            }),
    {
        match self.remotes[id].paired_id {
            Some(other) => {
                let to: usize = other as usize;
                let other_type = self.remotes[to].conn_type;
                if other_type == ConnectionType::Client || (self.remotes[id].conn_type
                    == ConnectionType::Client && other_type == ConnectionType::Exec) {
                    Some(Delivery { to, message, must_arrive: false })
                } else {
                    None
                }
            },
            None => None,
        }
    }

    /// A connection was dropped, perhaps expectedly, perhaps not. Returns the notice to the client
    /// whose task is lost, if there is one.
    fn handle_dropped(&mut self, id: usize) -> (notice: Option<Delivery>)
        requires
            old(self).wf(),
            old(self)@.accepts(id, Message::Dropped),
        ensures
            final(self).wf(),
            final(self)@ == old(self)@.dropped(id),
            old(self)@.delivers(id, Message::Dropped, notice),
    {
        let remote = self.remotes[id];
        let mut notice: Option<Delivery> = None;
        if remote.conn_type == ConnectionType::Exec {
            if let Some(other) = remote.paired_id {
                let message = Message::TaskFailed {
                    error_message: "exec dropped connection".to_owned(),
                };
                notice = Some(Delivery { to: other as usize, message, must_arrive: true });
            }
            self.running_exec_count = self.running_exec_count - 1;
        }
        self.set_type(id, ConnectionType::Dead);
        let ghost marked = self@;
        remove_id(&mut self.exec_queue, id);
        proof {
            crate::server_model::law_without(marked.idle, id);
            assert(self@ == (ServerModel {
                idle: crate::server_model::without(marked.idle, id),
                ..marked
            }));
            assert forall|i: int| 0 <= i < self@.idle.len() implies #[trigger] self@.idle[i]
                < self@.remotes.len() by {
                assert(self@.idle.contains(self@.idle[i]));
                assert(marked.idle.contains(self@.idle[i]));
            }
        }
        notice
    }

    /// Handles a message from a client or an executor. Often this involves forwarding it to
    /// another remote.
    pub fn handle_msg(&mut self, id: usize, message: Message, now: u128) -> (reaction: Reaction)
        requires
            old(self).wf(),
            old(self)@.accepts(id, message),
        ensures
            final(self).wf(),
            final(self)@ == old(self)@.after_message(id, message, now),
            old(self)@.delivers(id, message, reaction.delivery),
            reaction.update == ServerModel::updates(message),
    {
        match message {
            Message::YourObedientServant { access_code, user_code: _ } => {
                // The last bit of the access code tells the second queue from the first.
                self.remote_is_exec(id, access_code % 2 == 1);
                Reaction { delivery: None, update: true }
            },
            Message::Task { access_code: _, user_code: _, details } => {
                self.submit_count = self.submit_count + 1;
                self.remote_is_client(id, details, now);
                Reaction { delivery: None, update: true }
            },
            Message::TaskOutput { output_type, content } => {
                self.total_bytes = add_bytes(self.total_bytes, content.len());
                self.bytes_this_period = add_bytes(self.bytes_this_period, content.len());
                let delivery = self.to_paired_remote(
                    id,
                    Message::TaskOutput { output_type, content },
                );
                Reaction { delivery, update: false }
            },
            Message::TaskDone { exit_code, target_id, run_time, send_time } => {
                if let Some(code) = exit_code {
                    if code == 0 {
                        self.in_the_making.test_update(target_id.as_str(), run_time, now);
                    }
                }
                let delivery = self.to_paired_remote(
                    id,
                    Message::TaskDone { exit_code, target_id, run_time, send_time },
                );
                self.finish_count = self.finish_count + 1;
                self.task_ended(id);
                self.total_run_time = self.total_run_time + run_time;
                self.total_send_time = self.total_send_time + send_time;
                if send_time > self.peak_send_time {
                    self.peak_send_time = send_time;
                }
                Reaction { delivery, update: true }
            },
            Message::TaskFailed { error_message } => {
                let delivery = self.to_paired_remote(id, Message::TaskFailed { error_message });
                self.finish_count = self.finish_count + 1;
                self.task_ended(id);
                Reaction { delivery, update: true }
            },
            Message::Dropped => {
                let delivery = self.handle_dropped(id);
                Reaction { delivery, update: false }
            },
            Message::LastTaskSent => Reaction { delivery: None, update: false },
            Message::CancelTask => Reaction { delivery: None, update: false },
            Message::PissOff => Reaction { delivery: None, update: false },
        }
    }

    /// A message could not be forwarded to a remote, which has gone. If that is an executor, it is
    /// dropped: returns the notice to the client whose task is lost, if there is one.
    pub fn forward_failed(&mut self, id: usize) -> (notice: Option<Delivery>)
        requires
            old(self).wf(),
            old(self)@.accepts(id, Message::Dropped),
        ensures
            final(self).wf(),
            if old(self)@.remotes[id as int].conn_type is Exec {
                &&& final(self)@ == old(self)@.dropped(id)
                &&& old(self)@.delivers(id, Message::Dropped, notice)
            } else {
                &&& final(self)@ == old(self)@.with_type(id as int, ConnectionType::Dead)
                &&& notice is None
            },
            final(self)@ == old(self)@.unreachable(id),
    {
        if self.remotes[id].conn_type == ConnectionType::Exec {
            self.handle_dropped(id)
        } else {
            self.set_type(id, ConnectionType::Dead);
            None
        }
    }

    fn wants_exec(&self, pending: usize, keep_pending: u128) -> (wants: bool)
        requires
            self.wf(),
        ensures
            wants == self@.wants_exec(pending as nat, keep_pending as nat),
    {
        let total: u128 = self.running_exec_count as u128 + self.pending_exec_count as u128
            + self.second_pending_exec_count as u128;
        total < self.task_queue.len() as u128 && total < self.user_config.max_count as u128 && (
        pending as u128) < keep_pending
    }

    /// Decides if another executor is to be started: the queue in which to start it, true for the
    /// second.
    fn next_start(&self) -> (queue: Option<bool>)
        requires
            self.wf(),
        ensures
            queue == self@.next_start(),
    {
        let (_, wanted) = self.exec_counts();
        if self.second_start_cmd.is_some() {
            let half: u128 = (wanted as u128 + 1) / 2;
            if self.wants_exec(self.pending_exec_count, half) {
                Some(false)
            } else if self.wants_exec(self.second_pending_exec_count, half) {
                Some(true)
            } else {
                None
            }
        } else if self.wants_exec(self.pending_exec_count, wanted as u128) {
            Some(false)
        } else {
            None
        }
    }

    fn exec_counts(&self) -> (counts: (usize, usize))
        ensures
            counts.0 == self@.init_needed(),
            counts.1 == self@.pending_wanted(),
    {
        let needed: usize = if self.user_config.initial_count > self.running_exec_count {
            self.user_config.initial_count - self.running_exec_count
        } else {
            0
        };
        let wanted: usize = if self.user_config.keep_pending > needed {
            self.user_config.keep_pending
        } else {
            needed
        };
        (needed, wanted)
    }

    /// What a user who wants to know everything is told before executors are started. There is
    /// nothing to tell if no tasks are queued.
    pub fn start_report(&self) -> (report: Option<String>)
        requires
            self.wf(),
        ensures
            match report {
                Some(line) => self@.tasks.len() > 0 && line@ == self@.start_line(),
                None => self@.tasks.len() == 0,
            },
    {
        let queued: usize = self.task_queue.len();
        if queued == 0 {
            return None;
        }
        let (needed, wanted) = self.exec_counts();
        let mut line = "SprayCC: start execs: queue=".to_owned();
        push_decimal(&mut line, queued as u64);
        line.append(", running=");
        push_decimal(&mut line, self.running_exec_count as u64);
        line.append(", pending=");
        push_decimal(&mut line, self.pending_exec_count as u64);
        line.append(",");
        push_decimal(&mut line, self.second_pending_exec_count as u64);
        line.append(" init_needed=");
        push_decimal(&mut line, needed as u64);
        line.append(", keep_pending=");
        push_decimal(&mut line, wanted as u64);
        Some(line)
    }

    /// The executor that was to be started next has been started.
    pub fn exec_started(&mut self, second_queue: bool)
        requires
            old(self).wf(),
            old(self)@.next_start() == Some(second_queue),
        ensures
            final(self).wf(),
            final(self)@ == old(self)@.exec_started(second_queue),
    {
        if second_queue {
            self.second_pending_exec_count = self.second_pending_exec_count + 1;
        } else {
            self.pending_exec_count = self.pending_exec_count + 1;
        }
    }

    /// Takes out the next task and the executor that has been idle for longest, if there are
    /// both. The next task is the one of the greatest priority that was submitted first.
    fn check_queues(&mut self) -> (assignment: Option<Assignment>)
        requires
            old(self).wf(),
        ensures
            final(self).wf(),
            match assignment {
                Some(next) => {
                    let task = (next.client_id as nat, next.details@);
                    &&& old(self)@.is_next_task(task)
                    &&& old(self)@.idle.len() > 0
                    &&& next.exec_id == old(self)@.idle[0]
                    &&& final(self)@ == old(self)@.taken(task)
                },
                None => {
                    &&& final(self)@ == old(self)@
                    &&& old(self)@.tasks.dom() == Set::<(nat, TaskModel)>::empty() || old(
                        self,
                    )@.idle.len() == 0
                },
            },
    {
        if self.exec_queue.len() == 0 {
            return None;
        }
        match self.task_queue.pop() {
            Some((client_id, details)) => match self.exec_queue.pop_front() {
                Some(exec_id) => {
                    let ghost task = (client_id as nat, details@);
                    assert(self@.idle =~= old(self)@.idle.drop_first());
                    assert(self@ == old(self)@.taken(task));
                    assert forall|i: int| 0 <= i < self@.idle.len() implies #[trigger] self@.idle[i]
                        < self@.remotes.len() by {
                        assert(self@.idle[i] == old(self)@.idle[i + 1]);
                    }
                    Some(Assignment { client_id, exec_id, details })
                },
                None => None,
            },
            None => None,
        }
    }

    /// True if a task of the client can be given to the executor: they are two remotes, and
    /// neither is paired.
    fn can_pair(&self, client_id: usize, exec_id: usize) -> (can: bool)
        ensures
            can == self@.can_pair(client_id, exec_id),
    {
        client_id != exec_id && client_id < self.remotes.len() && exec_id < self.remotes.len()
            && self.remotes[client_id].paired_id.is_none()
            && self.remotes[exec_id].paired_id.is_none()
    }

    /// Pairs the client with the executor, and returns the task to send to the executor.
    fn pair(&mut self, assignment: Assignment) -> (delivery: Delivery)
        requires
            old(self).wf(),
            old(self)@.can_pair(assignment.client_id, assignment.exec_id),
        ensures
            final(self).wf(),
            final(self)@ == old(self)@.paired(assignment.client_id, assignment.exec_id),
            delivery.to == assignment.exec_id,
            delivery.must_arrive,
            delivery.message == (Message::Task {
                access_code: 0,
                user_code: 0,
                details: assignment.details,
            }),
    {
        let client_id: usize = assignment.client_id;
        let exec_id: usize = assignment.exec_id;
        let client_pair: u32 = (client_id as u64 % 0x1_0000_0000) as u32;
        let exec_pair: u32 = (exec_id as u64 % 0x1_0000_0000) as u32;
        self.set_pair(client_id, Some(exec_pair));
        self.set_pair(exec_id, Some(client_pair));
        Delivery {
            to: exec_id,
            message: Message::Task {
                access_code: 0,
                user_code: 0,
                details: assignment.details,
            },
            must_arrive: true,
        }
    }

    /// True if no more tasks are coming, so that idle executors are released.
    fn ok_to_release(&self, now: u128) -> (ok: bool)
        ensures
            ok == self@.ok_to_release(now),
    {
        match self.last_submit_time {
            Some(time) => clock::whole_seconds(time, now) > self.user_config.release_delay as u128,
            None => false,
        }
    }

    /// Takes out the executor that has been idle for longest, if there is one, and returns the
    /// order to terminate.
    fn next_release(&mut self) -> (order: Option<Delivery>)
        requires
            old(self).wf(),
        ensures
            final(self).wf(),
            match order {
                Some(order) => {
                    &&& old(self)@.idle.len() > 0
                    &&& order.to == old(self)@.idle[0]
                    &&& order.message == Message::PissOff
                    &&& order.must_arrive
                    &&& final(self)@ == old(self)@.releasing()
                },
                None => old(self)@.idle.len() == 0 && final(self)@ == old(self)@,
            },
    {
        match self.exec_queue.pop_front() {
            Some(exec_id) => {
                assert(self@.idle =~= old(self)@.idle.drop_first());
                assert forall|i: int| 0 <= i < self@.idle.len() implies #[trigger] self@.idle[i]
                    < self@.remotes.len() by {
                    assert(self@.idle[i] == old(self)@.idle[i + 1]);
                }
                self.set_type(exec_id, ConnectionType::Dead);
                assert(self@ == old(self)@.releasing());
                Some(Delivery { to: exec_id, message: Message::PissOff, must_arrive: true })
            },
            None => None,
        }
    }

    /// Processes the queues by one step: executors are started as long as more are needed, then
    /// tasks are given out as long as there are executors, and then idle executors are released if
    /// no more tasks are coming.
    pub fn update(&mut self, phase: UpdatePhase, now: u128) -> (step: UpdateStep)
        requires
            old(self).wf(),
        ensures
            final(self).wf(),
            old(self)@.update_leads_to(phase, now, step, final(self)@),
    {
        if matches!(phase, UpdatePhase::Starting) {
            if let Some(second_queue) = self.next_start() {
                return UpdateStep::Start(second_queue);
            }
        }
        if !matches!(phase, UpdatePhase::Releasing) {
            if let Some(assignment) = self.check_queues() {
                let ghost task = (assignment.client_id as nat, assignment.details@);
                assert(old(self)@.is_next_task(task));
                if !self.can_pair(assignment.client_id, assignment.exec_id) {
                    return UpdateStep::Clash;
                }
                return UpdateStep::Send(self.pair(assignment), UpdatePhase::Assigning);
            }
            if !self.ok_to_release(now) {
                return UpdateStep::Done;
            }
        }
        match self.next_release() {
            Some(order) => {
                if self.running_exec_count == 0 {
                    return UpdateStep::Clash;
                }
                self.running_exec_count = self.running_exec_count - 1;
                UpdateStep::Send(order, UpdatePhase::Releasing)
            },
            None => UpdateStep::Done,
        }
    }

    /// The number of running executors.
    pub fn running_execs(&self) -> (count: usize)
        ensures
            count == self@.running_exec_count,
    {
        self.running_exec_count
    }

    /// True if the status can be reported: no more tasks are finished or queued than submitted.
    pub fn can_report(&self) -> (can: bool)
        requires
            self.wf(),
        ensures
            can == (self@.running_tasks() >= 0),
    {
        self.finish_count <= self.submit_count && self.task_queue.len() <= self.submit_count
            - self.finish_count
    }

    /// The status line, for the given length of the reporting period in seconds. There is none
    /// while the server is idle.
    pub fn report_status(&self, reporting_period: u64) -> (status: Option<String>)
        requires
            self.wf(),
            self@.running_tasks() >= 0,
        ensures
            match status {
                Some(line) => self@.busy() && line@ == self@.status_line(reporting_period),
                None => !self@.busy(),
            },
    {
        let running: usize = self.submit_count - self.finish_count - self.task_queue.len();
        if running > 0 || self.running_exec_count > 0 || self.bytes_this_period > 0 {
            let mut line = "SprayCC: ".to_owned();
            push_decimal(&mut line, self.finish_count as u64);
            line.append(" / ");
            push_decimal(&mut line, self.submit_count as u64);
            line.append(" finished, ");
            push_decimal(&mut line, running as u64);
            line.append(" running, ");
            push_decimal(&mut line, self.running_exec_count as u64);
            line.append(" executors, ");
            line.append(
                show_bytes(divide_bytes(self.bytes_this_period, reporting_period)).as_str(),
            );
            line.append(" / sec");
            Some(line)
        } else {
            None
        }
    }

    /// Starts a new reporting period.
    pub fn start_period(&mut self)
        requires
            old(self).wf(),
        ensures
            final(self).wf(),
            final(self)@ == (ServerModel { bytes_this_period: 0, ..old(self)@ }),
    {
        self.bytes_this_period = 0;
    }

    /// Total bytes of output, as text.
    pub fn total_bytes(&self) -> (text: String)
        ensures
            text@ == byte_count_text(self@.total_bytes as u64),
    {
        show_bytes(self.total_bytes)
    }

    /// The total time that tasks took, the total time to send results back and the longest time
    /// to send results back.
    pub fn task_times(&self) -> (times: (u128, u128, u128))
        ensures
            times.0 == self@.total_run_time,
            times.1 == self@.total_send_time,
            times.2 == self@.peak_send_time,
    {
        (self.total_run_time, self.total_send_time, self.peak_send_time)
    }
}

/// True if the codes of a message that opens a connection are those that the server expects. The
/// last bit of an executor's access code is free. Other messages need none.
pub open spec fn authorized(message: Message, server_access_code: u64, user_private_key: u64) -> bool {
    match message {
        Message::YourObedientServant { access_code, user_code } => access_code / 2 * 2
            == server_access_code && user_code == user_private_key,
        Message::Task { access_code, user_code, .. } => access_code == server_access_code
            && user_code == user_private_key,
        _ => true,
    }
}

/// What the server gets to see of a message that has come in: the message itself, or, if its
/// codes are wrong, that the connection was dropped.
pub fn screen_message(
    message: Message,
    server_access_code: u64,
    user_private_key: u64,
) -> (seen: Message)
    ensures
        seen == (if authorized(message, server_access_code, user_private_key) {
            message
        } else {
            Message::Dropped
        }),
{
    let refused: bool = match &message {
        Message::YourObedientServant { access_code, user_code } => {
            let code: u64 = *access_code;
            assert(code & !1u64 == code / 2 * 2) by (bit_vector);
            code & !1u64 != server_access_code || *user_code != user_private_key
        },
        Message::Task { access_code, user_code, details: _ } => {
            *access_code != server_access_code || *user_code != user_private_key
        },
        _ => false,
    };
    if refused {
        Message::Dropped
    } else {
        message
    }
}

/// A network interface of this host.
#[derive(Debug, Clone, PartialEq, Eq)]
pub struct Interface {
    /// Its name.
    pub name: String,
    /// Its address.
    pub ip: String,
    /// True if it leads back to this host only.
    pub loopback: bool,
}

/// Which address the server listens on.
#[derive(Debug, PartialEq, Eq)]
pub enum NetworkAddr {
    /// The loopback address: the host has no other interface.
    Loopback,
    /// The address of the only other interface, which is at this position.
    Only(usize),
    /// The address of the first of several other interfaces, which is at this position.
    FirstOf(usize),
}

/// The positions of the interfaces that lead to the network.
pub open spec fn network_interfaces(interfaces: Seq<Interface>) -> Seq<int>
    decreases interfaces.len(),
{
    if interfaces.len() == 0 {
        Seq::empty()
    } else {
        let before = network_interfaces(interfaces.drop_last());
        if interfaces.last().loopback {
            before
        } else {
            before.push(interfaces.len() - 1)
        }
    }
}

/// Picks the address to listen on: that of the first interface which is not a loopback.
pub fn get_network_addr(interfaces: &Vec<Interface>) -> (addr: NetworkAddr)
    ensures
        match addr {
            NetworkAddr::Loopback => network_interfaces(interfaces@).len() == 0,
            NetworkAddr::Only(i) => network_interfaces(interfaces@) == seq![i as int],
            NetworkAddr::FirstOf(i) => network_interfaces(interfaces@).len() > 1
                && network_interfaces(interfaces@)[0] == i,
        },
{
    let mut addr = NetworkAddr::Loopback;
    let mut i: usize = 0;
    while i < interfaces.len()
        invariant
            i <= interfaces@.len(),
            match addr {
                NetworkAddr::Loopback => network_interfaces(interfaces@.take(i as int)).len() == 0,
                NetworkAddr::Only(k) => network_interfaces(interfaces@.take(i as int)) == seq![
                    k as int,
                ],
                NetworkAddr::FirstOf(k) => network_interfaces(interfaces@.take(i as int)).len() > 1
                    && network_interfaces(interfaces@.take(i as int))[0] == k,
            },
        decreases interfaces@.len() - i,
    {
        assert(interfaces@.take(i + 1).drop_last() =~= interfaces@.take(i as int));
        if !interfaces[i].loopback {
            addr = match addr {
                NetworkAddr::Loopback => NetworkAddr::Only(i),
                NetworkAddr::Only(k) => NetworkAddr::FirstOf(k),
                NetworkAddr::FirstOf(k) => NetworkAddr::FirstOf(k),
            };
        }
        i = i + 1;
    }
    assert(interfaces@.take(i as int) =~= interfaces@);
    addr
}

/// Takes an id out of a queue. The others keep their order.
fn remove_id(queue: &mut VecDeque<usize>, id: usize)
    ensures
        final(queue)@ == crate::server_model::without(old(queue)@, id),
{
    let ghost all = queue@;
    let ghost mut seen: Seq<usize> = Seq::empty();
    let mut kept: VecDeque<usize> = VecDeque::new();
    proof {
        reveal(Seq::filter);
    }
    assert(seen + queue@ =~= all);
    assert(kept@ =~= crate::server_model::without(seen, id));
    loop
        invariant
            seen + queue@ == all,
            kept@ == crate::server_model::without(seen, id),
        ensures
            kept@ == crate::server_model::without(all, id),
        decreases queue@.len(),
    {
        let ghost before = queue@;
        match queue.pop_front() {
            Some(next) => {
                let ghost was = seen;
                proof {
                    reveal(Seq::filter);
                    seen = seen.push(next);
                    assert(seen.drop_last() =~= was);
                    assert(before =~= seq![next] + queue@);
                    assert(seen + queue@ =~= all);
                }
                if next != id {
                    kept.push_back(next);
                }
            },
            None => {
                assert(seen =~= all);
                break;
            },
        }
    }
    *queue = kept;
}

fn fits(total: u128, more: u128) -> (fits: bool)
    ensures
        fits == (total + more <= clock::LONGEST_SPAN),
{
    total <= clock::LONGEST_SPAN && more <= clock::LONGEST_SPAN - total
}

} // verus!
