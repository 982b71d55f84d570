//! The server's state and its steps, as mathematics.

use crate::clock;
use crate::config::ExecConfig;
use crate::ipc::{CallMe, Message, TaskModel};
use crate::server::{ConnectionType, Delivery, Remote, UpdatePhase, UpdateStep};
use vstd::prelude::*;

verus! {

/// The server's state.
pub struct ServerModel {
    pub remotes: Seq<Remote>,
    pub tasks: Map<(nat, TaskModel), crate::queue::Rank>,
    pub idle: Seq<usize>,
    pub submit_count: nat,
    pub finish_count: nat,
    pub pending_exec_count: nat,
    pub second_pending_exec_count: nat,
    pub running_exec_count: nat,
    pub last_submit_time: Option<u128>,
    pub last_activity_time: u128,
    pub initial_count: nat,
    pub max_count: nat,
    pub keep_pending: nat,
    pub release_delay: nat,
    pub idle_shutdown_after: nat,
    pub start_cmd: Seq<char>,
    pub second_start_cmd: Option<Seq<char>>,
    pub prior_history: crate::history::Records,
    pub in_the_making: crate::history::Records,
    pub total_bytes: nat,
    pub bytes_this_period: nat,
    pub total_run_time: nat,
    pub total_send_time: nat,
    pub peak_send_time: nat,
}

/// The priority of a task that has not been run before.
pub const UNKNOWN_TASK: u128 = 1_000_000_000;

/// What a priority task is preferred by: more than a task of five minutes.
pub const PRIORITY_BUMP: u128 = 300_000_000_000;

/// The command that starts an executor.
pub open spec fn exec_command(cmd: Seq<char>, addr: Seq<char>, code: nat) -> Seq<char> {
    cmd + " exec --callme="@ + addr + " --code="@ + crate::text::decimal(code)
}

/// The id under which a remote is paired.
pub open spec fn pair_id(id: usize) -> u32 {
    (id as int % 0x1_0000_0000) as u32
}

/// The sum of two byte counts, which stays at the largest number that can be held.
pub open spec fn byte_sum(a: nat, b: nat) -> nat {
    if a + b <= u64::MAX {
        a + b
    } else {
        u64::MAX as nat
    }
}

/// A byte count divided by a number; the largest count that can be held if that is zero.
pub open spec fn byte_share(total: nat, divisor: nat) -> nat {
    if divisor == 0 {
        u64::MAX as nat
    } else {
        total / divisor
    }
}

/// The state of a server that has just started.
pub open spec fn initial_state(
    config: ExecConfig,
    prior_history: crate::history::Records,
    port: CallMe,
    max_cpus: Option<usize>,
    alt_start_cmd: bool,
    both_queues: bool,
    now: u128,
) -> ServerModel {
    ServerModel {
        remotes: Seq::empty(),
        tasks: Map::empty(),
        idle: Seq::empty(),
        submit_count: 0,
        finish_count: 0,
        pending_exec_count: 0,
        second_pending_exec_count: 0,
        running_exec_count: 0,
        last_submit_time: None,
        last_activity_time: now,
        initial_count: config.initial_count as nat,
        max_count: match max_cpus {
            Some(count) => count as nat,
            None => config.max_count as nat,
        },
        keep_pending: config.keep_pending as nat,
        release_delay: config.release_delay as nat,
        idle_shutdown_after: config.idle_shutdown_after as nat,
        start_cmd: exec_command(
            match config.alt_start_cmd {
                Some(cmd) if alt_start_cmd => cmd@,
                _ => config.start_cmd@,
            },
            port.addr@,
            port.access_code as nat,
        ),
        second_start_cmd: match config.alt_start_cmd {
            Some(cmd) if both_queues => Some(
                exec_command(cmd@, port.addr@, port.access_code as nat + 1),
            ),
            _ => None,
        },
        prior_history,
        in_the_making: Map::empty(),
        total_bytes: 0,
        bytes_this_period: 0,
        total_run_time: 0,
        total_send_time: 0,
        peak_send_time: 0,
    }
}

/// The ids without the given one, in their order.
pub open spec fn without(ids: Seq<usize>, id: usize) -> Seq<usize> {
    ids.filter(|x: usize| x != id)
}

/// Law: taking an id out of a queue leaves all the others in it, in their order, and nothing else.
pub proof fn law_without(ids: Seq<usize>, id: usize)
    ensures
        without(ids, id).len() <= ids.len(),
        !without(ids, id).contains(id),
        forall|x: usize| x != id ==> (#[trigger] without(ids, id).contains(x) <==> ids.contains(x)),
        ids.no_duplicates() ==> without(ids, id).no_duplicates(),
        !ids.contains(id) ==> without(ids, id) == ids,
    decreases ids.len(),
{
    reveal(Seq::filter);
    if ids.len() > 0 {
        let front = ids.drop_last();
        let last = ids.last();
        let rest = without(front, id);
        let all = without(ids, id);
        law_without(front, id);
        assert(ids =~= front.push(last));
        assert forall|x: usize| ids.contains(x) <==> front.contains(x) || x == last by {
            if front.contains(x) {
                let i = choose|i: int| 0 <= i < front.len() && front[i] == x;
                assert(ids[i] == x);
            }
            if x == last {
                assert(ids[ids.len() - 1] == x);
            }
            if ids.contains(x) && x != last {
                let i = choose|i: int| 0 <= i < ids.len() && ids[i] == x;
                assert(front[i] == x);
            }
        }
        assert forall|x: usize| all.contains(x) <==> rest.contains(x) || (last != id && x
            == last) by {
            if rest.contains(x) {
                let i = choose|i: int| 0 <= i < rest.len() && rest[i] == x;
                assert(all[i] == x);
            }
            if last != id && x == last {
                assert(all[all.len() - 1] == x);
            }
            if all.contains(x) {
                let i = choose|i: int| 0 <= i < all.len() && all[i] == x;
                if i < rest.len() {
                    assert(rest[i] == x);
                }
            }
        }
        if ids.no_duplicates() {
            assert(front.no_duplicates());
            if last != id {
                assert(!rest.contains(last)) by {
                    if front.contains(last) {
                        let i = choose|i: int| 0 <= i < front.len() && front[i] == last;
                        assert(ids[i] == ids[ids.len() - 1]);
                    }
                }
                assert forall|i: int, j: int| 0 <= i < j < all.len() implies all[i] != all[j] by {
                    assert(rest[i] == all[i]);
                    if j < rest.len() {
                        assert(rest[j] == all[j]);
                    } else {
                        assert(rest.contains(all[i]));
                    }
                }
            }
        }
        if !ids.contains(id) {
            assert(ids[ids.len() - 1] != id);
            assert(all =~= ids);
        }
    }
}

impl ServerModel {
    /// The command that starts an executor, of the first or the second queue.
    pub open spec fn command(self, second_queue: bool) -> Option<Seq<char>> {
        if second_queue {
            self.second_start_cmd
        } else {
            Some(self.start_cmd)
        }
    }

    /// The state after a remote has connected.
    pub open spec fn remote_added(self) -> ServerModel {
        ServerModel {
            remotes: self.remotes.push(
                Remote { conn_type: ConnectionType::Pending, paired_id: None },
            ),
            ..self
        }
    }

    /// Every id refers to a remote.
    pub open spec fn valid(self) -> bool {
        &&& forall|i: int| 0 <= i < self.idle.len() ==> #[trigger] self.idle[i] < self.remotes.len()
        &&& forall|k: (nat, TaskModel)| #[trigger]
            self.tasks.contains_key(k) ==> k.0 < self.remotes.len()
        &&& forall|i: int|
            0 <= i < self.remotes.len() ==> ((#[trigger] self.remotes[i]).paired_id matches Some(
                other,
            ) ==> other < self.remotes.len())
        &&& self.tasks.dom().finite()
    }

    /// The state with another type of a remote.
    pub open spec fn with_type(self, id: int, conn_type: ConnectionType) -> ServerModel {
        ServerModel {
            remotes: self.remotes.update(
                id,
                Remote { conn_type, paired_id: self.remotes[id].paired_id },
            ),
            ..self
        }
    }

    /// The state with another pairing of a remote.
    pub open spec fn with_pair(self, id: int, paired_id: Option<u32>) -> ServerModel {
        ServerModel {
            remotes: self.remotes.update(
                id,
                Remote { conn_type: self.remotes[id].conn_type, paired_id },
            ),
            ..self
        }
    }

    /// The priority of a task: the time that it took before, and a bump for a priority task.
    pub open spec fn priority(self, task: TaskModel) -> nat {
        let target = crate::ipc::target_of(task);
        let prior = if self.prior_history.contains_key(target) {
            self.prior_history[target].0
        } else {
            UNKNOWN_TASK
        };
        (prior + (if task.priority_task {
            PRIORITY_BUMP
        } else {
            0
        })) as nat
    }

    /// The state after an executor has become ready for a task.
    pub open spec fn exec_is_ready(self, id: usize) -> ServerModel {
        ServerModel { idle: self.idle.push(id), ..self.with_pair(id as int, None) }
    }

    /// The state after a remote has told that its task has ended. An executor is then ready for
    /// another one; of a remote that is none, nothing changes.
    pub open spec fn task_ended(self, id: usize) -> ServerModel {
        if self.remotes[id as int].conn_type is Exec {
            self.exec_is_ready(id)
        } else {
            self
        }
    }

    /// The state after a remote has turned out to be an executor from the first or second queue.
    pub open spec fn remote_is_exec(self, id: usize, second_queue: bool) -> ServerModel {
        let typed = self.with_type(id as int, ConnectionType::Exec);
        let counted = ServerModel {
            running_exec_count: self.running_exec_count + 1,
            pending_exec_count: if !second_queue && self.pending_exec_count > 0 {
                (self.pending_exec_count - 1) as nat
            } else {
                self.pending_exec_count
            },
            second_pending_exec_count: if second_queue && self.second_pending_exec_count > 0 {
                (self.second_pending_exec_count - 1) as nat
            } else {
                self.second_pending_exec_count
            },
            ..typed
        };
        counted.exec_is_ready(id)
    }

    /// The state after a remote has turned out to be a client and submitted a task.
    pub open spec fn remote_is_client(self, id: usize, task: TaskModel, now: u128) -> ServerModel {
        ServerModel {
            tasks: self.tasks.insert(
                (id as nat, task),
                (self.priority(task) as u128, self.submit_count),
            ),
            last_submit_time: Some(now),
            ..self.with_type(id as int, ConnectionType::Client)
        }
    }

    /// The state after output of the given size has passed through.
    pub open spec fn output_passed(self, size: nat) -> ServerModel {
        ServerModel {
            total_bytes: byte_sum(self.total_bytes, size),
            bytes_this_period: byte_sum(self.bytes_this_period, size),
            ..self
        }
    }

    /// The state after the elapsed time of a successful task has been recorded.
    pub open spec fn record_elapsed(self, target: Seq<char>, elapsed: u128, now: u128) -> ServerModel {
        ServerModel { in_the_making: self.in_the_making.insert(target, (elapsed, now)), ..self }
    }

    /// The state after a task of the given times has been counted.
    pub open spec fn times_counted(self, run_time: u128, send_time: u128) -> ServerModel {
        ServerModel {
            total_run_time: self.total_run_time + run_time as nat,
            total_send_time: self.total_send_time + send_time as nat,
            peak_send_time: if send_time > self.peak_send_time {
                send_time as nat
            } else {
                self.peak_send_time
            },
            ..self
        }
    }

    /// The state after a connection has been dropped. An executor does not run any more, and does
    /// not wait for a task.
    pub open spec fn dropped(self, id: usize) -> ServerModel {
        let counted = if self.remotes[id as int].conn_type is Exec {
            ServerModel { running_exec_count: (self.running_exec_count - 1) as nat, ..self }
        } else {
            self
        };
        ServerModel {
            idle: without(self.idle, id),
            ..counted.with_type(id as int, ConnectionType::Dead)
        }
    }

    /// The state after a message could not be sent to a remote.
    pub open spec fn unreachable(self, id: usize) -> ServerModel {
        if self.remotes[id as int].conn_type is Exec {
            self.dropped(id)
        } else {
            self.with_type(id as int, ConnectionType::Dead)
        }
    }

    /// True if the message can be handled in this state. It cannot if
    /// - it is none that a remote sends to the server,
    /// - it is about a task, and the remote is not paired,
    /// - or a counter would leave its range.
    pub open spec fn accepts(self, id: usize, message: Message) -> bool {
        &&& id < self.remotes.len()
        &&& match message {
            Message::YourObedientServant { .. } => self.running_exec_count < usize::MAX,
            Message::Task { details, .. } => self.submit_count < usize::MAX && self.priority(
                details@,
            ) <= clock::LONGEST_SPAN,
            Message::TaskOutput { .. } => self.remotes[id as int].paired_id is Some,
            Message::TaskDone { run_time, send_time, .. } => {
                &&& self.remotes[id as int].paired_id is Some
                &&& self.finish_count < usize::MAX
                &&& self.total_run_time + run_time <= clock::LONGEST_SPAN
                &&& self.total_send_time + send_time <= clock::LONGEST_SPAN
            },
            Message::TaskFailed { .. } => self.remotes[id as int].paired_id is Some
                && self.finish_count < usize::MAX,
            Message::Dropped => self.remotes[id as int].conn_type is Exec
                ==> self.running_exec_count > 0,
            Message::LastTaskSent => false,
            Message::CancelTask => false,
            Message::PissOff => false,
        }
    }

    /// The state after a message from a remote.
    pub open spec fn after_message(self, id: usize, message: Message, now: u128) -> ServerModel {
        match message {
            Message::YourObedientServant { access_code, .. } => self.remote_is_exec(
                id,
                access_code % 2 == 1,
            ),
            Message::Task { details, .. } => (ServerModel {
                submit_count: self.submit_count + 1,
                ..self
            }).remote_is_client(id, details@, now),
            Message::TaskOutput { content, .. } => self.output_passed(content@.len()),
            Message::TaskDone { exit_code, target_id, run_time, send_time } => {
                let recorded = if exit_code == Some(0i32) {
                    self.record_elapsed(target_id@, run_time, now)
                } else {
                    self
                };
                (ServerModel { finish_count: self.finish_count + 1, ..recorded }).task_ended(
                    id,
                ).times_counted(run_time, send_time)
            },
            Message::TaskFailed { .. } => (ServerModel {
                finish_count: self.finish_count + 1,
                ..self
            }).task_ended(id),
            Message::Dropped => self.dropped(id),
            _ => self,
        }
    }

    /// True if a message about a task goes on from a remote to the one that it is paired with: to
    /// a client, or from a client to the executor of its task, as long as that is not dead.
    pub open spec fn passes_on(self, id: usize) -> bool {
        let remote = self.remotes[id as int];
        let other = self.remotes[remote.paired_id->0 as int];
        other.conn_type is Client || (remote.conn_type is Client && other.conn_type is Exec)
    }

    /// True if the delivery is what a message from a remote leads to. A message about a task goes
    /// on to the paired remote. The client of an executor that is gone is told so.
    pub open spec fn delivers(self, id: usize, message: Message, delivery: Option<Delivery>) -> bool {
        let remote = self.remotes[id as int];
        match message {
            Message::TaskOutput { .. }
            | Message::TaskDone { .. }
            | Message::TaskFailed { .. } => {
                let other = remote.paired_id->0;
                if self.passes_on(id) {
                    delivery == Some(
                        Delivery { to: other as usize, message, must_arrive: false },
                    )
                } else {
                    delivery is None
                }
            },
            Message::Dropped => {
                if remote.conn_type is Exec && remote.paired_id is Some {
                    &&& delivery matches Some(notice)
                    &&& notice.to == remote.paired_id->0
                    &&& notice.must_arrive
                    &&& notice.message matches Message::TaskFailed { error_message }
                    &&& error_message@ == "exec dropped connection"@
                } else {
                    delivery is None
                }
            },
            _ => delivery is None,
        }
    }

    /// True if the queues have to be processed after such a message.
    pub open spec fn updates(message: Message) -> bool {
        message is YourObedientServant || message is Task || message is TaskDone
            || message is TaskFailed
    }

    /// The number of executors that run, or have been started and have not called yet.
    pub open spec fn exec_total(self) -> nat {
        self.running_exec_count + self.pending_exec_count + self.second_pending_exec_count
    }

    /// The number of executors that are missing to the initial count.
    pub open spec fn init_needed(self) -> nat {
        if self.initial_count > self.running_exec_count {
            (self.initial_count - self.running_exec_count) as nat
        } else {
            0
        }
    }

    /// The number of executors to keep pending.
    pub open spec fn pending_wanted(self) -> nat {
        let needed = self.init_needed();
        if self.keep_pending > needed {
            self.keep_pending
        } else {
            needed
        }
    }

    /// True if another executor should be started, given how many of its queue are pending and
    /// how many should be.
    pub open spec fn wants_exec(self, pending: nat, keep_pending: nat) -> bool {
        &&& self.exec_total() < self.tasks.len()
        &&& self.exec_total() < self.max_count
        &&& pending < keep_pending
    }

    /// The queue in which an executor is to be started next, if in any: true for the second.
    pub open spec fn next_start(self) -> Option<bool> {
        let wanted = self.pending_wanted();
        if self.second_start_cmd is Some {
            let half = (wanted + 1) / 2;
            if self.wants_exec(self.pending_exec_count, half) {
                Some(false)
            } else if self.wants_exec(self.second_pending_exec_count, half) {
                Some(true)
            } else {
                None
            }
        } else if self.wants_exec(self.pending_exec_count, wanted) {
            Some(false)
        } else {
            None
        }
    }

    /// The state after an executor has been started.
    pub open spec fn exec_started(self, second_queue: bool) -> ServerModel {
        if second_queue {
            ServerModel { second_pending_exec_count: self.second_pending_exec_count + 1, ..self }
        } else {
            ServerModel { pending_exec_count: self.pending_exec_count + 1, ..self }
        }
    }

    /// True if the task is next in turn: no other has a greater priority, or the same one and
    /// was submitted before.
    pub open spec fn is_next_task(self, k: (nat, TaskModel)) -> bool {
        &&& self.tasks.contains_key(k)
        &&& forall|other: (nat, TaskModel)| #[trigger]
            self.tasks.contains_key(other) ==> !crate::queue::comes_before(
                self.tasks[other],
                self.tasks[k],
            )
    }

    /// The state after a task and the executor that has been idle for longest have been taken
    /// out of their queues.
    pub open spec fn taken(self, k: (nat, TaskModel)) -> ServerModel {
        ServerModel { tasks: self.tasks.remove(k), idle: self.idle.drop_first(), ..self }
    }

    /// True if a task of the client can be given to the executor: they are two remotes, and
    /// neither is paired.
    pub open spec fn can_pair(self, client: usize, exec: usize) -> bool {
        &&& client != exec
        &&& client < self.remotes.len()
        &&& exec < self.remotes.len()
        &&& self.remotes[client as int].paired_id is None
        &&& self.remotes[exec as int].paired_id is None
    }

    /// The state after a client has been paired with an executor.
    pub open spec fn paired(self, client: usize, exec: usize) -> ServerModel {
        self.with_pair(client as int, Some(pair_id(exec))).with_pair(
            exec as int,
            Some(pair_id(client)),
        )
    }

    /// True if no task has come in for so long that idle executors are released.
    pub open spec fn ok_to_release(self, now: u128) -> bool {
        match self.last_submit_time {
            Some(time) => clock::seconds_between(time, now) > self.release_delay,
            None => false,
        }
    }

    /// The state after the executor that has been idle for longest has been told to terminate.
    pub open spec fn releasing(self) -> ServerModel {
        ServerModel {
            idle: self.idle.drop_first(),
            ..self.with_type(self.idle[0] as int, ConnectionType::Dead)
        }
    }

    /// The state after an executor has terminated.
    pub open spec fn released(self) -> ServerModel {
        ServerModel { running_exec_count: (self.running_exec_count - 1) as nat, ..self }
    }

    /// True if the step of the processing of the queues leads to the next state.
    pub open spec fn update_leads_to(
        self,
        phase: UpdatePhase,
        now: u128,
        step: UpdateStep,
        next: ServerModel,
    ) -> bool {
        if phase is Starting && self.next_start() is Some {
            step == UpdateStep::Start(self.next_start()->0) && next == self
        } else if !(phase is Releasing) && self.can_assign() {
            exists|task: (nat, TaskModel)| #[trigger]
                self.is_next_task(task) && self.assignment_leads_to(task, step, next)
        } else if self.idle.len() > 0 && (phase is Releasing || self.ok_to_release(now)) {
            self.release_leads_to(step, next)
        } else {
            step is Done && next == self
        }
    }

    /// True if there are a task and an executor for it.
    pub open spec fn can_assign(self) -> bool {
        self.tasks.dom() != Set::<(nat, TaskModel)>::empty() && self.idle.len() > 0
    }

    /// True if the step gives the task to the executor that has been idle for longest.
    pub open spec fn assignment_leads_to(
        self,
        task: (nat, TaskModel),
        step: UpdateStep,
        next: ServerModel,
    ) -> bool {
        let client = task.0 as usize;
        let exec = self.idle[0];
        if self.taken(task).can_pair(client, exec) {
            &&& next == self.taken(task).paired(client, exec)
            &&& step matches UpdateStep::Send(delivery, phase)
            &&& phase is Assigning
            &&& delivery.to == exec
            &&& delivery.must_arrive
            &&& delivery.message matches Message::Task { access_code, user_code, details }
            &&& access_code == 0
            &&& user_code == 0
            &&& details@ == task.1
        } else {
            step is Clash && next == self.taken(task)
        }
    }

    /// True if the step releases the executor that has been idle for longest.
    pub open spec fn release_leads_to(self, step: UpdateStep, next: ServerModel) -> bool {
        if self.running_exec_count > 0 {
            &&& next == self.releasing().released()
            &&& step matches UpdateStep::Send(delivery, phase)
            &&& phase is Releasing
            &&& delivery.to == self.idle[0]
            &&& delivery.must_arrive
            &&& delivery.message is PissOff
        } else {
            step is Clash && next == self.releasing()
        }
    }

    /// True if no tasks are queued, no executor runs, and nothing has happened for so long that
    /// the server shuts down.
    pub open spec fn ok_to_shutdown(self, now: u128) -> bool {
        &&& self.tasks.dom() == Set::<(nat, TaskModel)>::empty()
        &&& self.running_exec_count == 0
        &&& clock::seconds_between(self.last_activity_time, now) > self.idle_shutdown_after
    }

    /// The number of tasks that are being run.
    pub open spec fn running_tasks(self) -> int {
        self.submit_count - self.finish_count - self.tasks.len()
    }

    /// What is told before executors are started.
    pub open spec fn start_line(self) -> Seq<char> {
        "SprayCC: start execs: queue="@ + crate::text::decimal(self.tasks.len()) + ", running="@
            + crate::text::decimal(self.running_exec_count) + ", pending="@ + crate::text::decimal(
            self.pending_exec_count,
        ) + ","@ + crate::text::decimal(self.second_pending_exec_count) + " init_needed="@
            + crate::text::decimal(self.init_needed()) + ", keep_pending="@ + crate::text::decimal(
            self.pending_wanted(),
        )
    }

    /// True if there is something to report.
    pub open spec fn busy(self) -> bool {
        self.running_tasks() > 0 || self.running_exec_count > 0 || self.bytes_this_period > 0
    }

    /// The status line, for the given length of the reporting period in seconds.
    pub open spec fn status_line(self, reporting_period: u64) -> Seq<char> {
        "SprayCC: "@ + crate::text::decimal(self.finish_count) + " / "@ + crate::text::decimal(
            self.submit_count,
        ) + " finished, "@ + crate::text::decimal(self.running_tasks() as nat) + " running, "@
            + crate::text::decimal(self.running_exec_count) + " executors, "@
            + crate::server::byte_count_text(
            byte_share(self.bytes_this_period, reporting_period as nat) as u64,
        ) + " / sec"@
    }
}

/// Law: the order of a queue stays when an id is taken out: of two parts of a queue, what is left of
/// the first comes before what is left of the second, and one id alone is left unless it is the one.
pub proof fn law_without_keeps_the_order(first: Seq<usize>, second: Seq<usize>, id: usize)
    ensures
        without(first + second, id) == without(first, id) + without(second, id),
        first.len() == 1 && first[0] == id ==> without(first, id).len() == 0,
        first.len() == 1 && first[0] != id ==> without(first, id) == first,
    decreases second.len(),
{
    reveal(Seq::filter);
    if first.len() == 1 {
        assert(without(first.drop_last(), id) =~= Seq::<usize>::empty());
        assert(first.last() == first[0]);
        assert(first[0] != id ==> without(first, id) =~= first);
    }
    if second.len() == 0 {
        assert(first + second =~= first);
        assert(without(second, id) =~= Seq::<usize>::empty());
    } else {
        law_without_keeps_the_order(first, second.drop_last(), id);
        assert((first + second).drop_last() =~= first + second.drop_last());
        assert((first + second).last() == second.last());
        assert(without(first + second, id) =~= without(first, id) + without(second, id));
    }
}

} // verus!
