//! What holds of the server as a whole.
//!
//! As long as the remotes follow the protocol, the server's books stay in order: its counts are
//! right, and each executor that works is paired with the client that waits for it.

use crate::clock;
use crate::config::ExecConfig;
use crate::ipc::{CallMe, Message, TaskDetails, TaskModel};
use crate::server::{ConnectionType, Delivery, Remote, UpdatePhase, UpdateStep};
use crate::server_model::{ServerModel, PRIORITY_BUMP};
use vstd::prelude::*;

verus! {

/// True if the remote is an executor that is running.
pub open spec fn is_exec(remote: Remote) -> bool {
    remote.conn_type is Exec
}

/// True if the remote is an executor that works on a task.
pub open spec fn is_working(remote: Remote) -> bool {
    remote.conn_type is Exec && remote.paired_id is Some
}

/// The number of remotes with a property.
pub open spec fn count_of(remotes: Seq<Remote>, p: spec_fn(Remote) -> bool) -> nat
    decreases remotes.len(),
{
    if remotes.len() == 0 {
        0
    } else {
        count_of(remotes.drop_last(), p) + (if p(remotes.last()) {
            1nat
        } else {
            0
        })
    }
}

proof fn lemma_count_update(remotes: Seq<Remote>, p: spec_fn(Remote) -> bool, i: int, new: Remote)
    requires
        0 <= i < remotes.len(),
    ensures
        count_of(remotes.update(i, new), p) + (if p(remotes[i]) {
            1nat
        } else {
            0
        }) == count_of(remotes, p) + (if p(new) {
            1nat
        } else {
            0
        }),
    decreases remotes.len(),
{
    let updated = remotes.update(i, new);
    if i < remotes.len() - 1 {
        assert(updated.drop_last() =~= remotes.drop_last().update(i, new));
        lemma_count_update(remotes.drop_last(), p, i, new);
    } else {
        assert(updated.drop_last() =~= remotes.drop_last());
    }
}

/// True if the second remote is a client that was paired with the first, an executor.
pub open spec fn serves(remotes: Seq<Remote>, exec: int, client: int) -> bool {
    &&& remotes[client].conn_type is Client || remotes[client].conn_type is Dead
    &&& remotes[client].paired_id == Some(exec as u32)
}

/// True if the pairing of the remotes is in order: every id refers to a remote, an executor that
/// works is paired with the client that waits for it, and a remote that has not sent a message yet
/// is not paired.
pub open spec fn remotes_in_order(remotes: Seq<Remote>) -> bool {
    forall|i: int|
        0 <= i < remotes.len() ==> {
            let remote = #[trigger] remotes[i];
            &&& remote.paired_id matches Some(other) ==> other < remotes.len()
            &&& is_working(remote) ==> serves(remotes, i, remote.paired_id->0 as int)
            &&& remote.conn_type is Pending ==> remote.paired_id is None
        }
}

/// A remote can be changed if that leaves alone the executor that works for it, if there is one:
/// none does if the remote is no client or is not paired.
proof fn lemma_remote_changes(remotes: Seq<Remote>, id: int, new: Remote)
    requires
        remotes_in_order(remotes),
        0 <= id < remotes.len(),
        new.paired_id matches Some(other) ==> other < remotes.len(),
        is_working(new) ==> new.paired_id->0 != id && serves(
            remotes,
            id,
            new.paired_id->0 as int,
        ),
        new.conn_type is Pending ==> new.paired_id is None,
        ({
            ||| remotes[id].conn_type is Pending
            ||| remotes[id].conn_type is Exec
            ||| remotes[id].paired_id is None
            ||| new.conn_type is Dead && new.paired_id == remotes[id].paired_id
        }),
    ensures
        remotes_in_order(remotes.update(id, new)),
        count_of(remotes.update(id, new), |r: Remote| is_exec(r)) + (if is_exec(remotes[id]) {
            1nat
        } else {
            0
        }) == count_of(remotes, |r: Remote| is_exec(r)) + (if is_exec(new) {
            1nat
        } else {
            0
        }),
        count_of(remotes.update(id, new), |r: Remote| is_working(r)) + (if is_working(
            remotes[id],
        ) {
            1nat
        } else {
            0
        }) == count_of(remotes, |r: Remote| is_working(r)) + (if is_working(new) {
            1nat
        } else {
            0
        }),
{
    let next = remotes.update(id, new);
    lemma_count_update(remotes, |r: Remote| is_exec(r), id, new);
    lemma_count_update(remotes, |r: Remote| is_working(r), id, new);
    assert forall|i: int| 0 <= i < next.len() implies {
        let remote = #[trigger] next[i];
        &&& remote.paired_id matches Some(other) ==> other < next.len()
        &&& is_working(remote) ==> serves(next, i, remote.paired_id->0 as int)
        &&& remote.conn_type is Pending ==> remote.paired_id is None
    } by {
        if i != id {
            assert(next[i] == remotes[i]);
            if is_working(remotes[i]) {
                assert(serves(remotes, i, remotes[i].paired_id->0 as int));
            }
        }
    }
}

impl ServerModel {
    /// True if the server's books are in order.
    pub open spec fn in_order(self) -> bool {
        &&& self.valid()
        &&& self.remotes.len() <= 0x1_0000_0000
        // The running executors are counted.
        &&& self.running_exec_count == count_of(self.remotes, |r: Remote| is_exec(r))
        // The idle executors are running, are not paired and are queued once.
        &&& forall|i: int|
            0 <= i < self.idle.len() ==> self.remotes[#[trigger] self.idle[i] as int].conn_type
                is Exec && self.remotes[self.idle[i] as int].paired_id is None
        &&& forall|i: int, j: int|
            0 <= i < j < self.idle.len() ==> #[trigger] self.idle[i] != #[trigger] self.idle[j]
        // Each queued task is the only one of its client, which is not paired.
        &&& forall|k: (nat, TaskModel)| #[trigger]
            self.tasks.contains_key(k) ==> {
                &&& self.remotes[k.0 as int].conn_type is Client
                    || self.remotes[k.0 as int].conn_type is Dead
                &&& self.remotes[k.0 as int].paired_id is None
            }
        &&& forall|k: (nat, TaskModel), l: (nat, TaskModel)| #[trigger]
            self.tasks.contains_key(k) && #[trigger] self.tasks.contains_key(l) && k.0 == l.0 ==> k
                == l
        // It is ranked by its priority and by when it was submitted.
        &&& forall|k: (nat, TaskModel)| #[trigger]
            self.tasks.contains_key(k) ==> self.tasks[k].0 == self.priority(k.1) && self.tasks[k].1
                <= self.submit_count
        &&& remotes_in_order(self.remotes)
        // Each task that was submitted is counted as queued, run or finished, at most.
        &&& self.finish_count + self.tasks.len() + count_of(
            self.remotes,
            |r: Remote| is_working(r),
        ) <= self.submit_count
    }

    /// True if the remote is a client that was paired with the executor.
    pub open spec fn works_for(self, exec: int, client: int) -> bool {
        serves(self.remotes, exec, client)
    }

    /// True if the message follows the protocol: a remote opens the connection with a task or as
    /// an executor, and executors talk about the task that they were given. A client may send to
    /// the executor of its task, and any connection may be dropped at any time.
    pub open spec fn follows_protocol(self, id: usize, message: Message) -> bool {
        &&& id < self.remotes.len()
        &&& match message {
            Message::YourObedientServant { .. } | Message::Task { .. } => self.remotes[id as int].conn_type
                is Pending,
            Message::TaskOutput { .. } => is_working(self.remotes[id as int]) || (
            self.remotes[id as int].conn_type is Client && self.remotes[id as int].paired_id
                is Some),
            Message::TaskDone { .. } | Message::TaskFailed { .. } => is_working(
                self.remotes[id as int],
            ),
            Message::Dropped => true,
            _ => false,
        }
    }

    /// True if no counter leaves its range on the message.
    pub open spec fn counters_suffice(self, message: Message) -> bool {
        &&& self.running_exec_count < usize::MAX
        &&& self.submit_count < usize::MAX
        &&& self.finish_count < usize::MAX
        &&& message matches Message::Task { details, .. } ==> self.priority(details@)
            <= clock::LONGEST_SPAN
        &&& message matches Message::TaskDone { run_time, send_time, .. } ==> {
            &&& self.total_run_time + run_time <= clock::LONGEST_SPAN
            &&& self.total_send_time + send_time <= clock::LONGEST_SPAN
        }
    }
}

/// Law: the books of a server that has just started are in order.
pub proof fn law_starts_in_order(
    config: ExecConfig,
    prior_history: crate::history::Records,
    port: CallMe,
    max_cpus: Option<usize>,
    alt_start_cmd: bool,
    both_queues: bool,
    now: u128,
)
    ensures
        crate::server_model::initial_state(
            config,
            prior_history,
            port,
            max_cpus,
            alt_start_cmd,
            both_queues,
            now,
        ).in_order(),
{
}

/// Law: a new connection keeps the books in order.
pub proof fn law_connection_keeps_order(state: ServerModel)
    requires
        state.in_order(),
        state.remotes.len() < 0x1_0000_0000,
    ensures
        state.remote_added().in_order(),
{
    let next = state.remote_added();
    assert(next.remotes.drop_last() =~= state.remotes);
    assert forall|i: int| 0 <= i < next.remotes.len() implies {
        let remote = #[trigger] next.remotes[i];
        &&& remote.paired_id matches Some(other) ==> other < next.remotes.len()
        &&& is_working(remote) ==> serves(next.remotes, i, remote.paired_id->0 as int)
        &&& remote.conn_type is Pending ==> remote.paired_id is None
    } by {
        if i < state.remotes.len() {
            assert(state.remotes[i] == next.remotes[i]);
        }
    }
}

proof fn lemma_exec_joins(state: ServerModel, id: usize, second_queue: bool)
    requires
        state.in_order(),
        id < state.remotes.len(),
        state.remotes[id as int].conn_type is Pending,
    ensures
        state.remote_is_exec(id, second_queue).in_order(),
{
    let next = state.remote_is_exec(id, second_queue);
    let new = Remote { conn_type: ConnectionType::Exec, paired_id: None };
    assert(next.remotes =~= state.remotes.update(id as int, new));
    lemma_remote_changes(state.remotes, id as int, new);
    assert forall|i: int| 0 <= i < next.idle.len() implies next.remotes[
        #[trigger] next.idle[i] as int
    ].conn_type is Exec && next.remotes[next.idle[i] as int].paired_id is None by {
        if i < state.idle.len() {
            assert(next.idle[i] == state.idle[i]);
        }
    }
    assert forall|i: int, j: int| 0 <= i < j < next.idle.len() implies #[trigger] next.idle[i]
        != #[trigger] next.idle[j] by {
        assert(next.idle[i] == state.idle[i]);
        if j < state.idle.len() {
            assert(next.idle[j] == state.idle[j]);
        }
    }
}

proof fn lemma_client_joins(state: ServerModel, id: usize, task: TaskModel, now: u128)
    requires
        state.in_order(),
        id < state.remotes.len(),
        state.remotes[id as int].conn_type is Pending,
        state.priority(task) <= clock::LONGEST_SPAN,
    ensures
        (ServerModel { submit_count: state.submit_count + 1, ..state }).remote_is_client(
            id,
            task,
            now,
        ).in_order(),
{
    let next = (ServerModel { submit_count: state.submit_count + 1, ..state }).remote_is_client(
        id,
        task,
        now,
    );
    let new = Remote { conn_type: ConnectionType::Client, paired_id: None };
    assert(next.remotes =~= state.remotes.update(id as int, new));
    lemma_remote_changes(state.remotes, id as int, new);
    assert(!state.tasks.contains_key((id as nat, task)));
    assert(next.tasks.len() == state.tasks.len() + 1);
    assert forall|k: (nat, TaskModel)| #[trigger] next.tasks.contains_key(k) implies {
        &&& k.0 < next.remotes.len()
        &&& next.remotes[k.0 as int].conn_type is Client || next.remotes[k.0 as int].conn_type
            is Dead
        &&& next.remotes[k.0 as int].paired_id is None
        &&& next.tasks[k].0 == next.priority(k.1)
        &&& next.tasks[k].1 <= next.submit_count
    } by {
        if k != (id as nat, task) {
            assert(state.tasks.contains_key(k));
        }
    }
    assert forall|k: (nat, TaskModel), l: (nat, TaskModel)| #[trigger]
        next.tasks.contains_key(k) && #[trigger] next.tasks.contains_key(l) && k.0
            == l.0 implies k == l by {
        if k != (id as nat, task) {
            assert(state.tasks.contains_key(k));
        }
        if l != (id as nat, task) {
            assert(state.tasks.contains_key(l));
        }
    }
    assert forall|i: int| 0 <= i < next.idle.len() implies next.remotes[
        #[trigger] next.idle[i] as int
    ].conn_type is Exec && next.remotes[next.idle[i] as int].paired_id is None by {
        assert(next.idle[i] == state.idle[i]);
    }
}

proof fn lemma_task_ends(state: ServerModel, id: usize)
    requires
        state.in_order(),
        id < state.remotes.len(),
        is_working(state.remotes[id as int]),
    ensures
        (ServerModel { finish_count: state.finish_count + 1, ..state }).exec_is_ready(
            id,
        ).in_order(),
{
    let next = (ServerModel { finish_count: state.finish_count + 1, ..state }).exec_is_ready(id);
    let new = Remote { conn_type: ConnectionType::Exec, paired_id: None };
    assert(next.remotes =~= state.remotes.update(id as int, new));
    lemma_remote_changes(state.remotes, id as int, new);
    assert forall|i: int| 0 <= i < next.idle.len() implies next.remotes[
        #[trigger] next.idle[i] as int
    ].conn_type is Exec && next.remotes[next.idle[i] as int].paired_id is None by {
        if i < state.idle.len() {
            assert(next.idle[i] == state.idle[i]);
        }
    }
    assert forall|i: int, j: int| 0 <= i < j < next.idle.len() implies #[trigger] next.idle[i]
        != #[trigger] next.idle[j] by {
        assert(next.idle[i] == state.idle[i]);
        if j < state.idle.len() {
            assert(next.idle[j] == state.idle[j]);
        }
    }
}

/// A remote that is not idle, and not needed as an executor any more, is marked dead.
proof fn lemma_marked_dead(state: ServerModel, id: int)
    requires
        state.in_order(),
        0 <= id < state.remotes.len(),
        forall|i: int| 0 <= i < state.idle.len() ==> state.idle[i] != id,
    ensures
        (ServerModel {
            running_exec_count: (if state.remotes[id].conn_type is Exec {
                state.running_exec_count - 1
            } else {
                state.running_exec_count as int
            }) as nat,
            ..state
        }).with_type(id, ConnectionType::Dead).in_order(),
        state.remotes[id].conn_type is Exec ==> state.running_exec_count > 0,
{
    let next = (ServerModel {
        running_exec_count: (if state.remotes[id].conn_type is Exec {
            state.running_exec_count - 1
        } else {
            state.running_exec_count as int
        }) as nat,
        ..state
    }).with_type(id, ConnectionType::Dead);
    let new = Remote { conn_type: ConnectionType::Dead, paired_id: state.remotes[id].paired_id };
    assert(next.remotes =~= state.remotes.update(id, new));
    lemma_remote_changes(state.remotes, id, new);
    assert forall|i: int| 0 <= i < next.idle.len() implies next.remotes[
        #[trigger] next.idle[i] as int
    ].conn_type is Exec && next.remotes[next.idle[i] as int].paired_id is None by {
        assert(next.idle[i] == state.idle[i]);
    }
}

proof fn lemma_dropped(state: ServerModel, id: usize)
    requires
        state.in_order(),
        id < state.remotes.len(),
    ensures
        state.accepts(id, Message::Dropped),
        state.dropped(id).in_order(),
{
    let waiting = ServerModel {
        idle: crate::server_model::without(state.idle, id),
        ..state
    };
    crate::server_model::law_without(state.idle, id);
    assert forall|i: int| 0 <= i < waiting.idle.len() implies #[trigger] waiting.idle[i]
        < waiting.remotes.len() && waiting.remotes[waiting.idle[i] as int].conn_type is Exec
        && waiting.remotes[waiting.idle[i] as int].paired_id is None && waiting.idle[i] != id by {
        assert(waiting.idle.contains(waiting.idle[i]));
        assert(state.idle.contains(waiting.idle[i]));
        let k = choose|k: int| 0 <= k < state.idle.len() && state.idle[k] == waiting.idle[i];
        assert(state.remotes[state.idle[k] as int].conn_type is Exec);
    }
    assert(state.idle.no_duplicates());
    assert forall|i: int, j: int| 0 <= i < j < waiting.idle.len() implies #[trigger] waiting.idle[i]
        != #[trigger] waiting.idle[j] by {}
    lemma_marked_dead(waiting, id as int);
    assert(state.dropped(id).remotes =~= state.remotes.update(
        id as int,
        Remote {
            conn_type: ConnectionType::Dead,
            paired_id: state.remotes[id as int].paired_id,
        },
    ));
}

/// Law: a message that follows the protocol is accepted, and keeps the books in order.
pub proof fn law_protocol_keeps_order(state: ServerModel, id: usize, message: Message, now: u128)
    requires
        state.in_order(),
        state.follows_protocol(id, message),
        state.counters_suffice(message),
    ensures
        state.accepts(id, message),
        state.after_message(id, message, now).in_order(),
{
    match message {
        Message::YourObedientServant { access_code, .. } => {
            lemma_exec_joins(state, id, access_code % 2 == 1);
        },
        Message::Task { details, .. } => {
            lemma_client_joins(state, id, details@, now);
        },
        Message::TaskOutput { .. } => {},
        Message::TaskDone { exit_code, target_id, run_time, send_time } => {
            lemma_task_ends(state, id);
            let ended = (ServerModel {
                finish_count: state.finish_count + 1,
                ..state
            }).exec_is_ready(id);
            let next = state.after_message(id, message, now);
            assert(next.remotes == ended.remotes);
            assert(next.idle == ended.idle);
        },
        Message::TaskFailed { .. } => {
            lemma_task_ends(state, id);
        },
        Message::Dropped => {
            lemma_dropped(state, id);
        },
        _ => {},
    }
}

/// Law: a client that cannot be reached any more does not upset the books.
pub proof fn law_lost_client_keeps_order(state: ServerModel, id: usize)
    requires
        state.in_order(),
        id < state.remotes.len(),
        state.remotes[id as int].conn_type is Client,
    ensures
        state.with_type(id as int, ConnectionType::Dead).in_order(),
{
    assert forall|i: int| 0 <= i < state.idle.len() implies state.idle[i] != id as int by {
        assert(state.remotes[state.idle[i] as int].conn_type is Exec);
    }
    lemma_marked_dead(state, id as int);
}

/// Law: the task that is next can be given to the executor that is next, and that keeps the books
/// in order.
pub proof fn law_assignment_keeps_order(state: ServerModel, task: (nat, TaskModel))
    requires
        state.in_order(),
        state.is_next_task(task),
        state.idle.len() > 0,
    ensures
        state.taken(task).can_pair(task.0 as usize, state.idle[0]),
        state.taken(task).paired(task.0 as usize, state.idle[0]).in_order(),
{
    let client = task.0 as usize;
    let exec = state.idle[0];
    let taken = state.taken(task);
    let next = taken.paired(client, exec);
    assert(state.tasks.contains_key(task));
    assert(state.remotes[exec as int].conn_type is Exec);
    let new_client = Remote {
        conn_type: state.remotes[client as int].conn_type,
        paired_id: Some(exec as u32),
    };
    let new_exec = Remote { conn_type: ConnectionType::Exec, paired_id: Some(client as u32) };
    let half = state.remotes.update(client as int, new_client);
    assert(next.remotes =~= half.update(exec as int, new_exec));
    lemma_remote_changes(state.remotes, client as int, new_client);
    lemma_remote_changes(half, exec as int, new_exec);
    assert(next.tasks.len() == state.tasks.len() - 1);
    assert forall|i: int| 0 <= i < next.idle.len() implies #[trigger] next.idle[i]
        < next.remotes.len() && next.remotes[next.idle[i] as int].conn_type is Exec
        && next.remotes[next.idle[i] as int].paired_id is None by {
        assert(next.idle[i] == state.idle[i + 1]);
        assert(state.idle[0] != state.idle[i + 1]);
        assert(state.remotes[state.idle[i + 1] as int].conn_type is Exec);
    }
    assert forall|i: int, j: int| 0 <= i < j < next.idle.len() implies #[trigger] next.idle[i]
        != #[trigger] next.idle[j] by {
        assert(next.idle[i] == state.idle[i + 1]);
        assert(next.idle[j] == state.idle[j + 1]);
    }
    assert forall|k: (nat, TaskModel)| #[trigger] next.tasks.contains_key(k) implies {
        &&& k.0 < next.remotes.len()
        &&& next.remotes[k.0 as int].conn_type is Client || next.remotes[k.0 as int].conn_type
            is Dead
        &&& next.remotes[k.0 as int].paired_id is None
    } by {
        assert(state.tasks.contains_key(k));
        assert(k.0 != task.0);
    }
}

/// Law: an idle executor can be released, and that keeps the books in order.
pub proof fn law_release_keeps_order(state: ServerModel)
    requires
        state.in_order(),
        state.idle.len() > 0,
    ensures
        state.releasing().running_exec_count > 0,
        state.releasing().released().in_order(),
{
    let exec = state.idle[0] as int;
    let waiting = ServerModel { idle: state.idle.drop_first(), ..state };
    assert forall|i: int| 0 <= i < waiting.idle.len() implies #[trigger] waiting.idle[i]
        < waiting.remotes.len() && waiting.remotes[waiting.idle[i] as int].conn_type is Exec
        && waiting.remotes[waiting.idle[i] as int].paired_id is None && waiting.idle[i] != exec by {
        assert(waiting.idle[i] == state.idle[i + 1]);
    }
    assert forall|i: int, j: int| 0 <= i < j < waiting.idle.len() implies #[trigger] waiting.idle[i]
        != #[trigger] waiting.idle[j] by {
        assert(waiting.idle[i] == state.idle[i + 1]);
        assert(waiting.idle[j] == state.idle[j + 1]);
    }
    lemma_marked_dead(waiting, exec);
    assert(state.remotes[state.idle[0] as int].conn_type is Exec);
}

/// Law: starting an executor keeps the books in order.
pub proof fn law_start_keeps_order(state: ServerModel, second_queue: bool)
    requires
        state.in_order(),
    ensures
        state.exec_started(second_queue).in_order(),
{
}

/// Law: while the books are in order, the processing of the queues meets no clash, and every step
/// of it keeps them in order.
pub proof fn law_update_keeps_order(
    state: ServerModel,
    phase: UpdatePhase,
    now: u128,
    step: UpdateStep,
    next: ServerModel,
)
    requires
        state.in_order(),
        state.update_leads_to(phase, now, step, next),
    ensures
        !(step is Clash),
        next.in_order(),
        step matches UpdateStep::Start(second_queue) ==> next.exec_started(second_queue).in_order(),
{
    if phase is Starting && state.next_start() is Some {
        law_start_keeps_order(state, state.next_start()->0);
    } else if !(phase is Releasing) && state.can_assign() {
        let task = choose|task: (nat, TaskModel)| #[trigger]
            state.is_next_task(task) && state.assignment_leads_to(task, step, next);
        law_assignment_keeps_order(state, task);
    } else if state.idle.len() > 0 && (phase is Releasing || state.ok_to_release(now)) {
        law_release_keeps_order(state);
    }
}

/// Law: when the queues have been processed, no more executors are to be started, no executor is
/// idle while a task is queued, and none is idle at all if no more tasks are coming.
pub proof fn law_update_settles(
    state: ServerModel,
    phase: UpdatePhase,
    now: u128,
    step: UpdateStep,
    next: ServerModel,
)
    requires
        state.update_leads_to(phase, now, step, next),
        step is Done,
    ensures
        next == state,
        phase is Starting ==> state.next_start() is None,
        !(phase is Releasing) ==> state.tasks.len() == 0 || state.idle.len() == 0,
        phase is Releasing || state.ok_to_release(now) ==> state.idle.len() == 0,
{
}

/// Law: the processing of the queues comes to an end. Every message takes an executor out of the
/// queue of those that are idle, and every executor that is started brings their number closer to
/// the maximum.
pub proof fn law_update_comes_to_an_end(
    state: ServerModel,
    phase: UpdatePhase,
    now: u128,
    step: UpdateStep,
    next: ServerModel,
)
    requires
        state.update_leads_to(phase, now, step, next),
    ensures
        step matches UpdateStep::Start(second_queue) ==> {
            &&& state.exec_total() < state.max_count
            &&& next.exec_started(second_queue).exec_total() == state.exec_total() + 1
        },
        step is Send ==> next.idle.len() < state.idle.len(),
{
    if !(phase is Starting && state.next_start() is Some) && !(phase is Releasing)
        && state.can_assign() {
        let task = choose|task: (nat, TaskModel)| #[trigger]
            state.is_next_task(task) && state.assignment_leads_to(task, step, next);
        assert(next.idle.len() < state.idle.len());
    }
}

/// Law: every task that is sent out was queued, and is not queued any more.
pub proof fn law_tasks_are_given_out_once(
    state: ServerModel,
    phase: UpdatePhase,
    now: u128,
    step: UpdateStep,
    next: ServerModel,
)
    requires
        state.update_leads_to(phase, now, step, next),
        step matches UpdateStep::Send(delivery, _) && delivery.message is Task,
    ensures
        exists|task: (nat, TaskModel)| #[trigger]
            state.is_next_task(task) && next.tasks == state.tasks.remove(task) && task.1
                == (step->Send_0.message->Task_details)@,
{
    if !(phase is Starting && state.next_start() is Some) && !(phase is Releasing)
        && state.can_assign() {
        let task = choose|task: (nat, TaskModel)| #[trigger]
            state.is_next_task(task) && state.assignment_leads_to(task, step, next);
        assert(next.tasks == state.tasks.remove(task));
    }
}

/// A run of the processing of the queues, step by step.
pub struct UpdateRun {
    /// The state before each step, and the last one.
    pub states: Seq<ServerModel>,
    /// The phase before each step, and the last one.
    pub phases: Seq<UpdatePhase>,
    /// When each step is made.
    pub times: Seq<u128>,
    /// The steps.
    pub steps: Seq<UpdateStep>,
}

impl UpdateRun {
    /// True if the run goes on as it should from the step at the given position. An executor that
    /// is to be started may fail to start.
    pub open spec fn goes_on(self, i: int) -> bool {
        let state = self.states[i];
        let next = self.states[i + 1];
        match self.steps[i] {
            UpdateStep::Start(second_queue) => {
                &&& state.update_leads_to(self.phases[i], self.times[i], self.steps[i], state)
                &&& next == state || next == state.exec_started(second_queue)
                &&& self.phases[i + 1] is Starting
            },
            UpdateStep::Send(_, phase) => {
                &&& state.update_leads_to(self.phases[i], self.times[i], self.steps[i], next)
                &&& self.phases[i + 1] == phase
            },
            UpdateStep::Clash => false,
            UpdateStep::Done => {
                &&& state.update_leads_to(self.phases[i], self.times[i], self.steps[i], next)
                &&& i == self.steps.len() - 1
            },
        }
    }

    /// True of a run from the start on in which nothing clashes.
    pub open spec fn valid(self) -> bool {
        &&& self.states.len() == self.steps.len() + 1
        &&& self.phases.len() == self.steps.len() + 1
        &&& self.times.len() == self.steps.len()
        &&& self.phases[0] is Starting
        &&& forall|i: int| 0 <= i < self.steps.len() ==> #[trigger] self.goes_on(i)
    }

    /// The number of executors that have been started before the given position.
    pub open spec fn started(self, i: int) -> nat
        decreases i,
    {
        if i <= 0 {
            0
        } else if self.steps[i - 1] is Start && self.states[i] != self.states[i - 1] {
            self.started(i - 1) + 1
        } else {
            self.started(i - 1)
        }
    }

    /// The number of messages that have been sent before the given position.
    pub open spec fn sent(self, i: int) -> nat
        decreases i,
    {
        if i <= 0 {
            0
        } else if self.steps[i - 1] is Send {
            self.sent(i - 1) + 1
        } else {
            self.sent(i - 1)
        }
    }
}

proof fn lemma_run_starts(run: UpdateRun, i: int)
    requires
        run.valid(),
        0 <= i <= run.steps.len(),
    ensures
        run.states[i].max_count == run.states[0].max_count,
        run.started(i) > 0 ==> run.states[0].exec_total() + run.started(i)
            <= run.states[0].max_count && run.states[0].exec_total() + run.started(i)
            <= run.states[0].tasks.len(),
        i < run.steps.len() && run.phases[i] is Starting ==> {
            &&& run.states[i].exec_total() == run.states[0].exec_total() + run.started(i)
            &&& run.states[i].tasks == run.states[0].tasks
        },
    decreases i,
{
    if i > 0 {
        lemma_run_starts(run, i - 1);
        assert(run.goes_on(i - 1));
        let state = run.states[i - 1];
        let next = run.states[i];
        if run.steps[i - 1] is Send && !(run.phases[i - 1] is Releasing) && state.can_assign() {
            let task = choose|task: (nat, TaskModel)| #[trigger]
                state.is_next_task(task) && state.assignment_leads_to(
                    task,
                    run.steps[i - 1],
                    next,
                );
            assert(next.max_count == state.max_count);
        }
    }
}

/// Law: however many executors are started while the queues are processed, there are never more
/// than the maximum on their account, nor more than there are queued tasks.
pub proof fn law_all_starts_are_limited(run: UpdateRun, i: int)
    requires
        run.valid(),
        0 <= i <= run.steps.len(),
        run.started(i) > 0,
    ensures
        run.states[0].exec_total() + run.started(i) <= run.states[0].max_count,
        run.states[0].exec_total() + run.started(i) <= run.states[0].tasks.len(),
{
    lemma_run_starts(run, i);
}

proof fn lemma_run_sends(run: UpdateRun, i: int)
    requires
        run.valid(),
        0 <= i <= run.steps.len(),
    ensures
        run.sent(i) <= run.states[0].idle.len(),
        run.states[i].idle == run.states[0].idle.skip(run.sent(i) as int),
    decreases i,
{
    let idle = run.states[0].idle;
    if i > 0 {
        lemma_run_sends(run, i - 1);
        assert(run.goes_on(i - 1));
        let state = run.states[i - 1];
        let next = run.states[i];
        if run.steps[i - 1] is Send {
            if !(run.phases[i - 1] is Releasing) && state.can_assign() {
                let task = choose|task: (nat, TaskModel)| #[trigger]
                    state.is_next_task(task) && state.assignment_leads_to(
                        task,
                        run.steps[i - 1],
                        next,
                    );
                assert(next.idle == state.idle.drop_first());
            }
            assert(idle.skip(run.sent(i - 1) as int).drop_first() =~= idle.skip(
                run.sent(i) as int,
            ));
        }
    } else {
        assert(idle.skip(0) =~= idle);
    }
}

/// Law: while the queues are processed, the executors get their messages in the order in which
/// they wait: the first message goes to the one that has been idle for longest, the second to the
/// next, and so on.
pub proof fn law_executors_in_turn(run: UpdateRun, i: int)
    requires
        run.valid(),
        0 <= i < run.steps.len(),
        run.steps[i] is Send,
    ensures
        run.sent(i) < run.states[0].idle.len(),
        run.steps[i]->Send_0.to == run.states[0].idle[run.sent(i) as int],
{
    lemma_run_sends(run, i);
    assert(run.goes_on(i));
    let state = run.states[i];
    if !(run.phases[i] is Releasing) && state.can_assign() {
        let task = choose|task: (nat, TaskModel)| #[trigger]
            state.is_next_task(task) && state.assignment_leads_to(
                task,
                run.steps[i],
                run.states[i + 1],
            );
        assert(run.steps[i]->Send_0.to == state.idle[0]);
    }
    assert(state.idle.len() > 0);
    assert(state.idle[0] == run.states[0].idle[run.sent(i) as int]);
}

proof fn lemma_run_tasks(run: UpdateRun, i: int, j: int)
    requires
        run.valid(),
        0 <= i <= j <= run.steps.len(),
    ensures
        forall|k: (nat, TaskModel)| #[trigger]
            run.states[j].tasks.contains_key(k) ==> run.states[i].tasks.contains_key(k)
                && run.states[i].tasks[k] == run.states[j].tasks[k],
    decreases j,
{
    if i < j {
        lemma_run_tasks(run, i, j - 1);
        assert(run.goes_on(j - 1));
        let state = run.states[j - 1];
        let next = run.states[j];
        if run.steps[j - 1] is Send && !(run.phases[j - 1] is Releasing) && state.can_assign() {
            let task = choose|task: (nat, TaskModel)| #[trigger]
                state.is_next_task(task) && state.assignment_leads_to(
                    task,
                    run.steps[j - 1],
                    next,
                );
            assert(next.tasks == state.tasks.remove(task));
        }
        assert forall|k: (nat, TaskModel)| #[trigger]
            next.tasks.contains_key(k) implies run.states[i].tasks.contains_key(k)
            && run.states[i].tasks[k] == next.tasks[k] by {
            assert(state.tasks.contains_key(k));
        }
    }
}

/// Law: while the queues are processed, the tasks are given out in turn: none is given out before
/// one that comes before it.
pub proof fn law_tasks_in_turn(
    run: UpdateRun,
    i: int,
    j: int,
    earlier: (nat, TaskModel),
    later: (nat, TaskModel),
)
    requires
        run.valid(),
        0 <= i <= j < run.steps.len(),
        run.states[i].is_next_task(earlier),
        run.states[j].is_next_task(later),
    ensures
        run.states[0].tasks.contains_key(earlier),
        run.states[0].tasks.contains_key(later),
        !crate::queue::comes_before(
            run.states[0].tasks[later],
            run.states[0].tasks[earlier],
        ),
{
    lemma_run_tasks(run, 0, i);
    lemma_run_tasks(run, i, j);
    assert(run.states[j].tasks.contains_key(later));
    assert(run.states[i].tasks.contains_key(later));
}

/// Law: while the books are in order the status can be reported.
pub proof fn law_status_can_be_reported(state: ServerModel)
    requires
        state.in_order(),
    ensures
        state.running_tasks() >= 0,
        state.running_tasks() >= count_of(state.remotes, |r: Remote| is_working(r)),
{
}

/// Law: while the books are in order, what an executor sends goes to the client that it works for,
/// unless that is dead.
pub proof fn law_output_goes_to_the_client(
    state: ServerModel,
    exec: usize,
    message: Message,
    delivery: Option<Delivery>,
)
    requires
        state.in_order(),
        exec < state.remotes.len(),
        is_working(state.remotes[exec as int]),
        message is TaskOutput || message is TaskDone || message is TaskFailed,
        state.delivers(exec, message, delivery),
    ensures
        ({
            let client = state.remotes[exec as int].paired_id->0 as int;
            &&& state.works_for(exec as int, client)
            &&& match delivery {
                Some(sent) => sent.to == client && sent.message == message,
                None => state.remotes[client].conn_type is Dead,
            }
        }),
{
}

/// Law: what a client sends about its task goes to the executor that it is paired with, unless that
/// is dead, and changes the type and the pairing of no remote.
pub proof fn law_client_reaches_its_executor(
    state: ServerModel,
    client: usize,
    message: Message,
    delivery: Option<Delivery>,
    now: u128,
)
    requires
        state.valid(),
        client < state.remotes.len(),
        state.remotes[client as int].conn_type is Client,
        state.remotes[client as int].paired_id is Some,
        message is TaskOutput || message is TaskDone || message is TaskFailed,
        state.delivers(client, message, delivery),
    ensures
        state.remotes[state.remotes[client as int].paired_id->0 as int].conn_type is Exec ==> (
        delivery matches Some(sent) && sent.to == state.remotes[client as int].paired_id->0
            && sent.message == message),
        state.remotes[state.remotes[client as int].paired_id->0 as int].conn_type is Dead
            ==> delivery is None,
        state.after_message(client, message, now).remotes == state.remotes,
        state.after_message(client, message, now).idle == state.idle,
{
}

/// Law: an executor that is lost is not given a task any more: it does not wait for one, while all
/// the others do as before.
pub proof fn law_lost_executors_do_not_wait(state: ServerModel, id: usize, now: u128)
    ensures
        !state.after_message(id, Message::Dropped, now).idle.contains(id),
        state.after_message(id, Message::Dropped, now).idle == state.idle.filter(
            |x: usize| x != id,
        ),
        !state.idle.contains(id) ==> state.after_message(id, Message::Dropped, now).idle
            == state.idle,
{
    crate::server_model::law_without(state.idle, id);
    lemma_without_is_filter(state.idle, id);
}

proof fn lemma_without_is_filter(ids: Seq<usize>, id: usize)
    ensures
        crate::server_model::without(ids, id) == ids.filter(|x: usize| x != id),
    decreases ids.len(),
{
    reveal(Seq::filter);
    if ids.len() > 0 {
        lemma_without_is_filter(ids.drop_last(), id);
    }
}

/// Law: while the books are in order, the client of an executor that is lost is told so.
pub proof fn law_lost_executor_is_reported(
    state: ServerModel,
    exec: usize,
    delivery: Option<Delivery>,
)
    requires
        state.in_order(),
        exec < state.remotes.len(),
        is_working(state.remotes[exec as int]),
        state.delivers(exec, Message::Dropped, delivery),
    ensures
        ({
            let client = state.remotes[exec as int].paired_id->0 as int;
            &&& state.works_for(exec as int, client)
            &&& delivery matches Some(sent)
            &&& sent.to == client
            &&& sent.message is TaskFailed
        }),
{
}

/// Law: no executor is started beyond the configured maximum, or beyond the number of queued tasks.
pub proof fn law_starts_are_limited(state: ServerModel)
    requires
        state.next_start() is Some,
    ensures
        ({
            let next = state.exec_started(state.next_start()->0);
            &&& next.exec_total() == state.exec_total() + 1
            &&& next.exec_total() <= state.max_count
            &&& next.exec_total() <= state.tasks.len()
        }),
{
}

/// Law: no executor is started in the second queue unless that is in use, and then there is a
/// command for it.
pub proof fn law_second_queue_has_a_command(state: ServerModel)
    ensures
        state.next_start() == Some(true) ==> state.second_start_cmd is Some,
        state.next_start() is Some ==> state.command(state.next_start()->0) is Some,
{
}

/// Law: when no more executors are started, the initial count has been reached, unless the number
/// of queued tasks or the maximum stands in the way.
pub proof fn law_initial_count_is_reached(state: ServerModel)
    requires
        state.next_start() is None,
    ensures
        state.exec_total() >= state.initial_count || state.exec_total() >= state.tasks.len()
            || state.exec_total() >= state.max_count,
{
}

/// Law: with two queues, when no more executors are started, half of those that are wanted are
/// pending in each queue, unless the number of queued tasks or the maximum stands in the way.
pub proof fn law_queues_share_alike(state: ServerModel)
    requires
        state.second_start_cmd is Some,
        state.next_start() is None,
        state.exec_total() < state.tasks.len(),
        state.exec_total() < state.max_count,
    ensures
        2 * state.pending_exec_count >= state.pending_wanted(),
        2 * state.second_pending_exec_count >= state.pending_wanted(),
{
}

/// Law: a priority task comes before any other task that took five minutes or less, or has not
/// been run before.
pub proof fn law_priority_tasks_first(state: ServerModel, urgent: TaskModel, other: TaskModel)
    requires
        urgent.priority_task,
        !other.priority_task,
        state.prior_history.contains_key(crate::ipc::target_of(urgent))
            ==> state.prior_history[crate::ipc::target_of(urgent)].0 > 0,
        state.prior_history.contains_key(crate::ipc::target_of(other))
            ==> state.prior_history[crate::ipc::target_of(other)].0 <= PRIORITY_BUMP,
    ensures
        state.priority(urgent) > state.priority(other),
{
}

/// Law: of two tasks that have been run before, both of them priority tasks or neither, the longer
/// one comes first.
pub proof fn law_longest_first(state: ServerModel, long: TaskModel, short: TaskModel)
    requires
        long.priority_task == short.priority_task,
        state.prior_history.contains_key(crate::ipc::target_of(long)),
        state.prior_history.contains_key(crate::ipc::target_of(short)),
        state.prior_history[crate::ipc::target_of(long)].0 > state.prior_history[crate::ipc::target_of(
            short,
        )].0,
    ensures
        state.priority(long) > state.priority(short),
{
}

/// Law: of two tasks of the same priority, the one that was submitted first comes first.
pub proof fn law_first_come_first_served(
    state: ServerModel,
    task: (nat, TaskModel),
    other: (nat, TaskModel),
)
    requires
        state.is_next_task(task),
        state.tasks.contains_key(other),
        state.tasks[task].0 == state.tasks[other].0,
    ensures
        state.tasks[task].1 <= state.tasks[other].1,
{
}

/// Law: a task that is submitted gets a later number than any that is queued.
pub proof fn law_numbers_follow_submission(
    state: ServerModel,
    id: usize,
    message: Message,
    now: u128,
    other: (nat, TaskModel),
)
    requires
        state.in_order(),
        state.tasks.contains_key(other),
        message is Task,
        other != (id as nat, message->Task_details@),
    ensures
        ({
            let next = state.after_message(id, message, now);
            next.tasks[other].1 < next.tasks[(id as nat, message->Task_details@)].1
        }),
{
}

/// Law: the first time that a build is run, its tasks are processed in the order in which they are
/// submitted, but for priority tasks.
pub proof fn law_first_build_is_in_order(
    state: ServerModel,
    task: (nat, TaskModel),
    other: (nat, TaskModel),
)
    requires
        state.in_order(),
        state.is_next_task(task),
        state.tasks.contains_key(other),
        !state.prior_history.contains_key(crate::ipc::target_of(task.1)),
        !state.prior_history.contains_key(crate::ipc::target_of(other.1)),
        task.1.priority_task == other.1.priority_task,
    ensures
        state.tasks[task].1 <= state.tasks[other].1,
{
}

/// Law: on later runs, a queued task that took longer before is processed before one that took
/// less time, both of them priority tasks or neither.
pub proof fn law_next_task_took_longest(
    state: ServerModel,
    task: (nat, TaskModel),
    other: (nat, TaskModel),
)
    requires
        state.in_order(),
        state.is_next_task(task),
        state.tasks.contains_key(other),
        state.prior_history.contains_key(crate::ipc::target_of(task.1)),
        state.prior_history.contains_key(crate::ipc::target_of(other.1)),
        task.1.priority_task == other.1.priority_task,
    ensures
        state.prior_history[crate::ipc::target_of(task.1)].0
            >= state.prior_history[crate::ipc::target_of(other.1)].0,
{
}

/// Law: the elapsed time of a task is recorded if and only if the task was successful.
pub proof fn law_only_successes_are_recorded(
    state: ServerModel,
    id: usize,
    message: Message,
    now: u128,
)
    ensures
        state.after_message(id, message, now).in_the_making == (match message {
            Message::TaskDone { exit_code, target_id, run_time, .. } if exit_code == Some(
                0i32,
            ) => state.in_the_making.insert(target_id@, (run_time, now)),
            _ => state.in_the_making,
        }),
        state.after_message(id, message, now).prior_history == state.prior_history,
{
}

/// Law: with two queues, an executor that calls is replaced in the queue that it was started in,
/// if more are needed: if that queue had just as many pending as are kept, and the other one has no
/// fewer.
pub proof fn law_replaced_in_the_same_queue(state: ServerModel, id: usize, second_queue: bool)
    requires
        state.second_start_cmd is Some,
        state.exec_total() < state.tasks.len(),
        state.exec_total() < state.max_count,
        state.keep_pending > 0,
        state.keep_pending + state.running_exec_count >= state.initial_count,
        ({
            let half = (state.keep_pending + 1) / 2;
            if second_queue {
                state.second_pending_exec_count == half && state.pending_exec_count >= half
            } else {
                state.pending_exec_count == half && state.second_pending_exec_count >= half
            }
        }),
    ensures
        state.next_start() is None,
        state.remote_is_exec(id, second_queue).next_start() == Some(second_queue),
{
}

/// Law: if no more executors are needed and one calls, then at most more of its own queue are
/// started: new pending ones go to the queue that the new executor came from.
pub proof fn law_only_its_own_queue_is_refilled(state: ServerModel, id: usize, second_queue: bool)
    requires
        state.next_start() is None,
    ensures
        ({
            let next = state.remote_is_exec(id, second_queue).next_start();
            next is None || next == Some(second_queue)
        }),
{
}

impl ServerModel {
    /// The number of executors that a queue lacks: the least of the tasks for which there is none,
    /// the room under the maximum, and the pending ones that are missing.
    pub open spec fn shortage(self, pending: nat, keep_pending: nat) -> nat {
        let tasks = self.tasks.len() - self.exec_total();
        let room = self.max_count - self.exec_total();
        let missing = keep_pending - pending;
        let least = if tasks <= room && tasks <= missing {
            tasks
        } else if room <= missing {
            room
        } else {
            missing
        };
        if least > 0 {
            least as nat
        } else {
            0
        }
    }

    /// The number of executors to keep pending in each queue.
    pub open spec fn pending_each(self) -> nat {
        if self.second_start_cmd is Some {
            (self.pending_wanted() + 1) / 2
        } else {
            self.pending_wanted()
        }
    }

    /// The state after so many executors have been started in the first and in the second queue.
    pub open spec fn with_started(self, first: nat, second: nat) -> ServerModel {
        ServerModel {
            pending_exec_count: self.pending_exec_count + first,
            second_pending_exec_count: self.second_pending_exec_count + second,
            ..self
        }
    }

    /// The number of executors to start in the first queue.
    pub open spec fn first_shortage(self) -> nat {
        self.shortage(self.pending_exec_count, self.pending_each())
    }

    /// The number of executors to start in the second queue, after the first has been served.
    pub open spec fn second_shortage(self) -> nat {
        if self.second_start_cmd is Some {
            self.with_started(self.first_shortage(), 0).shortage(
                self.second_pending_exec_count,
                self.pending_each(),
            )
        } else {
            0
        }
    }
}

/// Law: as many executors are started as are lacking, first in the first queue and then in the
/// second, and no more.
pub proof fn law_starts_fill_the_shortage(state: ServerModel, first: nat, second: nat)
    ensures
        first < state.first_shortage() ==> state.with_started(first, 0).next_start() == Some(false),
        second < state.second_shortage() ==> state.with_started(
            state.first_shortage(),
            second,
        ).next_start() == Some(true),
        state.with_started(state.first_shortage(), state.second_shortage()).next_start() is None,
        state.with_started(0, 0) == state,
        state.with_started(first, second).exec_started(false) == state.with_started(
            first + 1,
            second,
        ),
        state.with_started(first, second).exec_started(true) == state.with_started(
            first,
            second + 1,
        ),
{
    let served = state.with_started(state.first_shortage(), 0);
    let half = state.with_started(state.first_shortage(), second);
    let all = state.with_started(state.first_shortage(), state.second_shortage());
    assert(state.with_started(first, 0).pending_each() == state.pending_each());
    assert(half.pending_each() == state.pending_each());
    assert(all.pending_each() == state.pending_each());
    assert(served.exec_total() == state.exec_total() + state.first_shortage());
    assert(!served.wants_exec(served.pending_exec_count, state.pending_each()));
}

/// Law: a connection that opens with wrong codes is closed, and nothing else changes.
pub proof fn law_refused_changes_nothing_else(
    state: ServerModel,
    id: usize,
    message: Message,
    server_access_code: u64,
    user_private_key: u64,
    delivery: Option<Delivery>,
    now: u128,
)
    requires
        state.in_order(),
        id < state.remotes.len(),
        !(state.remotes[id as int].conn_type is Exec),
        !crate::server::authorized(message, server_access_code, user_private_key),
        state.delivers(id, Message::Dropped, delivery),
    ensures
        message is YourObedientServant || message is Task,
        state.accepts(id, Message::Dropped),
        state.after_message(id, Message::Dropped, now) == state.with_type(
            id as int,
            ConnectionType::Dead,
        ),
        delivery is None,
        !ServerModel::updates(Message::Dropped),
{
    assert(!state.idle.contains(id)) by {
        if state.idle.contains(id) {
            let i = choose|i: int| 0 <= i < state.idle.len() && state.idle[i] == id;
            assert(state.remotes[state.idle[i] as int].conn_type is Exec);
        }
    }
    crate::server_model::law_without(state.idle, id);
}

/// Law: the executors that either command starts are let in, and are counted for the queue that
/// they were started in.
pub proof fn law_started_executors_are_let_in(
    server_access_code: u64,
    user_private_key: u64,
    second_queue: bool,
)
    requires
        server_access_code % 2 == 0,
    ensures
        ({
            let access_code = (server_access_code + (if second_queue {
                1int
            } else {
                0
            })) as u64;
            let message = Message::YourObedientServant { access_code, user_code: user_private_key };
            &&& crate::server::authorized(message, server_access_code, user_private_key)
            &&& (access_code % 2 == 1) == second_queue
        }),
{
}

/// Law: a client that presents the server's codes is let in, and no other is.
pub proof fn law_clients_need_the_codes(
    access_code: u64,
    user_code: u64,
    details: TaskDetails,
    server_access_code: u64,
    user_private_key: u64,
)
    ensures
        crate::server::authorized(
            Message::Task { access_code, user_code, details },
            server_access_code,
            user_private_key,
        ) <==> access_code == server_access_code && user_code == user_private_key,
{
}

/// Law: the server does not shut down while tasks are queued or executors run, nor before the idle
/// period is over.
pub proof fn law_no_early_shutdown(state: ServerModel, now: u128)
    requires
        state.ok_to_shutdown(now),
    ensures
        state.tasks.len() == 0,
        state.running_exec_count == 0,
        now >= state.last_activity_time + (state.idle_shutdown_after + 1) * clock::SECOND,
{
}

/// Law: no executor is released before the release delay since the last submitted task is over,
/// nor if no task has been submitted at all.
pub proof fn law_no_early_release(state: ServerModel, now: u128)
    requires
        state.ok_to_release(now),
    ensures
        state.last_submit_time is Some,
        now >= state.last_submit_time->0 + (state.release_delay + 1) * clock::SECOND,
{
}

/// Law: no message makes a queued task disappear.
pub proof fn law_messages_lose_no_task(
    state: ServerModel,
    id: usize,
    message: Message,
    now: u128,
    task: (nat, TaskModel),
)
    requires
        state.tasks.contains_key(task),
    ensures
        state.after_message(id, message, now).tasks.contains_key(task),
{
}

/// Law: as long as there are more queued tasks than executors, and room under the maximum, the
/// processing of the queues does not rest before as many executors are pending as are to be kept
/// pending, and before the initial count runs or is pending. That holds with one queue and with
/// two, and however many executors run already.
pub proof fn law_executors_are_kept_pending(
    state: ServerModel,
    now: u128,
    step: UpdateStep,
    next: ServerModel,
)
    requires
        state.update_leads_to(UpdatePhase::Starting, now, step, next),
        !(step is Start),
        state.running_exec_count + state.pending_exec_count + state.second_pending_exec_count
            < state.tasks.len(),
        state.running_exec_count + state.pending_exec_count + state.second_pending_exec_count
            < state.max_count,
    ensures
        state.pending_exec_count + state.second_pending_exec_count >= state.keep_pending,
        state.running_exec_count + state.pending_exec_count + state.second_pending_exec_count
            >= state.initial_count,
{
}

/// Law: the same of the decision alone.
pub proof fn law_no_start_means_enough_are_pending(state: ServerModel)
    requires
        state.next_start() is None,
        state.running_exec_count + state.pending_exec_count + state.second_pending_exec_count
            < state.tasks.len(),
        state.running_exec_count + state.pending_exec_count + state.second_pending_exec_count
            < state.max_count,
    ensures
        state.pending_exec_count + state.second_pending_exec_count >= state.keep_pending,
        state.running_exec_count + state.pending_exec_count + state.second_pending_exec_count
            >= state.initial_count,
        state.second_start_cmd is Some ==> 2 * state.pending_exec_count >= state.keep_pending && 2
            * state.second_pending_exec_count >= state.keep_pending,
{
}

/// Law: the number of executors to keep pending is the least that is neither below the configured
/// one nor below what is missing to the initial count.
pub proof fn law_pending_wanted_is_least(state: ServerModel, enough: int)
    ensures
        state.pending_wanted() >= state.keep_pending,
        state.pending_wanted() + state.running_exec_count >= state.initial_count,
        enough >= state.keep_pending && enough + state.running_exec_count >= state.initial_count
            && enough >= 0 ==> enough >= state.pending_wanted(),
        state.init_needed() + state.running_exec_count >= state.initial_count,
        enough >= 0 && enough + state.running_exec_count >= state.initial_count ==> enough
            >= state.init_needed(),
{
}

/// Law: an executor is started if and only if there are more queued tasks than executors that run
/// or are pending, there is room under the maximum, and a queue has fewer pending than it should:
/// with one queue, fewer than are to be kept pending or are missing to the initial count, and with
/// two, less than half of that each. The first queue comes first.
pub proof fn law_when_executors_are_started(state: ServerModel)
    ensures
        ({
            let total = state.running_exec_count + state.pending_exec_count
                + state.second_pending_exec_count;
            let room = total < state.tasks.len() && total < state.max_count;
            let first = state.pending_exec_count;
            let second = state.second_pending_exec_count;
            let running = state.running_exec_count;
            if state.second_start_cmd is None {
                &&& state.next_start() != Some(true)
                &&& state.next_start() == Some(false) <==> room && (first < state.keep_pending
                    || first + running < state.initial_count)
            } else {
                let first_lacks = 2 * first < state.keep_pending || 2 * first + running
                    < state.initial_count;
                let second_lacks = 2 * second < state.keep_pending || 2 * second + running
                    < state.initial_count;
                &&& state.next_start() == Some(false) <==> room && first_lacks
                &&& state.next_start() == Some(true) <==> room && !first_lacks && second_lacks
            }
        }),
{
}

/// Law: an executor that has been started is pending in its queue, and nothing else has changed.
pub proof fn law_a_start_is_counted(state: ServerModel, second_queue: bool)
    ensures
        state.exec_started(second_queue).second_pending_exec_count
            == state.second_pending_exec_count + (if second_queue {
            1nat
        } else {
            0
        }),
        state.exec_started(second_queue).pending_exec_count == state.pending_exec_count + (
        if second_queue {
            0nat
        } else {
            1
        }),
        state.exec_started(second_queue) == (ServerModel {
            pending_exec_count: state.exec_started(second_queue).pending_exec_count,
            second_pending_exec_count: state.exec_started(second_queue).second_pending_exec_count,
            ..state
        }),
{
}

/// Law: an executor whose task has ended, well or badly, is free for the next: whatever the exit
/// code, it is unpaired, it waits behind all that wait already, and the task counts as finished.
pub proof fn law_executor_is_free_again(
    state: ServerModel,
    id: usize,
    message: Message,
    now: u128,
)
    requires
        id < state.remotes.len(),
        state.remotes[id as int].conn_type is Exec,
        message is TaskDone || message is TaskFailed,
    ensures
        ({
            let next = state.after_message(id, message, now);
            &&& next.idle == state.idle.push(id)
            &&& next.finish_count == state.finish_count + 1
            &&& next.remotes.len() == state.remotes.len()
            &&& next.remotes[id as int].paired_id is None
            &&& next.remotes[id as int].conn_type is Exec
            &&& forall|i: int|
                0 <= i < state.remotes.len() && i != id ==> #[trigger] next.remotes[i]
                    == state.remotes[i]
        }),
{
}

/// Law: the end of a task is counted with its times, whoever tells of it, and changes nothing but
/// that, the record of a success and the executor that is free again. Of a remote that is no
/// executor, no pairing changes and none waits.
pub proof fn law_times_add_up(state: ServerModel, id: usize, message: Message, now: u128)
    requires
        id < state.remotes.len(),
    ensures
        ({
            let next = state.after_message(id, message, now);
            match message {
                Message::TaskDone { run_time, send_time, .. } => {
                    &&& next.total_run_time == state.total_run_time + run_time
                    &&& next.total_send_time == state.total_send_time + send_time
                    &&& next.peak_send_time >= state.peak_send_time
                    &&& next.peak_send_time >= send_time
                    &&& next.peak_send_time == state.peak_send_time || next.peak_send_time
                        == send_time
                    &&& next.finish_count == state.finish_count + 1
                },
                Message::TaskFailed { .. } => {
                    &&& next.total_run_time == state.total_run_time
                    &&& next.total_send_time == state.total_send_time
                    &&& next.peak_send_time == state.peak_send_time
                    &&& next.finish_count == state.finish_count + 1
                },
                _ => {
                    &&& next.total_run_time == state.total_run_time
                    &&& next.total_send_time == state.total_send_time
                    &&& next.peak_send_time == state.peak_send_time
                    &&& next.finish_count == state.finish_count
                },
            }
        }),
        (message is TaskDone || message is TaskFailed) && !(
        state.remotes[id as int].conn_type is Exec) ==> {
            &&& state.after_message(id, message, now).remotes == state.remotes
            &&& state.after_message(id, message, now).idle == state.idle
        },
{
}

/// Law: every task that is submitted, and nothing else, sets the time since which no task has come
/// in: it is always that of the most recent one.
pub proof fn law_last_submission_counts(state: ServerModel, id: usize, message: Message, now: u128)
    ensures
        message is Task ==> state.after_message(id, message, now).last_submit_time == Some(now),
        !(message is Task) ==> state.after_message(id, message, now).last_submit_time
            == state.last_submit_time,
        state.after_message(id, message, now).last_activity_time == state.last_activity_time,
{
}

/// Law: as long as tasks come in, no executor is released: none is before the release delay is over
/// since the most recent task.
pub proof fn law_no_release_after_a_submission(
    state: ServerModel,
    id: usize,
    message: Message,
    submitted: u128,
    now: u128,
)
    requires
        message is Task,
        now < submitted + (state.release_delay + 1) * 1_000_000_000,
    ensures
        !state.after_message(id, message, submitted).ok_to_release(now),
{
}

/// Law: idle executors may be released if and only if a task has come in, and none for more whole
/// seconds than the release delay.
pub proof fn law_when_executors_are_released(state: ServerModel, now: u128)
    ensures
        state.ok_to_release(now) <==> (state.last_submit_time matches Some(time) && now >= time + (
        state.release_delay + 1) * 1_000_000_000),
{
}

/// Law: the server shuts down if and only if no task is queued, no executor runs, and nothing has
/// happened for more whole seconds than the idle period.
pub proof fn law_when_the_server_shuts_down(state: ServerModel, now: u128)
    requires
        state.tasks.dom().finite(),
    ensures
        state.ok_to_shutdown(now) <==> state.tasks.len() == 0 && state.running_exec_count == 0
            && now >= state.last_activity_time + (state.idle_shutdown_after + 1) * 1_000_000_000,
{
    if state.tasks.len() == 0 {
        assert(state.tasks.dom() =~= Set::<(nat, TaskModel)>::empty());
    }
}

/// Law: a task that is submitted is queued for its client, behind all of its priority that were
/// submitted before, and nothing else is queued or lost.
pub proof fn law_a_submission_is_queued(
    state: ServerModel,
    id: usize,
    message: Message,
    now: u128,
    other: (nat, TaskModel),
)
    requires
        id < state.remotes.len(),
        message is Task,
        state.priority(message->Task_details@) <= u128::MAX,
    ensures
        ({
            let next = state.after_message(id, message, now);
            let task = (id as nat, message->Task_details@);
            &&& next.tasks.contains_key(task)
            &&& next.tasks[task].0 == state.priority(task.1)
            &&& next.tasks[task].1 == state.submit_count + 1
            &&& next.submit_count == state.submit_count + 1
            &&& other != task ==> (next.tasks.contains_key(other) <==> state.tasks.contains_key(
                other,
            )) && next.tasks[other] == state.tasks[other]
            &&& next.remotes.len() == state.remotes.len()
            &&& next.remotes[id as int].conn_type is Client
            &&& next.remotes[id as int].paired_id == state.remotes[id as int].paired_id
            &&& forall|i: int|
                0 <= i < state.remotes.len() && i != id ==> #[trigger] next.remotes[i]
                    == state.remotes[i]
            &&& next.idle == state.idle
        }),
{
}

/// Law: only tasks that are submitted are counted as such, and no other message changes the queue.
pub proof fn law_only_submissions_are_queued(
    state: ServerModel,
    id: usize,
    message: Message,
    now: u128,
)
    requires
        !(message is Task),
    ensures
        state.after_message(id, message, now).tasks == state.tasks,
        state.after_message(id, message, now).submit_count == state.submit_count,
{
}

/// Law: an executor that calls runs from then on, is one less pending in the queue that the last bit
/// of its access code tells, and waits for a task behind all that wait already.
pub proof fn law_an_executor_joins(state: ServerModel, id: usize, message: Message, now: u128)
    requires
        id < state.remotes.len(),
        message is YourObedientServant,
    ensures
        ({
            let next = state.after_message(id, message, now);
            let second_queue = message->YourObedientServant_access_code % 2 == 1;
            &&& next.running_exec_count == state.running_exec_count + 1
            &&& next.idle == state.idle.push(id)
            &&& next.remotes.len() == state.remotes.len()
            &&& next.remotes[id as int].conn_type is Exec
            &&& next.remotes[id as int].paired_id is None
            &&& forall|i: int|
                0 <= i < state.remotes.len() && i != id ==> #[trigger] next.remotes[i]
                    == state.remotes[i]
            &&& second_queue ==> next.pending_exec_count == state.pending_exec_count && (
            if state.second_pending_exec_count > 0 {
                next.second_pending_exec_count + 1 == state.second_pending_exec_count
            } else {
                next.second_pending_exec_count == 0
            })
            &&& !second_queue ==> next.second_pending_exec_count == state.second_pending_exec_count
                && (if state.pending_exec_count > 0 {
                next.pending_exec_count + 1 == state.pending_exec_count
            } else {
                next.pending_exec_count == 0
            })
        }),
{
}

/// Law: the counts of executors change only when one calls or is lost: one that is lost does not
/// run any more, and any other remote that is lost was not counted.
pub proof fn law_executors_are_counted(state: ServerModel, id: usize, message: Message, now: u128)
    requires
        id < state.remotes.len(),
        !(message is YourObedientServant),
    ensures
        ({
            let next = state.after_message(id, message, now);
            &&& next.pending_exec_count == state.pending_exec_count
            &&& next.second_pending_exec_count == state.second_pending_exec_count
            &&& if message is Dropped && state.remotes[id as int].conn_type is Exec
                && state.running_exec_count > 0 {
                next.running_exec_count + 1 == state.running_exec_count
            } else if message is Dropped && state.remotes[id as int].conn_type is Exec {
                true
            } else {
                next.running_exec_count == state.running_exec_count
            }
        }),
{
}

/// Law: a connection that is dropped is dead and keeps its pairing, and no other one changes.
pub proof fn law_a_lost_connection_is_dead(state: ServerModel, id: usize, now: u128)
    requires
        id < state.remotes.len(),
    ensures
        ({
            let next = state.after_message(id, Message::Dropped, now);
            &&& next.remotes.len() == state.remotes.len()
            &&& next.remotes[id as int].conn_type is Dead
            &&& next.remotes[id as int].paired_id == state.remotes[id as int].paired_id
            &&& forall|i: int|
                0 <= i < state.remotes.len() && i != id ==> #[trigger] next.remotes[i]
                    == state.remotes[i]
            &&& forall|other: usize|
                other != id ==> (#[trigger] next.idle.contains(other) <==> state.idle.contains(
                    other,
                ))
            &&& !next.idle.contains(id)
        }),
{
    crate::server_model::law_without(state.idle, id);
}

/// Law: output is counted byte by byte, up to the largest number that can be held, in total and for
/// the reporting period, and changes nothing else. No other message counts as output.
pub proof fn law_output_is_counted(state: ServerModel, id: usize, message: Message, now: u128)
    requires
        state.total_bytes <= u64::MAX,
        state.bytes_this_period <= u64::MAX,
    ensures
        ({
            let next = state.after_message(id, message, now);
            match message {
                Message::TaskOutput { content, .. } => {
                    &&& next.total_bytes <= u64::MAX
                    &&& state.total_bytes + content@.len() <= u64::MAX ==> next.total_bytes
                        == state.total_bytes + content@.len()
                    &&& state.total_bytes + content@.len() > u64::MAX ==> next.total_bytes
                        == u64::MAX
                    &&& state.bytes_this_period + content@.len() <= u64::MAX
                        ==> next.bytes_this_period == state.bytes_this_period + content@.len()
                    &&& state.bytes_this_period + content@.len() > u64::MAX
                        ==> next.bytes_this_period == u64::MAX
                    &&& next.remotes == state.remotes
                    &&& next.idle == state.idle
                },
                _ => {
                    &&& next.total_bytes == state.total_bytes
                    &&& next.bytes_this_period == state.bytes_this_period
                },
            }
        }),
{
}

/// Law: no message and no step of the processing of the queues changes the configuration, the
/// commands or the history of earlier runs.
pub proof fn law_configuration_stays(
    state: ServerModel,
    id: usize,
    message: Message,
    phase: UpdatePhase,
    now: u128,
    step: UpdateStep,
    next: ServerModel,
)
    requires
        state.update_leads_to(phase, now, step, next) || next == state.after_message(
            id,
            message,
            now,
        ),
    ensures
        next.initial_count == state.initial_count,
        next.max_count == state.max_count,
        next.keep_pending == state.keep_pending,
        next.release_delay == state.release_delay,
        next.idle_shutdown_after == state.idle_shutdown_after,
        next.start_cmd == state.start_cmd,
        next.second_start_cmd == state.second_start_cmd,
        next.prior_history == state.prior_history,
        next.last_activity_time == state.last_activity_time,
{
    if state.update_leads_to(phase, now, step, next) && !(phase is Starting
        && state.next_start() is Some) && !(phase is Releasing) && state.can_assign() {
        let task = choose|task: (nat, TaskModel)| #[trigger]
            state.is_next_task(task) && state.assignment_leads_to(task, step, next);
        assert(next == state.taken(task) || next == state.taken(task).paired(
            task.0 as usize,
            state.idle[0],
        ));
    }
}

/// Law: which messages are accepted. Those that open a connection are as long as the counts
/// suffice, those about a task if the sender is paired, and the loss of a connection as long as a
/// lost executor is counted; the others are never sent to the server.
pub proof fn law_what_is_accepted(state: ServerModel, id: usize, message: Message)
    ensures
        state.accepts(id, message) <==> id < state.remotes.len() && match message {
            Message::YourObedientServant { .. } => state.running_exec_count < usize::MAX,
            Message::Task { details, .. } => state.submit_count < usize::MAX && state.priority(
                details@,
            ) <= 18_446_744_073_709_551_615_999_999_999,
            Message::TaskOutput { .. } => state.remotes[id as int].paired_id is Some,
            Message::TaskFailed { .. } => state.remotes[id as int].paired_id is Some
                && state.finish_count < usize::MAX,
            Message::TaskDone { run_time, send_time, .. } => {
                &&& state.remotes[id as int].paired_id is Some
                &&& state.finish_count < usize::MAX
                &&& state.total_run_time + run_time <= 18_446_744_073_709_551_615_999_999_999
                &&& state.total_send_time + send_time <= 18_446_744_073_709_551_615_999_999_999
            },
            Message::Dropped => !(state.remotes[id as int].conn_type is Exec)
                || state.running_exec_count > 0,
            Message::LastTaskSent | Message::CancelTask | Message::PissOff => false,
        },
{
}

/// Law: who gets which message. What is said about a task goes unchanged to the paired remote, if
/// that is a client, or if a client sends it to an executor; it may fail to arrive. The client of
/// an executor that is lost in the middle of a task must be told so. Nothing else is sent.
pub proof fn law_who_is_sent_what(
    state: ServerModel,
    id: usize,
    message: Message,
    delivery: Option<Delivery>,
)
    requires
        id < state.remotes.len(),
        state.delivers(id, message, delivery),
    ensures
        ({
            let sender = state.remotes[id as int];
            let other = state.remotes[sender.paired_id->0 as int];
            match message {
                Message::TaskOutput { .. }
                | Message::TaskDone { .. }
                | Message::TaskFailed { .. } => {
                    &&& delivery is Some <==> other.conn_type is Client || (
                    sender.conn_type is Client && other.conn_type is Exec)
                    &&& delivery matches Some(sent) ==> sent.to == sender.paired_id->0
                        && sent.message == message && !sent.must_arrive
                },
                Message::Dropped => {
                    &&& delivery is Some <==> sender.conn_type is Exec && sender.paired_id is Some
                    &&& delivery matches Some(sent) ==> {
                        &&& sent.to == sender.paired_id->0
                        &&& sent.must_arrive
                        &&& sent.message matches Message::TaskFailed { error_message }
                        &&& error_message@ == "exec dropped connection"@
                    }
                },
                _ => delivery is None,
            }
        }),
{
}

/// Law: the queues are processed after every message that can make a difference to them: a new
/// executor, a new task, and the end of a task; output and lost connections leave that to the timer.
pub proof fn law_when_the_queues_are_processed(message: Message)
    ensures
        ServerModel::updates(message) <==> match message {
            Message::YourObedientServant { .. } => true,
            Message::Task { .. } => true,
            Message::TaskDone { .. } => true,
            Message::TaskFailed { .. } => true,
            _ => false,
        },
{
}

/// Law: what the processing of the queues does next. An executor is started as long as one is
/// needed; then, if there are a task and an idle executor, the task goes out or the pairing clashes;
/// then, if no more tasks are coming, an idle executor is told to go; and only if there is nothing
/// of that to do, the processing is done.
pub proof fn law_what_update_does_next(
    state: ServerModel,
    phase: UpdatePhase,
    now: u128,
    step: UpdateStep,
    next: ServerModel,
)
    requires
        state.tasks.dom().finite(),
        state.update_leads_to(phase, now, step, next),
    ensures
        ({
            let starts = phase is Starting && state.next_start() is Some;
            let assigns = !(phase is Releasing) && state.tasks.len() > 0 && state.idle.len() > 0;
            let coming = state.last_submit_time matches Some(time) ==> now < time + (
            state.release_delay + 1) * 1_000_000_000;
            let releases = state.idle.len() > 0 && (phase is Releasing || !coming);
            &&& step is Start <==> starts
            &&& step matches UpdateStep::Start(queue) ==> state.next_start() == Some(queue) && next
                == state
            &&& step is Done <==> !starts && !assigns && !releases
            &&& step is Done ==> next == state
            &&& step matches UpdateStep::Send(sent, after) ==> {
                &&& sent.to == state.idle[0]
                &&& sent.must_arrive
                &&& sent.message is Task <==> assigns
                &&& sent.message is PissOff <==> !assigns
                &&& after is Assigning <==> assigns
                &&& after is Releasing <==> !assigns
            }
            &&& !starts && (assigns || releases) ==> next.idle == state.idle.drop_first()
        }),
{
    if state.tasks.len() == 0 {
        assert(state.tasks.dom() =~= Set::<(nat, TaskModel)>::empty());
    }
    if !(phase is Starting && state.next_start() is Some) && !(phase is Releasing)
        && state.can_assign() {
        let task = choose|task: (nat, TaskModel)| #[trigger]
            state.is_next_task(task) && state.assignment_leads_to(task, step, next);
        assert(next.idle == state.idle.drop_first());
    }
}

/// Law: a task that goes out leaves the queue, and is one that no other queued task comes before:
/// none has a greater priority, and none of the same priority was submitted earlier. Its client and
/// the executor that has been idle for longest are paired with each other, and nothing else changes.
pub proof fn law_a_task_goes_out(
    state: ServerModel,
    phase: UpdatePhase,
    now: u128,
    step: UpdateStep,
    next: ServerModel,
)
    requires
        state.valid(),
        state.remotes.len() <= 0x1_0000_0000,
        state.update_leads_to(phase, now, step, next),
        step matches UpdateStep::Send(sent, _) && sent.message is Task,
    ensures
        exists|task: (nat, TaskModel)| #[trigger]
            state.tasks.contains_key(task) && {
                let exec = state.idle[0] as int;
                let client = task.0 as int;
                &&& step->Send_0.message->Task_access_code == 0
                &&& step->Send_0.message->Task_user_code == 0
                &&& step->Send_0.message->Task_details@ == task.1
                &&& forall|other: (nat, TaskModel)| #[trigger]
                    state.tasks.contains_key(other) ==> state.tasks[other].0 < state.tasks[task].0
                        || (state.tasks[other].0 == state.tasks[task].0 && state.tasks[other].1
                        >= state.tasks[task].1)
                &&& exec != client
                &&& state.remotes[exec].paired_id is None
                &&& state.remotes[client].paired_id is None
                &&& next.remotes.len() == state.remotes.len()
                &&& next.remotes[exec].paired_id == Some(client as u32)
                &&& next.remotes[client].paired_id == Some(exec as u32)
                &&& next.remotes[exec].conn_type == state.remotes[exec].conn_type
                &&& next.remotes[client].conn_type == state.remotes[client].conn_type
                &&& forall|i: int|
                    0 <= i < state.remotes.len() && i != exec && i != client
                        ==> #[trigger] next.remotes[i] == state.remotes[i]
                &&& next == (ServerModel {
                    remotes: next.remotes,
                    idle: state.idle.drop_first(),
                    tasks: state.tasks.remove(task),
                    ..state
                })
            },
{
    if !(phase is Starting && state.next_start() is Some) && !(phase is Releasing)
        && state.can_assign() {
        let task = choose|task: (nat, TaskModel)| #[trigger]
            state.is_next_task(task) && state.assignment_leads_to(task, step, next);
        assert(state.tasks.contains_key(task));
        let exec = state.idle[0];
        assert(exec < state.remotes.len());
        assert(state.taken(task).can_pair(task.0 as usize, exec));
        assert(next == state.taken(task).paired(task.0 as usize, exec));
    }
}

/// Law: the books clash only if the next task cannot be given to the next executor, because they are
/// one and the same remote or one of them is paired already, or if an executor is to be released
/// while none is counted as running.
pub proof fn law_when_the_books_clash(
    state: ServerModel,
    phase: UpdatePhase,
    now: u128,
    step: UpdateStep,
    next: ServerModel,
)
    requires
        state.valid(),
        state.remotes.len() <= 0x1_0000_0000,
        state.update_leads_to(phase, now, step, next),
        step is Clash,
    ensures
        state.idle.len() > 0,
        state.running_exec_count == 0 || exists|task: (nat, TaskModel)| #[trigger]
            state.tasks.contains_key(task) && {
                ||| task.0 == state.idle[0]
                ||| state.remotes[task.0 as int].paired_id is Some
                ||| state.remotes[state.idle[0] as int].paired_id is Some
            },
{
    if !(phase is Starting && state.next_start() is Some) && !(phase is Releasing)
        && state.can_assign() {
        let task = choose|task: (nat, TaskModel)| #[trigger]
            state.is_next_task(task) && state.assignment_leads_to(task, step, next);
        assert(state.tasks.contains_key(task));
        assert(state.idle[0] < state.remotes.len());
    }
}

/// Law: an executor that is released is dead, does not wait or run any more, and nothing else
/// changes.
pub proof fn law_an_executor_goes(
    state: ServerModel,
    phase: UpdatePhase,
    now: u128,
    step: UpdateStep,
    next: ServerModel,
)
    requires
        state.valid(),
        state.update_leads_to(phase, now, step, next),
        step matches UpdateStep::Send(sent, _) && sent.message is PissOff,
    ensures
        ({
            let exec = state.idle[0] as int;
            &&& state.running_exec_count == next.running_exec_count + 1
            &&& next.remotes.len() == state.remotes.len()
            &&& next.remotes[exec].conn_type is Dead
            &&& next.remotes[exec].paired_id == state.remotes[exec].paired_id
            &&& forall|i: int|
                0 <= i < state.remotes.len() && i != exec ==> #[trigger] next.remotes[i]
                    == state.remotes[i]
            &&& next == (ServerModel {
                remotes: next.remotes,
                idle: state.idle.drop_first(),
                running_exec_count: next.running_exec_count,
                ..state
            })
        }),
{
    assert(state.idle[0] < state.remotes.len());
}

/// Law: the priority of a task is the time that it took before, or a second if that is not known,
/// and five minutes more if it is a priority task.
pub proof fn law_priority_is_elapsed_time(state: ServerModel, task: TaskModel)
    ensures
        ({
            let target = crate::ipc::target_of(task);
            let bump = if task.priority_task {
                300_000_000_000int
            } else {
                0
            };
            &&& state.prior_history.contains_key(target) ==> state.priority(task)
                == state.prior_history[target].0 + bump
            &&& !state.prior_history.contains_key(target) ==> state.priority(task)
                == 1_000_000_000 + bump
        }),
{
}

/// Law: a server starts with nobody connected, nothing queued and nothing counted, and with the
/// configuration that it is given. A number of processors that is asked for overrides the maximum,
/// and no other setting.
pub proof fn law_a_server_starts_empty(
    config: ExecConfig,
    prior_history: crate::history::Records,
    port: CallMe,
    max_cpus: Option<usize>,
    alt_start_cmd: bool,
    both_queues: bool,
    now: u128,
)
    ensures
        ({
            let state = crate::server_model::initial_state(
                config,
                prior_history,
                port,
                max_cpus,
                alt_start_cmd,
                both_queues,
                now,
            );
            &&& state.remotes.len() == 0
            &&& state.tasks.len() == 0
            &&& state.idle.len() == 0
            &&& state.submit_count == 0
            &&& state.finish_count == 0
            &&& state.pending_exec_count == 0
            &&& state.second_pending_exec_count == 0
            &&& state.running_exec_count == 0
            &&& state.last_submit_time is None
            &&& state.last_activity_time == now
            &&& state.initial_count == config.initial_count
            &&& max_cpus is None ==> state.max_count == config.max_count
            &&& max_cpus is Some ==> state.max_count == max_cpus->0
            &&& state.keep_pending == config.keep_pending
            &&& state.release_delay == config.release_delay
            &&& state.idle_shutdown_after == config.idle_shutdown_after
            &&& state.prior_history == prior_history
            &&& state.in_the_making.dom() == Set::<Seq<char>>::empty()
            &&& state.total_bytes == 0
            &&& state.bytes_this_period == 0
            &&& state.total_run_time == 0
            &&& state.total_send_time == 0
            &&& state.peak_send_time == 0
        }),
{
}

/// Law: an executor is started by the configured command, or by the alternate one if that is asked
/// for and configured, with the address and the access code of the server. The second queue is in
/// use if and only if that is asked for and there is an alternate command, which is then given the
/// code that differs in its last bit.
pub proof fn law_start_commands(
    config: ExecConfig,
    prior_history: crate::history::Records,
    port: CallMe,
    max_cpus: Option<usize>,
    alt_start_cmd: bool,
    both_queues: bool,
    now: u128,
)
    ensures
        ({
            let state = crate::server_model::initial_state(
                config,
                prior_history,
                port,
                max_cpus,
                alt_start_cmd,
                both_queues,
                now,
            );
            let call = " exec --callme="@ + port.addr@ + " --code="@;
            let code = crate::text::decimal(port.access_code as nat);
            let second_code = crate::text::decimal(port.access_code as nat + 1);
            &&& config.alt_start_cmd is None || !alt_start_cmd ==> state.command(false) == Some(
                config.start_cmd@ + call + code,
            )
            &&& config.alt_start_cmd is Some && alt_start_cmd ==> state.command(false) == Some(
                config.alt_start_cmd->0@ + call + code,
            )
            &&& state.command(true) is Some <==> config.alt_start_cmd is Some && both_queues
            &&& state.command(true) is Some ==> state.command(true) == Some(
                config.alt_start_cmd->0@ + call + second_code,
            )
            &&& state.command(true) == state.second_start_cmd
        }),
{
    let call = " exec --callme="@ + port.addr@ + " --code="@;
    let code = crate::text::decimal(port.access_code as nat);
    let second_code = crate::text::decimal(port.access_code as nat + 1);
    assert(config.start_cmd@ + " exec --callme="@ + port.addr@ + " --code="@ + code
        =~= config.start_cmd@ + call + code);
    if let Some(cmd) = config.alt_start_cmd {
        assert(cmd@ + " exec --callme="@ + port.addr@ + " --code="@ + code =~= cmd@ + call + code);
        assert(cmd@ + " exec --callme="@ + port.addr@ + " --code="@ + second_code =~= cmd@ + call
            + second_code);
    }
}

/// Law: a new connection gets the next number, is not identified or paired yet, and changes nothing
/// else.
pub proof fn law_a_connection_is_added(state: ServerModel)
    ensures
        ({
            let next = state.remote_added();
            &&& next.remotes.len() == state.remotes.len() + 1
            &&& next.remotes.last().conn_type is Pending
            &&& next.remotes.last().paired_id is None
            &&& next.remotes.drop_last() == state.remotes
            &&& next == (ServerModel { remotes: next.remotes, ..state })
        }),
{
    assert(state.remote_added().remotes.drop_last() =~= state.remotes);
}

/// Law: remotes are paired under their own numbers, up to the largest that can be held.
pub proof fn law_pairing_keeps_the_number(id: usize)
    ensures
        id < 0x1_0000_0000 ==> crate::server_model::pair_id(id) == id,
        (id - crate::server_model::pair_id(id)) % 0x1_0000_0000 == 0,
{
}

/// Law: byte counts are divided as numbers are, and a period of no length gives the largest count.
pub proof fn law_byte_counts(a: nat, b: nat)
    requires
        a <= u64::MAX,
        b <= u64::MAX,
    ensures
        crate::server_model::byte_sum(a, b) == crate::server_model::byte_sum(b, a),
        crate::server_model::byte_sum(a, b) >= a,
        a + b <= u64::MAX ==> crate::server_model::byte_sum(a, b) == a + b,
        a + b >= u64::MAX ==> crate::server_model::byte_sum(a, b) == u64::MAX,
        b > 0 ==> b * crate::server_model::byte_share(a, b) <= a < b * (
        crate::server_model::byte_share(a, b) + 1),
        crate::server_model::byte_share(a, 0) == u64::MAX,
{
    if b > 0 {
        let share = a / b;
        assert(b * share <= a < b * (share + 1)) by (nonlinear_arith)
            requires
                b > 0,
                share == a / b,
                a >= 0,
        ;
    }
}

/// Law: the status tells how many tasks are finished and submitted, how many run, which are those
/// that are neither finished nor queued, how many executors run, and the bytes per second. It is
/// told if and only if a task or an executor runs or there was output in the period.
pub proof fn law_what_the_status_tells(state: ServerModel, reporting_period: u64)
    requires
        state.submit_count >= state.finish_count + state.tasks.len(),
    ensures
        ({
            let running = (state.submit_count - state.finish_count - state.tasks.len()) as nat;
            let rate = crate::server_model::byte_share(
                state.bytes_this_period,
                reporting_period as nat,
            ) as u64;
            &&& state.running_tasks() == running
            &&& state.busy() <==> running > 0 || state.running_exec_count > 0
                || state.bytes_this_period > 0
            &&& state.status_line(reporting_period) == "SprayCC: "@ + crate::text::decimal(
                state.finish_count,
            ) + " / "@ + crate::text::decimal(state.submit_count) + " finished, "@
                + crate::text::decimal(running) + " running, "@ + crate::text::decimal(
                state.running_exec_count,
            ) + " executors, "@ + crate::server::byte_count_text(rate) + " / sec"@
        }),
{
}

/// Law: what is told before executors are started: the lengths of the queues, and how many are
/// missing and wanted.
pub proof fn law_what_is_told_of_starts(state: ServerModel)
    ensures
        state.start_line() == "SprayCC: start execs: queue="@ + crate::text::decimal(
            state.tasks.len(),
        ) + ", running="@ + crate::text::decimal(state.running_exec_count) + ", pending="@
            + crate::text::decimal(state.pending_exec_count) + ","@ + crate::text::decimal(
            state.second_pending_exec_count,
        ) + " init_needed="@ + crate::text::decimal(state.init_needed()) + ", keep_pending="@
            + crate::text::decimal(state.pending_wanted()),
{
}

/// Law: an executor is let in if and only if it presents the server's access code, or that with the
/// last bit set, and the user's key. Messages that open no connection need no codes.
pub proof fn law_executors_need_the_codes(
    message: Message,
    server_access_code: u64,
    user_private_key: u64,
)
    requires
        server_access_code % 2 == 0,
    ensures
        message matches Message::YourObedientServant { access_code, user_code } ==> (
        crate::server::authorized(message, server_access_code, user_private_key) <==> (access_code
            == server_access_code || access_code == server_access_code + 1) && user_code
            == user_private_key),
        !(message is YourObedientServant) && !(message is Task) ==> crate::server::authorized(
            message,
            server_access_code,
            user_private_key,
        ),
{
}

/// Law: the interfaces that lead to the network are those that are no loopback, in their order.
pub proof fn law_network_interfaces(interfaces: Seq<crate::server::Interface>, position: int)
    ensures
        ({
            let found = crate::server::network_interfaces(interfaces);
            &&& found.contains(position) <==> 0 <= position < interfaces.len()
                && !interfaces[position].loopback
            &&& forall|i: int, j: int|
                0 <= i < j < found.len() ==> #[trigger] found[i] < #[trigger] found[j]
            &&& forall|i: int|
                0 <= i < found.len() ==> 0 <= #[trigger] found[i] < interfaces.len()
        }),
    decreases interfaces.len(),
{
    if interfaces.len() > 0 {
        let front = interfaces.drop_last();
        let last = interfaces.len() - 1;
        law_network_interfaces(front, position);
        let before = crate::server::network_interfaces(front);
        let found = crate::server::network_interfaces(interfaces);
        if position < last && 0 <= position {
            assert(front[position] == interfaces[position]);
        }
        if before.contains(position) {
            let i = choose|i: int| 0 <= i < before.len() && before[i] == position;
            assert(found[i] == position);
        }
        if position == last && !interfaces[last].loopback {
            assert(found[found.len() - 1] == position);
        }
        if found.contains(position) && !before.contains(position) {
            let i = choose|i: int| 0 <= i < found.len() && found[i] == position;
            if i < before.len() {
                assert(before[i] == position);
            }
        }
        assert forall|i: int, j: int| 0 <= i < j < found.len() implies #[trigger] found[i]
            < #[trigger] found[j] by {
            assert(before[i] == found[i]);
            if j < before.len() {
                assert(before[j] == found[j]);
            }
        }
        assert forall|i: int| 0 <= i < found.len() implies 0 <= #[trigger] found[i]
            < interfaces.len() by {
            if i < before.len() {
                assert(before[i] == found[i]);
            }
        }
    }
}

/// Law: a remote to which a message could not be sent is dead from then on. An executor does not run
/// or wait any more; of all others nothing changes, and no task leaves the queue.
pub proof fn law_an_unreachable_remote_is_dead(state: ServerModel, id: usize)
    requires
        id < state.remotes.len(),
        state.remotes[id as int].conn_type is Exec ==> state.running_exec_count > 0,
    ensures
        ({
            let next = state.unreachable(id);
            let exec = state.remotes[id as int].conn_type is Exec;
            &&& next.remotes.len() == state.remotes.len()
            &&& next.remotes[id as int].conn_type is Dead
            &&& next.remotes[id as int].paired_id == state.remotes[id as int].paired_id
            &&& forall|i: int|
                0 <= i < state.remotes.len() && i != id ==> #[trigger] next.remotes[i]
                    == state.remotes[i]
            &&& exec ==> next.running_exec_count == state.running_exec_count - 1
            &&& exec ==> !next.idle.contains(id)
            &&& exec ==> forall|other: usize|
                other != id ==> (#[trigger] next.idle.contains(other) <==> state.idle.contains(
                    other,
                ))
            &&& !exec ==> next.running_exec_count == state.running_exec_count
            &&& !exec ==> next.idle == state.idle
            &&& next == (ServerModel {
                remotes: next.remotes,
                idle: next.idle,
                running_exec_count: next.running_exec_count,
                ..state
            })
        }),
{
    crate::server_model::law_without(state.idle, id);
}

} // verus!
