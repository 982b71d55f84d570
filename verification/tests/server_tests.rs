use spraycc::clock::{LONGEST_SPAN, SECOND};
use spraycc::config::ExecConfig;
use spraycc::history::History;
use spraycc::ipc::{CallMe, Message, OutputType, TaskDetails};
use spraycc::queue::TaskQueue;
use spraycc::server::{
    get_network_addr, screen_message, Delivery, Interface, NetworkAddr, ServerState, UpdatePhase,
    UpdateStep,
};

const CODE: u64 = 42;
const KEY: u64 = 7;

fn port() -> CallMe {
    CallMe { addr: "10.1.2.3:45678".to_string(), access_code: CODE }
}

fn config() -> ExecConfig {
    ExecConfig {
        start_cmd: "bsub -q linux spraycc".to_string(),
        alt_start_cmd: Some("bsub -q other spraycc".to_string()),
        ..ExecConfig::default()
    }
}

fn server() -> ServerState {
    ServerState::new(config(), History::default(), &port(), None, false, false, 0)
}

fn task(name: &str) -> TaskDetails {
    TaskDetails {
        working_dir: "/work".to_string(),
        cmd: "/usr/bin/g++".to_string(),
        args: vec!["g++".to_string(), "-c".to_string(), "-o".to_string(), name.to_string()],
        output_args: vec![3],
        env: vec![],
        priority_task: false,
    }
}

fn submit(state: &mut ServerState, details: TaskDetails, now: u128) -> usize {
    let id = state.add_remote();
    let message = Message::Task { access_code: CODE, user_code: KEY, details };
    assert!(state.accepts(id, &message));
    let reaction = state.handle_msg(id, message, now);
    assert!(reaction.delivery.is_none());
    assert!(reaction.update);
    id
}

fn join(state: &mut ServerState, code: u64) -> usize {
    let id = state.add_remote();
    let message = Message::YourObedientServant { access_code: code, user_code: KEY };
    assert!(state.accepts(id, &message));
    let reaction = state.handle_msg(id, message, 0);
    assert!(reaction.delivery.is_none());
    assert!(reaction.update);
    id
}

/// What happens when the queues are processed.
#[derive(Debug, PartialEq)]
enum Event {
    Start(bool),
    Task(usize, String),
    Release(usize),
}

fn given(exec: usize, name: &str) -> Event {
    Event::Task(exec, name.to_string())
}

/// Processes the queues from the given phase on.
fn process(state: &mut ServerState, from: UpdatePhase, now: u128) -> Vec<Event> {
    let mut phase = from;
    let mut events = Vec::new();
    loop {
        match state.update(phase, now) {
            UpdateStep::Start(second_queue) => {
                state.exec_started(second_queue);
                events.push(Event::Start(second_queue));
            }
            UpdateStep::Send(delivery, next) => {
                assert!(delivery.must_arrive);
                phase = next;
                match delivery.message {
                    Message::Task { access_code, user_code, details } => {
                        assert_eq!((access_code, user_code), (0, 0));
                        assert_eq!(next, UpdatePhase::Assigning);
                        events.push(Event::Task(delivery.to, details.get_target_id()));
                    }
                    message => {
                        assert!(message == Message::PissOff);
                        assert_eq!(next, UpdatePhase::Releasing);
                        events.push(Event::Release(delivery.to));
                    }
                }
            }
            UpdateStep::Clash => panic!("clash"),
            UpdateStep::Done => return events,
        }
    }
}

/// Gives out tasks.
fn assign(state: &mut ServerState) -> Vec<Event> {
    process(state, UpdatePhase::Assigning, 0)
}

fn done(exit_code: Option<i32>, target: &str, run_time: u128, send_time: u128) -> Message {
    Message::TaskDone { exit_code, target_id: target.to_string(), run_time, send_time }
}

#[test]
fn start_commands_call_back() {
    let state = server();
    assert_eq!(
        state.start_command(false),
        Some("bsub -q linux spraycc exec --callme=10.1.2.3:45678 --code=42")
    );
    assert_eq!(state.start_command(true), None);

    let alt = ServerState::new(config(), History::default(), &port(), None, true, false, 0);
    assert_eq!(
        alt.start_command(false),
        Some("bsub -q other spraycc exec --callme=10.1.2.3:45678 --code=42")
    );

    let both = ServerState::new(config(), History::default(), &port(), None, false, true, 0);
    assert_eq!(
        both.start_command(true),
        Some("bsub -q other spraycc exec --callme=10.1.2.3:45678 --code=43")
    );

    let plain = ExecConfig { alt_start_cmd: None, ..config() };
    let both = ServerState::new(plain.clone(), History::default(), &port(), None, true, true, 0);
    assert_eq!(
        both.start_command(false),
        Some("bsub -q linux spraycc exec --callme=10.1.2.3:45678 --code=42")
    );
    assert_eq!(both.start_command(true), None);
}

#[test]
fn a_task_goes_out_and_its_results_come_back() {
    let mut state = server();
    let client = submit(&mut state, task("a.o"), 0);
    assert!(assign(&mut state).is_empty());
    let exec = join(&mut state, CODE);
    assert_eq!(assign(&mut state), vec![given(exec, "a.o")]);
    assert!(assign(&mut state).is_empty());

    let output = Message::TaskOutput { output_type: OutputType::Stdout, content: vec![1; 2048] };
    assert!(state.accepts(exec, &output));
    let reaction = state.handle_msg(exec, output.clone(), 1);
    assert!(!reaction.update);
    let delivery = reaction.delivery.unwrap();
    assert_eq!(delivery.to, client);
    assert!(delivery.message == output);
    assert!(!delivery.must_arrive);
    assert_eq!(state.total_bytes(), "2KiB");

    let finished = done(Some(0), "a.o", 30, 4);
    assert!(state.accepts(exec, &finished));
    let reaction = state.handle_msg(exec, finished.clone(), 99);
    assert!(reaction.update);
    let delivery = reaction.delivery.unwrap();
    assert_eq!(delivery.to, client);
    assert!(delivery.message == finished);
    assert_eq!(state.task_times(), (30, 4, 4));

    // The executor takes the next task.
    let second = submit(&mut state, task("b.o"), 0);
    assert_eq!(assign(&mut state), vec![given(exec, "b.o")]);
    let reaction = state.handle_msg(exec, done(Some(1), "b.o", 5, 2), 99);
    assert_eq!(reaction.delivery.unwrap().to, second);
    assert_eq!(state.task_times(), (35, 6, 4));

    // Only the successful task has been recorded.
    let recorded = state.shutdown().unwrap();
    assert_eq!(recorded.get("a.o"), Some(30));
    assert_eq!(recorded.get("b.o"), None);
    assert_eq!(recorded.entries()[0].as_of, 99);
    assert!(state.shutdown().is_none());
}

#[test]
fn a_task_that_fails_to_start_is_reported() {
    let mut state = server();
    let client = submit(&mut state, task("a.o"), 0);
    let exec = join(&mut state, CODE);
    assert_eq!(assign(&mut state).len(), 1);
    let failed = Message::TaskFailed { error_message: "no".to_string() };
    assert!(state.accepts(exec, &failed));
    let reaction = state.handle_msg(exec, failed.clone(), 0);
    assert!(reaction.update);
    assert_eq!(reaction.delivery.as_ref().unwrap().to, client);
    assert!(reaction.delivery.unwrap().message == failed);
    assert!(state.shutdown().is_none());
}

#[test]
fn a_client_that_has_gone_gets_nothing() {
    let mut state = server();
    let client = submit(&mut state, task("a.o"), 0);
    let exec = join(&mut state, CODE);
    assert_eq!(assign(&mut state).len(), 1);
    assert!(state.forward_failed(client).is_none());
    let output = Message::TaskOutput { output_type: OutputType::Stdout, content: vec![1] };
    assert!(state.handle_msg(exec, output, 0).delivery.is_none());
    assert!(state.handle_msg(exec, done(Some(0), "a.o", 1, 1), 0).delivery.is_none());

    let client = submit(&mut state, task("b.o"), 0);
    assert_eq!(assign(&mut state).len(), 1);
    let reaction = state.handle_msg(client, Message::Dropped, 0);
    assert!(reaction.delivery.is_none());
    assert!(!reaction.update);
    let output = Message::TaskOutput { output_type: OutputType::Stdout, content: vec![1] };
    assert!(state.handle_msg(exec, output, 0).delivery.is_none());
}

#[test]
fn the_client_of_a_lost_executor_is_told() {
    let mut state = server();
    let client = submit(&mut state, task("a.o"), 0);
    let exec = join(&mut state, CODE);
    assert_eq!(state.running_execs(), 1);
    assert_eq!(assign(&mut state).len(), 1);
    assert!(state.accepts(exec, &Message::Dropped));
    let notice: Delivery = state.handle_msg(exec, Message::Dropped, 0).delivery.unwrap();
    assert_eq!(notice.to, client);
    assert!(notice.must_arrive);
    assert!(
        notice.message
            == Message::TaskFailed { error_message: "exec dropped connection".to_string() }
    );
    assert_eq!(state.running_execs(), 0);
}

#[test]
fn messages_out_of_turn_are_not_accepted() {
    let mut state = server();
    let id = state.add_remote();
    assert!(!state.accepts(id + 1, &Message::Dropped));
    assert!(state.accepts(id, &Message::Dropped));
    for message in [
        Message::LastTaskSent,
        Message::CancelTask,
        Message::PissOff,
        Message::TaskFailed { error_message: "x".to_string() },
        Message::TaskOutput { output_type: OutputType::Stderr, content: vec![] },
        done(Some(0), "a.o", 1, 1),
    ] {
        assert!(!state.accepts(id, &message));
    }
    let exec = join(&mut state, CODE);
    submit(&mut state, task("a.o"), 0);
    assert_eq!(assign(&mut state).len(), 1);
    assert!(state.accepts(exec, &done(Some(0), "a.o", LONGEST_SPAN, LONGEST_SPAN)));
    assert!(!state.accepts(exec, &done(Some(0), "a.o", LONGEST_SPAN + 1, 0)));
    assert!(!state.accepts(exec, &done(Some(0), "a.o", 0, u128::MAX)));
}

#[test]
fn tasks_of_a_first_build_come_in_order() {
    let mut state = server();
    let names = ["c.o", "a.o", "d.o", "b.o", "f.o", "e.o", "h.o", "g.o"];
    for name in names {
        submit(&mut state, task(name), 0);
    }
    for name in names {
        let exec = join(&mut state, CODE);
        assert_eq!(assign(&mut state), vec![given(exec, name)]);
    }
}

#[test]
fn longer_tasks_and_priority_tasks_come_first() {
    let mut prior = History::default();
    prior.test_update("short.o", SECOND / 2, 0);
    prior.test_update("long.o", 200 * SECOND, 0);
    prior.test_update("longest.o", 301 * SECOND + 1, 0);
    prior.test_update("five.o", 300 * SECOND, 0);
    let mut state = ServerState::new(config(), prior, &port(), None, false, false, 0);
    for name in ["short.o", "new.o", "long.o", "longest.o", "five.o"] {
        submit(&mut state, task(name), 0);
    }
    submit(&mut state, TaskDetails { priority_task: true, ..task("dep.d") }, 0);
    for name in ["longest.o", "dep.d", "five.o", "long.o", "new.o", "short.o"] {
        let exec = join(&mut state, CODE);
        assert_eq!(assign(&mut state), vec![given(exec, name)]);
    }
}

#[test]
fn a_priority_beyond_measure_is_not_accepted() {
    let mut prior = History::default();
    prior.test_update("a.o", LONGEST_SPAN, 0);
    prior.test_update("b.o", u128::MAX, 0);
    let mut state = ServerState::new(config(), prior, &port(), None, false, false, 0);
    let id = state.add_remote();
    let message =
        |details| Message::Task { access_code: CODE, user_code: KEY, details };
    assert!(state.accepts(id, &message(task("a.o"))));
    assert!(!state.accepts(id, &message(TaskDetails { priority_task: true, ..task("a.o") })));
    assert!(!state.accepts(id, &message(TaskDetails { priority_task: true, ..task("b.o") })));
}

#[test]
fn the_executor_that_waited_longest_comes_first() {
    let mut state = server();
    let execs: Vec<usize> = (0..3).map(|_| join(&mut state, CODE)).collect();
    for exec in &execs {
        submit(&mut state, task("a.o"), 0);
        assert_eq!(assign(&mut state), vec![given(*exec, "a.o")]);
    }
}

#[test]
fn executors_are_started_as_needed() {
    let mut state = server();
    let update = |state: &mut ServerState| process(state, UpdatePhase::Starting, 0);
    assert_eq!(update(&mut state), vec![]);
    for i in 0..3 {
        submit(&mut state, task(&format!("{}.o", i)), 0);
    }
    // No more than there are tasks.
    assert_eq!(update(&mut state), vec![Event::Start(false), Event::Start(false), Event::Start(false)]);
    for i in 3..20 {
        submit(&mut state, task(&format!("{}.o", i)), 0);
    }
    // The initial count.
    assert_eq!(update(&mut state), vec![Event::Start(false), Event::Start(false)]);
    assert_eq!(update(&mut state), vec![]);
    // One that calls is replaced, before it is given a task.
    let exec = join(&mut state, CODE);
    assert_eq!(update(&mut state), vec![Event::Start(false), given(exec, "0.o")]);
    assert_eq!(state.running_execs(), 1);
}

#[test]
fn the_start_of_executors_is_reported() {
    let mut state = ServerState::new(config(), History::default(), &port(), None, false, true, 0);
    assert_eq!(state.start_report(), None);
    for i in 0..20 {
        submit(&mut state, task(&format!("{}.o", i)), 0);
    }
    let line = "SprayCC: start execs: queue=20, running=0, pending=0,0 init_needed=5, keep_pending=5";
    assert_eq!(state.start_report(), Some(line.to_string()));
    process(&mut state, UpdatePhase::Starting, 0);
    join(&mut state, CODE + 1);
    let line = "SprayCC: start execs: queue=20, running=1, pending=3,2 init_needed=4, keep_pending=5";
    assert_eq!(state.start_report(), Some(line.to_string()));
}

#[test]
fn no_more_executors_are_started_than_are_lacking() {
    // Three tasks, room for ten, and five are wanted: three in the first queue, none in the second.
    let mut state = ServerState::new(config(), History::default(), &port(), Some(10), false, true, 0);
    for i in 0..3 {
        submit(&mut state, task(&format!("{}.o", i)), 0);
    }
    let first = || Event::Start(false);
    assert_eq!(process(&mut state, UpdatePhase::Starting, 0), vec![first(), first(), first()]);

    // Many tasks, and room for four: three in the first queue, one in the second.
    let mut state = ServerState::new(config(), History::default(), &port(), Some(4), false, true, 0);
    for i in 0..30 {
        submit(&mut state, task(&format!("{}.o", i)), 0);
    }
    assert_eq!(
        process(&mut state, UpdatePhase::Starting, 0),
        vec![first(), first(), first(), Event::Start(true)]
    );
}

#[test]
fn priorities_are_known() {
    let mut prior = History::default();
    prior.test_update("a.o", 7 * SECOND, 0);
    prior.test_update("b.o", u128::MAX, 0);
    let state = ServerState::new(config(), prior, &port(), None, false, false, 0);
    let urgent = |name| TaskDetails { priority_task: true, ..task(name) };
    assert_eq!(state.priority(&task("a.o")), 7 * SECOND);
    assert_eq!(state.priority(&urgent("a.o")), 307 * SECOND);
    assert_eq!(state.priority(&task("new.o")), SECOND);
    assert_eq!(state.priority(&urgent("b.o")), u128::MAX);
}

#[test]
fn executors_are_limited() {
    let mut state = ServerState::new(config(), History::default(), &port(), Some(2), false, false, 0);
    for i in 0..20 {
        submit(&mut state, task(&format!("{}.o", i)), 0);
    }
    let update = |state: &mut ServerState| process(state, UpdatePhase::Starting, 0);
    assert_eq!(update(&mut state), vec![Event::Start(false), Event::Start(false)]);
    let exec = join(&mut state, CODE);
    assert_eq!(update(&mut state), vec![given(exec, "0.o")]);
}

#[test]
fn two_queues_share_the_executors() {
    let mut state = ServerState::new(config(), History::default(), &port(), None, false, true, 0);
    for i in 0..20 {
        submit(&mut state, task(&format!("{}.o", i)), 0);
    }
    let update = |state: &mut ServerState| process(state, UpdatePhase::Starting, 0);
    let queues: Vec<Event> =
        [false, false, false, true, true, true].iter().map(|q| Event::Start(*q)).collect();
    assert_eq!(update(&mut state), queues);
    // One that calls is replaced in the queue that it came from.
    let exec = join(&mut state, CODE + 1);
    assert_eq!(update(&mut state), vec![Event::Start(true), given(exec, "0.o")]);
    let exec = join(&mut state, CODE);
    assert_eq!(update(&mut state), vec![Event::Start(false), given(exec, "1.o")]);
}

#[test]
fn idle_executors_are_released() {
    let update =
        |state: &mut ServerState, now: u128| process(state, UpdatePhase::Starting, now);
    let mut state = server();
    let exec = join(&mut state, CODE);
    let other = join(&mut state, CODE);
    // Not before there was a task.
    assert_eq!(update(&mut state, 1000 * SECOND), vec![]);
    submit(&mut state, task("a.o"), 100 * SECOND);
    assert_eq!(update(&mut state, 100 * SECOND), vec![given(exec, "a.o")]);
    assert_eq!(update(&mut state, 131 * SECOND - 1), vec![]);
    assert_eq!(update(&mut state, 0), vec![]);
    state.handle_msg(exec, done(Some(0), "a.o", 1, 1), 0);
    let released = vec![Event::Release(other), Event::Release(exec)];
    assert_eq!(update(&mut state, 131 * SECOND), released);
    assert_eq!(update(&mut state, 131 * SECOND), vec![]);
    assert_eq!(state.running_execs(), 0);
    // The connection of a released executor is closed without further ado.
    assert!(state.handle_msg(exec, Message::Dropped, 0).delivery.is_none());
    assert_eq!(state.running_execs(), 0);
}

#[test]
fn a_task_goes_to_an_executor_before_that_is_released() {
    let mut state = server();
    let execs: Vec<usize> = (0..2).map(|_| join(&mut state, CODE)).collect();
    submit(&mut state, task("a.o"), 0);
    assert_eq!(
        process(&mut state, UpdatePhase::Starting, 31 * SECOND),
        vec![given(execs[0], "a.o"), Event::Release(execs[1])]
    );
}

#[test]
fn two_tasks_of_one_client_clash() {
    let mut state = server();
    let client = submit(&mut state, task("a.o"), 0);
    let message = Message::Task { access_code: CODE, user_code: KEY, details: task("b.o") };
    state.handle_msg(client, message, 0);
    join(&mut state, CODE);
    join(&mut state, CODE);
    assert!(matches!(state.update(UpdatePhase::Assigning, 0), UpdateStep::Send(_, _)));
    assert!(matches!(state.update(UpdatePhase::Assigning, 0), UpdateStep::Clash));
}

#[test]
fn an_idle_server_shuts_down() {
    let mut state = server();
    assert!(!state.ok_to_shutdown(61 * SECOND - 1));
    assert!(state.ok_to_shutdown(61 * SECOND));
    state.activity_occurred(10 * SECOND);
    assert!(!state.ok_to_shutdown(71 * SECOND - 1));
    assert!(state.ok_to_shutdown(71 * SECOND));
    let exec = join(&mut state, CODE);
    assert!(!state.ok_to_shutdown(1000 * SECOND));
    submit(&mut state, task("a.o"), 0);
    state.handle_msg(exec, Message::Dropped, 0);
    assert!(!state.ok_to_shutdown(1000 * SECOND));
}

#[test]
fn the_status_is_reported() {
    let mut state = server();
    assert!(state.can_report());
    assert_eq!(state.report_status(5), None);
    let exec = join(&mut state, CODE);
    for i in 0..3 {
        submit(&mut state, task(&format!("{}.o", i)), 0);
    }
    assert_eq!(assign(&mut state).len(), 1);
    let output = Message::TaskOutput { output_type: OutputType::File(0), content: vec![0; 5120] };
    state.handle_msg(exec, output, 0);
    assert_eq!(
        state.report_status(5),
        Some("SprayCC: 0 / 3 finished, 1 running, 1 executors, 1KiB / sec".to_string())
    );
    state.handle_msg(exec, done(Some(0), "0.o", 1, 1), 0);
    state.start_period();
    assert_eq!(
        state.report_status(5),
        Some("SprayCC: 1 / 3 finished, 0 running, 1 executors, 0B / sec".to_string())
    );
    assert_eq!(state.total_bytes(), "5KiB");
    assert!(state.can_report());
}

#[test]
fn a_period_of_no_length_has_an_endless_rate() {
    let mut state = server();
    join(&mut state, CODE);
    let line = state.report_status(0).unwrap();
    let most = ubyte::ByteUnit::max_value();
    assert_eq!(line, format!("SprayCC: 0 / 0 finished, 0 running, 1 executors, {} / sec", most));
}

#[test]
fn a_task_of_a_lost_executor_counts_as_running() {
    let mut state = server();
    let exec = join(&mut state, CODE);
    submit(&mut state, task("a.o"), 0);
    assert_eq!(assign(&mut state).len(), 1);
    state.handle_msg(exec, done(Some(0), "a.o", 1, 1), 0);
    submit(&mut state, task("b.o"), 0);
    assert_eq!(assign(&mut state).len(), 1);
    state.handle_msg(exec, Message::Dropped, 0);
    assert!(state.can_report());
    assert!(state.report_status(5).unwrap().starts_with("SprayCC: 1 / 2 finished, 1 running, 0 "));
}

#[test]
fn more_tasks_finished_than_submitted_cannot_be_reported() {
    let mut state = server();
    let exec = join(&mut state, CODE);
    let client = submit(&mut state, task("a.o"), 0);
    assert_eq!(assign(&mut state).len(), 1);
    // A client that talks like an executor.
    let failed = Message::TaskFailed { error_message: "x".to_string() };
    assert!(state.accepts(client, &failed));
    state.handle_msg(client, failed, 0);
    assert!(state.can_report());
    state.handle_msg(exec, done(Some(0), "a.o", 1, 1), 0);
    assert!(!state.can_report());
}

#[test]
fn a_lost_idle_executor_waits_no_more() {
    let mut state = server();
    let execs: Vec<usize> = (0..3).map(|_| join(&mut state, CODE)).collect();
    assert!(state.accepts(execs[1], &Message::Dropped));
    assert!(state.handle_msg(execs[1], Message::Dropped, 0).delivery.is_none());
    assert_eq!(state.running_execs(), 2);
    for name in ["a.o", "b.o", "c.o"] {
        submit(&mut state, task(name), 0);
    }
    // The others keep their order.
    assert_eq!(assign(&mut state), vec![given(execs[0], "a.o"), given(execs[2], "b.o")]);
    assert!(state.can_report());

    // One that has finished its task and is lost is not released either.
    let mut state = server();
    let exec = join(&mut state, CODE);
    submit(&mut state, task("b.o"), 0);
    assert_eq!(assign(&mut state).len(), 1);
    state.handle_msg(exec, done(Some(0), "b.o", 1, 1), 0);
    state.handle_msg(exec, Message::Dropped, 0);
    assert_eq!(process(&mut state, UpdatePhase::Starting, 1000 * SECOND), vec![]);
    assert!(state.ok_to_shutdown(1000 * SECOND));
}

#[test]
fn a_client_reaches_its_executor() {
    let mut state = server();
    let client = submit(&mut state, task("a.o"), 0);
    let exec = join(&mut state, CODE);
    assert_eq!(assign(&mut state).len(), 1);
    for message in [
        Message::TaskOutput { output_type: OutputType::Stdout, content: vec![1, 2] },
        Message::TaskFailed { error_message: "x".to_string() },
    ] {
        assert!(state.accepts(client, &message));
        let delivery = state.handle_msg(client, message.clone(), 0).delivery.unwrap();
        assert_eq!(delivery.to, exec);
        assert!(delivery.message == message);
        assert!(!delivery.must_arrive);
    }
    // The client is no executor, and both are still paired.
    submit(&mut state, task("b.o"), 0);
    assert_eq!(assign(&mut state), vec![]);
    let finished = done(Some(0), "a.o", 1, 1);
    assert_eq!(state.handle_msg(exec, finished, 0).delivery.unwrap().to, client);
    assert_eq!(assign(&mut state), vec![given(exec, "b.o")]);
}

#[test]
fn an_executor_that_cannot_be_reached_is_dropped() {
    let mut state = server();
    let client = submit(&mut state, task("a.o"), 0);
    let exec = join(&mut state, CODE);
    assert_eq!(assign(&mut state).len(), 1);
    let notice = state.forward_failed(exec).unwrap();
    assert_eq!(notice.to, client);
    assert!(notice.must_arrive);
    assert!(matches!(notice.message, Message::TaskFailed { .. }));
    assert_eq!(state.running_execs(), 0);
    let output = Message::TaskOutput { output_type: OutputType::Stdout, content: vec![1] };
    assert!(state.handle_msg(client, output, 0).delivery.is_none());
    assert!(state.handle_msg(exec, Message::Dropped, 0).delivery.is_none());
    assert_eq!(state.running_execs(), 0);
}

#[test]
fn wrong_codes_are_refused() {
    let servant = |access_code, user_code| Message::YourObedientServant { access_code, user_code };
    let work =
        |access_code, user_code| Message::Task { access_code, user_code, details: task("a.o") };
    assert!(screen_message(servant(CODE, KEY), CODE, KEY) == servant(CODE, KEY));
    assert!(screen_message(servant(CODE + 1, KEY), CODE, KEY) == servant(CODE + 1, KEY));
    assert!(screen_message(servant(CODE + 2, KEY), CODE, KEY) == Message::Dropped);
    assert!(screen_message(servant(CODE - 1, KEY), CODE, KEY) == Message::Dropped);
    assert!(screen_message(servant(CODE, KEY + 1), CODE, KEY) == Message::Dropped);
    assert!(screen_message(work(CODE, KEY), CODE, KEY) == work(CODE, KEY));
    assert!(screen_message(work(CODE + 1, KEY), CODE, KEY) == Message::Dropped);
    assert!(screen_message(work(CODE, KEY - 1), CODE, KEY) == Message::Dropped);
    assert!(screen_message(Message::PissOff, CODE, KEY) == Message::PissOff);
}

#[test]
fn the_first_network_interface_is_used() {
    let interface = |name: &str, loopback| Interface {
        name: name.to_string(),
        ip: "10.0.0.1".to_string(),
        loopback,
    };
    assert_eq!(get_network_addr(&vec![]), NetworkAddr::Loopback);
    assert_eq!(get_network_addr(&vec![interface("lo", true)]), NetworkAddr::Loopback);
    assert_eq!(
        get_network_addr(&vec![interface("lo", true), interface("eth0", false)]),
        NetworkAddr::Only(1)
    );
    assert_eq!(
        get_network_addr(&vec![
            interface("eth0", false),
            interface("lo", true),
            interface("eth1", false),
            interface("eth2", false),
        ]),
        NetworkAddr::FirstOf(0)
    );
}

#[test]
fn the_queue_holds_a_task_once() {
    let mut queue = TaskQueue::new();
    assert_eq!(queue.len(), 0);
    assert!(queue.pop().is_none());
    queue.push(1, task("a.o"), 5, 1);
    queue.push(2, task("a.o"), 7, 2);
    queue.push(1, task("b.o"), 6, 3);
    assert_eq!(queue.len(), 3);
    // The same task of the same client only changes its rank.
    queue.push(1, task("a.o"), 8, 4);
    assert_eq!(queue.len(), 3);
    let order: Vec<(usize, String)> =
        (0..3).map(|_| queue.pop().unwrap()).map(|(id, t)| (id, t.get_target_id())).collect();
    assert_eq!(
        order,
        vec![(1, "a.o".to_string()), (2, "a.o".to_string()), (1, "b.o".to_string())]
    );
    assert!(queue.pop().is_none());
}

#[test]
fn equal_priorities_leave_the_queue_in_order() {
    let mut queue = TaskQueue::new();
    for i in 0..50usize {
        queue.push(i, task("a.o"), 3, i + 1);
        if i % 7 == 3 {
            // Leaves a gap behind that is used again.
            queue.push(1000 + i, task("x.o"), 4, 0);
            assert_eq!(queue.pop().unwrap().0, 1000 + i);
        }
    }
    for i in 0..50 {
        assert_eq!(queue.pop().unwrap().0, i);
    }
}
