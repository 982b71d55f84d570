//! The executor: it takes tasks from the server, runs them and sends back what they write.

use crate::ipc::{Message, OutputType, TaskDetails};
use vstd::prelude::*;
use vstd::slice::*;
use vstd::utf8::*;

verus! {

/// The largest piece of a file that is sent in one message.
pub const CHUNK_SIZE: usize = 65536;

/// What the executor is to do about a message.
pub enum ExecStep {
    /// Run a task.
    Run(TaskDetails),
    /// Terminate.
    Stop,
}

/// True if an executor expects the message.
pub open spec fn exec_expects(message: Message) -> bool {
    message is Task || message is PissOff
}

/// True if an executor expects the message.
pub fn expects(message: &Message) -> (expected: bool)
    ensures
        expected == exec_expects(*message),
{
    matches!(message, Message::Task { .. } | Message::PissOff)
}

/// Handles a message from the server: a task to run, or the order to terminate.
pub fn handle_message(message: Message) -> (step: ExecStep)
    requires
        exec_expects(message),
    ensures
        match message {
            Message::Task { details, .. } => step == ExecStep::Run(details),
            _ => step is Stop,
        },
{
    match message {
        Message::Task { access_code: _, user_code: _, details } => ExecStep::Run(details),
        _ => ExecStep::Stop,
    }
}

/// What comes in on the standard output or the standard error of a task.
pub enum StreamEvent {
    /// A line, without the line feed at its end.
    Line(String),
    /// The stream has ended.
    End,
    /// The stream cannot be read.
    Error,
}

/// What the executor is to do about an event on a stream.
pub enum StreamStep {
    /// Send a message.
    Send(Message),
    /// Nothing: the stream has ended.
    Ended,
    /// Tell the user; no more is read of the stream.
    Warn(String),
}

/// How far the running of a task has come.
#[derive(Debug, Clone, Copy, PartialEq, Eq)]
pub enum RunPhase {
    /// The task runs, and its streams are read.
    Running,
    /// The task has exited, and a file is sent. `sent` says whether a message has been sent for it.
    Sending { index: usize, sent: bool },
    /// All has been sent, and that the task is done.
    Finished,
}

/// What the executor is to do when a task has exited, or a file has been sent.
pub enum RunStep {
    /// Send the file of that index: `file_chunk` is to be called for what is read of it until that
    /// gives no message, and then `file_ended`. For a file that cannot be opened, `file_ended` is
    /// to be called at once.
    SendFile(usize),
    /// Send the message that the task is done.
    Done(Message),
}

/// What a message says, as far as an executor sends such messages.
pub enum Told {
    /// Output of a task.
    Output(OutputType, Seq<u8>),
    /// A task is done.
    Done { exit_code: Option<i32>, target: Seq<char>, run_time: nat, send_time: nat },
    /// Something else.
    Other,
}

/// What a message says, as far as an executor sends such messages.
pub open spec fn told(message: Message) -> Told {
    match message {
        Message::TaskOutput { output_type, content } => Told::Output(output_type, content@),
        Message::TaskDone { exit_code, target_id, run_time, send_time } => Told::Done {
            exit_code,
            target: target_id@,
            run_time: run_time as nat,
            send_time: send_time as nat,
        },
        _ => Told::Other,
    }
}

/// What can happen while a task is run.
pub enum RunEvent {
    /// A line comes in on a stream, without the line feed at its end.
    Line(OutputType, Seq<char>),
    /// A stream has ended or cannot be read.
    StreamEnd(OutputType),
    /// The task exits with a code, at a time; the step is made at another.
    Exited(Option<i32>, u128, u128),
    /// Bytes are read of the file that is sent; none if it has ended.
    Chunk(Seq<u8>),
    /// The file that is sent has been sent, or cannot be opened.
    FileEnded(u128),
}

/// The running of a task.
pub struct RunModel {
    pub target: Seq<char>,
    pub file_count: nat,
    pub started: u128,
    pub stdout_open: bool,
    pub stderr_open: bool,
    pub exit_code: Option<i32>,
    pub finished: u128,
    pub phase: RunPhase,
}

impl RunModel {
    /// True if more is to be read of the stream.
    pub open spec fn open(self, output: OutputType) -> bool {
        match output {
            OutputType::Stdout => self.stdout_open,
            OutputType::Stderr => self.stderr_open,
            OutputType::File(_) => false,
        }
    }

    /// Files are sent only when both streams are done, and only those that there are. The task does
    /// not finish before it is started.
    pub open spec fn wf(self) -> bool {
        &&& self.started <= self.finished
        &&& self.phase is Running || (!self.stdout_open && !self.stderr_open)
        &&& self.phase matches RunPhase::Sending { index, .. } ==> index < self.file_count
    }

    /// True if the event can happen in this state.
    pub open spec fn accepts(self, event: RunEvent) -> bool {
        match event {
            RunEvent::Line(output, _) => self.open(output),
            RunEvent::StreamEnd(output) => self.open(output),
            RunEvent::Exited(_, finished, now) => {
                &&& self.phase is Running
                &&& !self.stdout_open
                &&& !self.stderr_open
                &&& self.started <= finished <= now
            },
            RunEvent::Chunk(_) => self.phase is Sending,
            RunEvent::FileEnded(now) => self.phase is Sending && self.finished <= now,
        }
    }

    /// The state in which the file of that index is sent next, if there is one.
    pub open spec fn at_file(self, index: nat) -> RunModel {
        RunModel {
            phase: if index < self.file_count {
                RunPhase::Sending { index: index as usize, sent: false }
            } else {
                RunPhase::Finished
            },
            ..self
        }
    }

    /// The state after the event.
    pub open spec fn after(self, event: RunEvent) -> RunModel {
        match event {
            RunEvent::Line(_, _) => self,
            RunEvent::StreamEnd(output) => RunModel {
                stdout_open: self.stdout_open && !(output is Stdout),
                stderr_open: self.stderr_open && !(output is Stderr),
                ..self
            },
            RunEvent::Exited(exit_code, finished, _) => (RunModel {
                exit_code,
                finished,
                ..self
            }).at_file(0),
            RunEvent::Chunk(_) => match self.phase {
                RunPhase::Sending { index, .. } => RunModel {
                    phase: RunPhase::Sending { index, sent: true },
                    ..self
                },
                _ => self,
            },
            RunEvent::FileEnded(_) => match self.phase {
                RunPhase::Sending { index, .. } => self.at_file(index as nat + 1),
                _ => self,
            },
        }
    }

    /// What is said when all has been sent at the given time.
    pub open spec fn done(self, now: u128) -> Told {
        Told::Done {
            exit_code: self.exit_code,
            target: self.target,
            run_time: (self.finished - self.started) as nat,
            send_time: (now - self.finished) as nat,
        }
    }

    /// What is sent on the event.
    pub open spec fn sends(self, event: RunEvent) -> Option<Told> {
        match event {
            RunEvent::Line(output, line) => Some(
                Told::Output(output, encode_utf8(line.push('\n'))),
            ),
            RunEvent::StreamEnd(_) => None,
            RunEvent::Chunk(bytes) => match self.phase {
                RunPhase::Sending { index, sent } => if bytes.len() == 0 && sent {
                    None
                } else {
                    Some(Told::Output(OutputType::File(index), bytes))
                },
                _ => None,
            },
            RunEvent::Exited(_, _, now) | RunEvent::FileEnded(now) => if self.after(
                event,
            ).phase is Finished {
                Some(self.after(event).done(now))
            } else {
                None
            },
        }
    }

    /// The file that is to be sent next on account of the event, if there is one.
    pub open spec fn asks_for(self, event: RunEvent) -> Option<nat> {
        match (event, self.after(event).phase) {
            (RunEvent::Exited(..), RunPhase::Sending { index, .. }) => Some(index as nat),
            (RunEvent::FileEnded(_), RunPhase::Sending { index, .. }) => Some(index as nat),
            _ => None,
        }
    }

    /// True if the step is what the event leads to.
    pub open spec fn steps_to(self, event: RunEvent, step: RunStep) -> bool {
        match step {
            RunStep::SendFile(index) => self.asks_for(event) == Some(index as nat)
                && self.sends(event) is None,
            RunStep::Done(message) => self.asks_for(event) is None && self.sends(event) == Some(
                told(message),
            ),
        }
    }
}

/// A task that is being run: its streams are read until both are done, then its files are sent, one
/// after the other, and then that it is done.
pub struct TaskRun {
    target_id: String,
    file_count: usize,
    started: u128,
    stdout_done: bool,
    stderr_done: bool,
    exit_code: Option<i32>,
    finished: u128,
    phase: RunPhase,
}

impl View for TaskRun {
    type V = RunModel;

    closed spec fn view(&self) -> RunModel {
        RunModel {
            target: self.target_id@,
            file_count: self.file_count as nat,
            started: self.started,
            stdout_open: !self.stdout_done,
            stderr_open: !self.stderr_done,
            exit_code: self.exit_code,
            finished: self.finished,
            phase: self.phase,
        }
    }
}

impl TaskRun {
    /// True if more is to be read of the stream.
    pub open spec fn open(&self, output: OutputType) -> bool {
        self@.open(output)
    }

    /// A task that has just been started at the given time, known to the history by its target.
    /// It writes so many files.
    pub fn new(target_id: String, file_count: usize, started: u128) -> (run: TaskRun)
        ensures
            run@.wf(),
            run@ == (RunModel {
                target: target_id@,
                file_count: file_count as nat,
                started,
                stdout_open: true,
                stderr_open: true,
                exit_code: None,
                finished: started,
                phase: RunPhase::Running,
            }),
    {
        TaskRun {
            target_id,
            file_count,
            started,
            stdout_done: false,
            stderr_done: false,
            exit_code: None,
            finished: started,
            phase: RunPhase::Running,
        }
    }

    /// True if more is to be read of the stream.
    pub fn is_open(&self, output: OutputType) -> (open: bool)
        ensures
            open == self.open(output),
    {
        match output {
            OutputType::Stdout => !self.stdout_done,
            OutputType::Stderr => !self.stderr_done,
            OutputType::File(_) => false,
        }
    }

    /// True if there is nothing more to read: the task should have exited.
    pub fn is_finished(&self) -> (finished: bool)
        ensures
            finished == (!self.open(OutputType::Stdout) && !self.open(OutputType::Stderr)),
    {
        self.stdout_done && self.stderr_done
    }

    /// Handles an event on a stream that is open: a line is sent on, with its line feed; a stream
    /// that has ended or cannot be read is done. The other stream stays as it is.
    pub fn handle_event(&mut self, output: OutputType, event: StreamEvent) -> (step: StreamStep)
        requires
            old(self).open(output),
        ensures
            match event {
                StreamEvent::Line(line) => {
                    &&& step matches StreamStep::Send(message)
                    &&& message matches Message::TaskOutput { output_type, content }
                    &&& output_type == output
                    &&& content@ == encode_utf8(line@.push('\n'))
                    &&& final(self)@ == old(self)@.after(RunEvent::Line(output, line@))
                    &&& old(self)@.sends(RunEvent::Line(output, line@)) == Some(told(message))
                },
                StreamEvent::End => step is Ended && final(self)@ == old(self)@.after(
                    RunEvent::StreamEnd(output),
                ),
                StreamEvent::Error => {
                    &&& step matches StreamStep::Warn(text)
                    &&& text@ == (if output is Stdout {
                        "Spraycc: Exec: Error reading stdout"@
                    } else {
                        "SprayCC: Exec: Error reading stderr"@
                    })
                    &&& final(self)@ == old(self)@.after(RunEvent::StreamEnd(output))
                },
            },
    {
        let is_stdout: bool = matches!(output, OutputType::Stdout);
        match event {
            StreamEvent::Line(line) => {
                let mut line = line;
                let ghost text = line@;
                proof {
                    reveal_strlit("\n");
                }
                line.append("\n");
                assert(line@ =~= text.push('\n'));
                let content = slice_to_vec(line.as_str().as_bytes());
                StreamStep::Send(Message::TaskOutput { output_type: output, content })
            },
            StreamEvent::End => {
                if is_stdout {
                    self.stdout_done = true;
                } else {
                    self.stderr_done = true;
                }
                StreamStep::Ended
            },
            StreamEvent::Error => {
                if is_stdout {
                    self.stdout_done = true;
                    StreamStep::Warn("Spraycc: Exec: Error reading stdout".to_owned())
                } else {
                    self.stderr_done = true;
                    StreamStep::Warn("SprayCC: Exec: Error reading stderr".to_owned())
                }
            },
        }
    }

    fn at_file(&mut self, index: usize, now: u128) -> (step: RunStep)
        requires
            old(self)@.started <= old(self)@.finished <= now,
        ensures
            final(self)@ == old(self)@.at_file(index as nat),
            match step {
                RunStep::SendFile(next) => next == index && index < old(self)@.file_count,
                RunStep::Done(message) => index >= old(self)@.file_count && told(message) == old(
                    self,
                )@.done(now),
            },
    {
        if index < self.file_count {
            self.phase = RunPhase::Sending { index, sent: false };
            RunStep::SendFile(index)
        } else {
            self.phase = RunPhase::Finished;
            let target_id = self.target_id.clone();
            RunStep::Done(task_done(self.exit_code, target_id, self.started, self.finished, now))
        }
    }

    /// The task has exited at the time `finished`, after both streams were done. Its files are sent
    /// next, from the first on; if there are none, it is done.
    pub fn exited(&mut self, exit_code: Option<i32>, finished: u128, now: u128) -> (step: RunStep)
        requires
            old(self)@.wf(),
            old(self)@.accepts(RunEvent::Exited(exit_code, finished, now)),
        ensures
            final(self)@.wf(),
            final(self)@ == old(self)@.after(RunEvent::Exited(exit_code, finished, now)),
            old(self)@.steps_to(RunEvent::Exited(exit_code, finished, now), step),
    {
        self.exit_code = exit_code;
        self.finished = finished;
        self.at_file(0, now)
    }

    /// The message for what has been read of the file that is sent: the first `count` bytes of a
    /// buffer. There is none if the file has ended.
    pub fn file_chunk(&mut self, buffer: &[u8], count: usize) -> (message: Option<Message>)
        requires
            old(self)@.wf(),
            count <= buffer@.len(),
            old(self)@.phase is Sending,
        ensures
            final(self)@.wf(),
            final(self)@ == old(self)@.after(RunEvent::Chunk(buffer@.take(count as int))),
            match message {
                Some(message) => old(self)@.sends(RunEvent::Chunk(buffer@.take(count as int)))
                    == Some(told(message)),
                None => old(self)@.sends(RunEvent::Chunk(buffer@.take(count as int))) is None,
            },
    {
        match self.phase {
            RunPhase::Sending { index, sent } => {
                self.phase = RunPhase::Sending { index, sent: true };
                output_chunk(OutputType::File(index), buffer, count, sent)
            },
            _ => None,
        }
    }

    /// The file that is sent has ended, or cannot be opened. The next one is sent, or the task is
    /// done.
    pub fn file_ended(&mut self, now: u128) -> (step: RunStep)
        requires
            old(self)@.wf(),
            old(self)@.accepts(RunEvent::FileEnded(now)),
        ensures
            final(self)@.wf(),
            final(self)@ == old(self)@.after(RunEvent::FileEnded(now)),
            old(self)@.steps_to(RunEvent::FileEnded(now), step),
    {
        let index: usize = match self.phase {
            RunPhase::Sending { index, .. } => index,
            _ => 0,
        };
        self.at_file(index + 1, now)
    }
}

/// The message for a piece of a file, which is the first `count` bytes of a buffer; `sent` says
/// whether a message has been sent for the file. Nothing is left to read if `count` is zero: there
/// is no further message then, but a file that is empty is announced by one without content. That
/// no message is sent at all means that there is no file.
pub fn output_chunk(
    output_type: OutputType,
    buffer: &[u8],
    count: usize,
    sent: bool,
) -> (message: Option<Message>)
    requires
        count <= buffer@.len(),
    ensures
        message is None <==> count == 0 && sent,
        message matches Some(chunk) ==> {
            &&& chunk matches Message::TaskOutput { output_type: output, content }
            &&& output == output_type
            &&& content@ == buffer@.take(count as int)
        },
{
    if count > 0 || !sent {
        let content = slice_to_vec(slice_subrange(buffer, 0, count));
        assert(content@ =~= buffer@.take(count as int));
        Some(Message::TaskOutput { output_type, content })
    } else {
        None
    }
}

/// The message that a task is done, given when it was started, when it finished and when all of
/// its output had been sent.
pub fn task_done(
    exit_code: Option<i32>,
    target_id: String,
    started: u128,
    finished: u128,
    sent: u128,
) -> (message: Message)
    requires
        started <= finished <= sent,
    ensures
        message == (Message::TaskDone {
            exit_code,
            target_id,
            run_time: (finished - started) as u128,
            send_time: (sent - finished) as u128,
        }),
{
    Message::TaskDone {
        exit_code,
        target_id,
        run_time: finished - started,
        send_time: sent - finished,
    }
}

impl RunModel {
    /// True if the events can happen one after the other.
    pub open spec fn accepts_all(self, events: Seq<RunEvent>) -> bool
        decreases events.len(),
    {
        events.len() > 0 ==> {
            &&& self.accepts_all(events.drop_last())
            &&& self.after_all(events.drop_last()).accepts(events.last())
        }
    }

    /// The state after the events.
    pub open spec fn after_all(self, events: Seq<RunEvent>) -> RunModel
        decreases events.len(),
    {
        if events.len() == 0 {
            self
        } else {
            self.after_all(events.drop_last()).after(events.last())
        }
    }

    /// All that is sent on the events.
    pub open spec fn sends_all(self, events: Seq<RunEvent>) -> Seq<Told>
        decreases events.len(),
    {
        if events.len() == 0 {
            Seq::empty()
        } else {
            let before = self.sends_all(events.drop_last());
            match self.after_all(events.drop_last()).sends(events.last()) {
                Some(message) => before.push(message),
                None => before,
            }
        }
    }

    /// The files that are to be sent on account of the events.
    pub open spec fn asks_for_all(self, events: Seq<RunEvent>) -> Seq<nat>
        decreases events.len(),
    {
        if events.len() == 0 {
            Seq::empty()
        } else {
            let before = self.asks_for_all(events.drop_last());
            match self.after_all(events.drop_last()).asks_for(events.last()) {
                Some(index) => before.push(index),
                None => before,
            }
        }
    }

    /// The number of files that have been asked for in this state.
    pub open spec fn asked(self) -> nat {
        match self.phase {
            RunPhase::Running => 0,
            RunPhase::Sending { index, .. } => index as nat + 1,
            RunPhase::Finished => self.file_count,
        }
    }
}

/// The place of what is sent of a task: first what it writes to its streams, then its files in
/// order, and at the end that it is done.
pub open spec fn place(message: Told, file_count: nat) -> nat {
    match message {
        Told::Output(OutputType::File(index), _) => index as nat + 1,
        Told::Output(_, _) => 0,
        Told::Done { .. } => file_count + 1,
        Told::Other => 0,
    }
}

proof fn lemma_run(run: RunModel, events: Seq<RunEvent>)
    requires
        run.wf(),
        run.phase is Running,
        run.file_count <= usize::MAX,
        run.accepts_all(events),
    ensures
        ({
            let last = run.after_all(events);
            let sent = run.sends_all(events);
            &&& last.wf()
            &&& last.file_count == run.file_count
            &&& forall|i: int|
                0 <= i < sent.len() ==> place(#[trigger] sent[i], run.file_count) <= (
                if last.phase is Finished {
                    run.file_count + 1
                } else {
                    last.asked()
                })
            &&& forall|i: int, j: int|
                0 <= i < j < sent.len() ==> place(#[trigger] sent[i], run.file_count) <= place(
                    #[trigger] sent[j],
                    run.file_count,
                )
            &&& forall|i: int|
                0 <= i < sent.len() ==> (#[trigger] sent[i] is Done <==> last.phase is Finished && i
                    == sent.len() - 1)
            &&& last.phase is Finished ==> sent.len() > 0
            &&& run.asks_for_all(events) == Seq::new(last.asked(), |i: int| i as nat)
        }),
    decreases events.len(),
{
    if events.len() > 0 {
        let before = events.drop_last();
        lemma_run(run, before);
        let state = run.after_all(before);
        let event = events.last();
        let next = state.after(event);
        let sent = run.sends_all(before);
        let now_sent = run.sends_all(events);
        assert(!(state.phase is Finished));
        assert forall|i: int| 0 <= i < now_sent.len() implies (#[trigger] now_sent[i] is Done
            <==> next.phase is Finished && i == now_sent.len() - 1) by {
            if i < sent.len() {
                assert(now_sent[i] == sent[i]);
            }
        }
        assert forall|i: int, j: int| 0 <= i < j < now_sent.len() implies place(
            #[trigger] now_sent[i],
            run.file_count,
        ) <= place(#[trigger] now_sent[j], run.file_count) by {
            assert(now_sent[i] == sent[i]);
            if j < sent.len() {
                assert(now_sent[j] == sent[j]);
            }
        }
        assert forall|i: int| 0 <= i < now_sent.len() implies place(
            #[trigger] now_sent[i],
            run.file_count,
        ) <= (if next.phase is Finished {
            run.file_count + 1
        } else {
            next.asked()
        }) by {
            if i < sent.len() {
                assert(now_sent[i] == sent[i]);
            }
        }
        assert(run.asks_for_all(events) =~= Seq::new(next.asked(), |i: int| i as nat));
    } else {
        assert(run.asks_for_all(events) =~= Seq::new(run.asked(), |i: int| i as nat));
    }
}

/// Law: that a task is done is sent once, as the last message, when both its streams are done and
/// each of its files has been asked for, in order. Nothing follows it.
pub proof fn law_done_comes_last(run: RunModel, events: Seq<RunEvent>)
    requires
        run.wf(),
        run.phase is Running,
        run.file_count <= usize::MAX,
        run.accepts_all(events),
    ensures
        ({
            let last = run.after_all(events);
            let sent = run.sends_all(events);
            &&& forall|i: int|
                0 <= i < sent.len() ==> (#[trigger] sent[i] is Done <==> last.phase is Finished && i
                    == sent.len() - 1)
            &&& last.phase is Finished ==> {
                &&& sent.len() > 0
                &&& !last.stdout_open
                &&& !last.stderr_open
                &&& run.asks_for_all(events) == Seq::new(run.file_count, |i: int| i as nat)
                &&& forall|event: RunEvent| !last.accepts(event)
            }
        }),
{
    lemma_run(run, events);
}

/// Law: the files are asked for one after the other, from the first on, and what is sent of a task
/// comes in the order of its places: its streams, then its files, then that it is done.
pub proof fn law_output_in_order(run: RunModel, events: Seq<RunEvent>)
    requires
        run.wf(),
        run.phase is Running,
        run.file_count <= usize::MAX,
        run.accepts_all(events),
    ensures
        run.asks_for_all(events) == Seq::new(run.after_all(events).asked(), |i: int| i as nat),
        forall|i: int, j: int|
            0 <= i < j < run.sends_all(events).len() ==> place(
                #[trigger] run.sends_all(events)[i],
                run.file_count,
            ) <= place(#[trigger] run.sends_all(events)[j], run.file_count),
{
    lemma_run(run, events);
}

/// The bytes of what is sent.
pub open spec fn told_bytes(message: Told) -> Seq<u8> {
    match message {
        Told::Output(_, bytes) => bytes,
        _ => Seq::empty(),
    }
}

/// Law: a file is sent whole, whatever the reads of it give: what is sent is all of what was read,
/// as output of that file. A file that was read at all is announced by at least one message, even
/// if it is empty.
pub proof fn law_files_are_sent_whole(run: RunModel, index: usize, reads: Seq<Seq<u8>>)
    requires
        run.phase matches RunPhase::Sending { index: i, sent } && i == index && !sent,
    ensures
        ({
            let events = reads.map_values(|bytes: Seq<u8>| RunEvent::Chunk(bytes));
            let sent = run.sends_all(events);
            &&& run.accepts_all(events)
            &&& run.after_all(events).phase == (RunPhase::Sending { index, sent: reads.len() > 0 })
            &&& reads.len() > 0 ==> sent.len() > 0
            &&& forall|i: int|
                0 <= i < sent.len() ==> (#[trigger] sent[i] matches Told::Output(output, _)
                    && output == OutputType::File(index))
            &&& sent.map_values(|message: Told| told_bytes(message)).flatten() == reads.flatten()
        }),
    decreases reads.len(),
{
    let events = reads.map_values(|bytes: Seq<u8>| RunEvent::Chunk(bytes));
    let sent = run.sends_all(events);
    let pieces = sent.map_values(|message: Told| told_bytes(message));
    if reads.len() == 0 {
        assert(pieces =~= Seq::empty());
        assert(reads =~= Seq::empty());
    } else {
        let fewer = reads.drop_last();
        law_files_are_sent_whole(run, index, fewer);
        let before = fewer.map_values(|bytes: Seq<u8>| RunEvent::Chunk(bytes));
        assert(events.drop_last() =~= before);
        assert(events.last() == RunEvent::Chunk(reads.last()));
        let sent_before = run.sends_all(before);
        let pieces_before = sent_before.map_values(|message: Told| told_bytes(message));
        reads.lemma_flatten_and_flatten_alt_are_equivalent();
        fewer.lemma_flatten_and_flatten_alt_are_equivalent();
        if reads.last().len() == 0 && fewer.len() > 0 {
            assert(sent == sent_before);
            assert(reads.flatten() =~= fewer.flatten());
        } else {
            assert(sent =~= sent_before.push(Told::Output(OutputType::File(index), reads.last())));
            assert(pieces =~= pieces_before.push(reads.last()));
            pieces.lemma_flatten_and_flatten_alt_are_equivalent();
            pieces_before.lemma_flatten_and_flatten_alt_are_equivalent();
            assert(pieces.drop_last() =~= pieces_before);
        }
        assert forall|i: int| 0 <= i < sent.len() implies (
        #[trigger] sent[i] matches Told::Output(output, _) && output == OutputType::File(index)) by {
            if i < sent_before.len() {
                assert(sent[i] == sent_before[i]);
            }
        }
    }
}

/// Law: what a task writes arrives as it was sent. The client writes all the pieces of an output,
/// in order, whatever else comes in between.
pub proof fn law_output_arrives_whole(messages: Seq<Message>, output: OutputType)
    ensures
        crate::client::written(messages, output) == messages.filter(
            |message: Message| crate::client::is_output(message, output),
        ).map_values(|message: Message| crate::client::content_of(message)).flatten(),
    decreases messages.len(),
{
    reveal(Seq::filter);
    let p = |message: Message| crate::client::is_output(message, output);
    let f = |message: Message| crate::client::content_of(message);
    let pieces = messages.filter(p).map_values(f);
    if messages.len() == 0 {
        assert(pieces =~= Seq::empty());
    } else {
        let before = messages.drop_last();
        let fewer = before.filter(p).map_values(f);
        law_output_arrives_whole(before, output);
        if p(messages.last()) {
            assert(pieces =~= fewer.push(f(messages.last())));
            pieces.lemma_flatten_and_flatten_alt_are_equivalent();
            fewer.lemma_flatten_and_flatten_alt_are_equivalent();
            assert(pieces.drop_last() =~= fewer);
        } else {
            assert(pieces =~= fewer);
        }
    }
}

proof fn lemma_encode_concat(a: Seq<char>, b: Seq<char>)
    ensures
        encode_utf8(a + b) == encode_utf8(a) + encode_utf8(b),
    decreases a.len(),
{
    if a.len() == 0 {
        assert(a + b =~= b);
        assert(encode_utf8(a) + encode_utf8(b) =~= encode_utf8(b));
    } else {
        assert((a + b).drop_first() =~= a.drop_first() + b);
        lemma_encode_concat(a.drop_first(), b);
        assert(encode_utf8(a + b) =~= encode_utf8(a) + encode_utf8(b));
    }
}

/// Law: the lines that a task writes arrive unchanged, each with its line feed. The text that
/// was read of a stream is the text that the client writes.
pub proof fn law_lines_arrive(messages: Seq<Message>, output: OutputType, lines: Seq<Seq<char>>)
    requires
        messages.len() == lines.len(),
        forall|i: int|
            0 <= i < messages.len() ==> crate::client::is_output(#[trigger] messages[i], output)
                && crate::client::content_of(messages[i]) == encode_utf8(lines[i].push('\n')),
    ensures
        crate::client::written(messages, output) == encode_utf8(
            lines.map_values(|line: Seq<char>| line.push('\n')).flatten(),
        ),
    decreases messages.len(),
{
    let ended = lines.map_values(|line: Seq<char>| line.push('\n'));
    if messages.len() == 0 {
        assert(ended =~= Seq::empty());
        assert(ended.flatten() =~= Seq::empty());
    } else {
        let before = messages.drop_last();
        let fewer = lines.drop_last();
        assert forall|i: int| 0 <= i < before.len() implies crate::client::is_output(
            #[trigger] before[i],
            output,
        ) && crate::client::content_of(before[i]) == encode_utf8(fewer[i].push('\n')) by {
            assert(before[i] == messages[i]);
        }
        law_lines_arrive(before, output, fewer);
        let ended_before = fewer.map_values(|line: Seq<char>| line.push('\n'));
        assert(ended.drop_last() =~= ended_before);
        ended.lemma_flatten_and_flatten_alt_are_equivalent();
        ended_before.lemma_flatten_and_flatten_alt_are_equivalent();
        let last = messages[messages.len() - 1];
        assert(crate::client::is_output(last, output));
        assert(ended.flatten() =~= ended_before.flatten() + lines.last().push('\n'));
        lemma_encode_concat(ended_before.flatten(), lines.last().push('\n'));
    }
}

/// Law: an executor expects tasks and the order to terminate, and nothing else.
pub proof fn law_what_an_executor_expects(message: Message)
    ensures
        exec_expects(message) <==> match message {
            Message::Task { .. } => true,
            Message::PissOff => true,
            _ => false,
        },
{
}

/// Law: what the messages of an executor say is what they hold.
pub proof fn law_messages_say_what_they_hold(
    output_type: OutputType,
    content: Vec<u8>,
    exit_code: Option<i32>,
    target_id: String,
    run_time: u128,
    send_time: u128,
)
    ensures
        told(Message::TaskOutput { output_type, content }) == Told::Output(output_type, content@),
        ({
            let done = told(Message::TaskDone { exit_code, target_id, run_time, send_time });
            &&& done matches Told::Done { exit_code: code, target, run_time: run, send_time: send }
            &&& code == exit_code
            &&& target == target_id@
            &&& run == run_time
            &&& send == send_time
        }),
{
}

/// Law: what can happen when. Lines come in on a stream, and it ends, as long as it is open, and files
/// are no streams; the task exits once, after both streams, and not before it was started; and
/// files are read and end while one is sent.
pub proof fn law_what_can_happen(run: RunModel, event: RunEvent)
    ensures
        run.accepts(event) <==> match event {
            RunEvent::Line(output, _) | RunEvent::StreamEnd(output) => (output is Stdout
                && run.stdout_open) || (output is Stderr && run.stderr_open),
            RunEvent::Exited(_, finished, now) => run.phase is Running && !run.stdout_open
                && !run.stderr_open && run.started <= finished && finished <= now,
            RunEvent::Chunk(_) => run.phase is Sending,
            RunEvent::FileEnded(now) => run.phase is Sending && run.finished <= now,
        },
{
}

/// Law: what an event changes. A line changes nothing, the end of a stream that stream alone; the
/// exit tells the exit code and the time, as they are; and what is read of a file, or that it has
/// ended, only how far the sending has come. What is known of the task never changes.
pub proof fn law_what_an_event_changes(run: RunModel, event: RunEvent)
    ensures
        ({
            let next = run.after(event);
            &&& next.target == run.target
            &&& next.file_count == run.file_count
            &&& next.started == run.started
            &&& event is Line ==> next == run
            &&& event is StreamEnd ==> next.phase == run.phase
            &&& next.stdout_open <==> run.stdout_open && !(event matches RunEvent::StreamEnd(output)
                && output is Stdout)
            &&& next.stderr_open <==> run.stderr_open && !(event matches RunEvent::StreamEnd(output)
                && output is Stderr)
            &&& event matches RunEvent::Exited(exit_code, finished, _) ==> {
                &&& next.exit_code == exit_code
                &&& next.finished == finished
            }
            &&& !(event is Exited) ==> next.exit_code == run.exit_code && next.finished
                == run.finished
        }),
{
}

/// Law: the files are sent one after the other: the exit leads to the first, the end of each to the
/// next, and where there is no next one, all has been sent.
pub proof fn law_files_one_after_the_other(run: RunModel, event: RunEvent)
    requires
        run.wf(),
        run.file_count <= usize::MAX,
        run.accepts(event),
    ensures
        ({
            let next = run.after(event);
            let index = run.phase->Sending_index;
            &&& event is Exited && run.file_count > 0 ==> next.phase == (RunPhase::Sending {
                index: 0,
                sent: false,
            })
            &&& event is Exited && run.file_count == 0 ==> next.phase is Finished
            &&& event is FileEnded && index + 1 < run.file_count ==> next.phase
                == (RunPhase::Sending { index: (index + 1) as usize, sent: false })
            &&& event is FileEnded && index + 1 == run.file_count ==> next.phase is Finished
            &&& event is Chunk ==> next.phase == (RunPhase::Sending { index, sent: true })
        }),
{
}

/// Law: what is sent on an event. A line goes out with its line feed, what is read of a file as
/// output of that file, and nothing else but the end of the task is sent.
pub proof fn law_what_is_sent(run: RunModel, event: RunEvent)
    requires
        run.accepts(event),
    ensures
        match event {
            RunEvent::Line(output, line) => run.sends(event) == Some(
                Told::Output(output, encode_utf8(line + seq!['\n'])),
            ),
            RunEvent::StreamEnd(_) => run.sends(event) is None,
            RunEvent::Chunk(bytes) => {
                &&& run.sends(event) is None <==> bytes.len() == 0 && run.phase->Sending_sent
                &&& run.sends(event) matches Some(message) ==> message == Told::Output(
                    OutputType::File(run.phase->Sending_index),
                    bytes,
                )
            },
            RunEvent::Exited(..) | RunEvent::FileEnded(_) => {
                &&& run.sends(event) is Some <==> run.after(event).phase is Finished
                &&& run.sends(event) matches Some(message) ==> message is Done
            },
        },
{
    if let RunEvent::Line(_, line) = event {
        assert(line.push('\n') =~= line + seq!['\n']);
    }
}

/// Law: the next step after the exit, or after a file, is to send the file that comes next, or if
/// there is none, the message that the task is done.
pub proof fn law_which_step_comes_next(run: RunModel, event: RunEvent, step: RunStep)
    requires
        run.accepts(event),
        event is Exited || event is FileEnded,
        run.steps_to(event, step),
    ensures
        match step {
            RunStep::SendFile(index) => run.after(event).phase matches RunPhase::Sending {
                index: next,
                ..
            } && next == index,
            RunStep::Done(message) => run.after(event).phase is Finished && message is TaskDone,
        },
{
}

proof fn lemma_exit_is_kept(run: RunModel, events: Seq<RunEvent>, k: int)
    requires
        run.phase is Running,
        run.accepts_all(events),
    ensures
        run.after_all(events).target == run.target,
        run.after_all(events).started == run.started,
        0 <= k < events.len() ==> (events[k] matches RunEvent::Exited(exit_code, finished, _) ==> {
            &&& run.after_all(events).exit_code == exit_code
            &&& run.after_all(events).finished == finished
            &&& !(run.after_all(events).phase is Running)
        }),
    decreases events.len(),
{
    if events.len() > 0 {
        let before = events.drop_last();
        lemma_exit_is_kept(run, before, k);
        if k < before.len() && 0 <= k {
            assert(before[k] == events[k]);
        }
    }
}

/// Law: what is told at the end is what happened: the message that a task is done carries exactly the
/// exit code with which the task exited, none if it had none, its target, and how long it ran. The
/// time to send is that from the exit to the last step.
pub proof fn law_the_end_is_told_as_it_was(
    run: RunModel,
    events: Seq<RunEvent>,
    k: int,
    exit_code: Option<i32>,
    finished: u128,
    now: u128,
)
    requires
        run.wf(),
        run.phase is Running,
        run.file_count <= usize::MAX,
        run.accepts_all(events),
        0 <= k < events.len(),
        events[k] == RunEvent::Exited(exit_code, finished, now),
        run.after_all(events).phase is Finished,
    ensures
        run.sends_all(events).len() > 0,
        ({
            let end = run.sends_all(events).last();
            &&& end is Done
            &&& end->Done_exit_code == exit_code
            &&& end->Done_target == run.target
            &&& end->Done_run_time == finished - run.started
            &&& events.last() matches RunEvent::FileEnded(last) ==> end->Done_send_time == last
                - finished
            &&& events.last() matches RunEvent::Exited(_, _, last) ==> end->Done_send_time == last
                - finished
            &&& events.last() is FileEnded || events.last() is Exited
        }),
{
    lemma_run(run, events);
    lemma_exit_is_kept(run, events, k);
    let before = events.drop_last();
    lemma_run(run, before);
    let state = run.after_all(before);
    assert(state.accepts(events.last()));
    assert(!(state.phase is Finished));
    assert(run.sends_all(events).last() == run.after_all(events).done(
        match events.last() {
            RunEvent::FileEnded(last) => last,
            RunEvent::Exited(_, _, last) => last,
            _ => 0,
        },
    ));
}

/// Law: all that a task writes to a stream is sent, line by line and in order, and nothing else is
/// sent as output of that stream.
pub proof fn law_streams_are_sent_whole(run: RunModel, events: Seq<RunEvent>, output: OutputType)
    requires
        run.accepts_all(events),
        output is Stdout || output is Stderr,
    ensures
        run.sends_all(events).filter(
            |message: Told| message matches Told::Output(to, _) && to == output,
        ).map_values(|message: Told| told_bytes(message)) == events.filter(
            |event: RunEvent| event matches RunEvent::Line(from, _) && from == output,
        ).map_values(|event: RunEvent| encode_utf8(event->Line_1.push('\n'))),
    decreases events.len(),
{
    reveal(Seq::filter);
    let p = |message: Told| message matches Told::Output(to, _) && to == output;
    let f = |message: Told| told_bytes(message);
    let q = |event: RunEvent| event matches RunEvent::Line(from, _) && from == output;
    let g = |event: RunEvent| encode_utf8(event->Line_1.push('\n'));
    let sent = run.sends_all(events);
    if events.len() > 0 {
        let before = events.drop_last();
        let last = events.last();
        law_streams_are_sent_whole(run, before, output);
        let sent_before = run.sends_all(before);
        let state = run.after_all(before);
        if state.sends(last) is Some {
            assert(sent.drop_last() =~= sent_before);
        }
        if q(last) {
            assert(sent.filter(p) =~= sent_before.filter(p).push(sent.last()));
            assert(events.filter(q) =~= before.filter(q).push(last));
            assert(sent.filter(p).map_values(f) =~= sent_before.filter(p).map_values(f).push(
                f(sent.last()),
            ));
            assert(events.filter(q).map_values(g) =~= before.filter(q).map_values(g).push(g(last)));
        } else {
            assert(sent.filter(p) =~= sent_before.filter(p));
            assert(events.filter(q) =~= before.filter(q));
        }
    } else {
        assert(sent.filter(p).map_values(f) =~= events.filter(q).map_values(g));
    }
}

/// Law: the message that ends the running of a task tells what happened, whichever event it comes on:
/// the exit code of the task as it is, its target, how long it ran, and how long it took to send
/// its files.
pub proof fn law_what_the_last_step_tells(run: RunModel, event: RunEvent, message: Message)
    requires
        run.wf(),
        run.accepts(event),
        event is Exited || event is FileEnded,
        run.steps_to(event, RunStep::Done(message)),
    ensures
        message is TaskDone,
        message->TaskDone_target_id@ == run.target,
        event matches RunEvent::Exited(exit_code, finished, now) ==> {
            &&& message->TaskDone_exit_code == exit_code
            &&& message->TaskDone_run_time == finished - run.started
            &&& message->TaskDone_send_time == now - finished
        },
        event matches RunEvent::FileEnded(now) ==> {
            &&& message->TaskDone_exit_code == run.exit_code
            &&& message->TaskDone_run_time == run.finished - run.started
            &&& message->TaskDone_send_time == now - run.finished
        },
{
}

/// Law: a run stays well-formed whatever happens, and a run whose task has not exited is well-formed
/// unless it finished before it was started.
pub proof fn law_a_run_stays_well_formed(run: RunModel, event: RunEvent)
    requires
        run.file_count <= usize::MAX,
    ensures
        run.phase is Running && run.started <= run.finished ==> run.wf(),
        run.wf() && run.accepts(event) ==> run.after(event).wf(),
        run.wf() && !(run.phase is Running) ==> !run.stdout_open && !run.stderr_open,
        run.wf() ==> run.started <= run.finished,
{
}

} // verus!
