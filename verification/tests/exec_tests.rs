use spraycc::client::handle_msg;
use spraycc::exec::{
    expects, handle_message, output_chunk, task_done, ExecStep, RunStep, StreamEvent, StreamStep,
    TaskRun, CHUNK_SIZE,
};
use spraycc::ipc::{Message, OutputType, TaskDetails};

fn details() -> TaskDetails {
    TaskDetails {
        working_dir: "/work".to_string(),
        cmd: "/bin/echo".to_string(),
        args: vec!["echo".to_string(), "hi".to_string()],
        output_args: vec![],
        env: vec![],
        priority_task: false,
    }
}

#[test]
fn the_executor_runs_tasks_until_it_is_stopped() {
    let task = Message::Task { access_code: 0, user_code: 0, details: details() };
    assert!(expects(&task));
    match handle_message(task) {
        ExecStep::Run(found) => assert_eq!(found, details()),
        ExecStep::Stop => panic!("not run"),
    }
    assert!(expects(&Message::PissOff));
    assert!(matches!(handle_message(Message::PissOff), ExecStep::Stop));
    assert!(!expects(&Message::CancelTask));
    assert!(!expects(&Message::Dropped));
    assert!(!expects(&Message::YourObedientServant { access_code: 2, user_code: 3 }));
}

fn line(run: &mut TaskRun, output: OutputType, text: &str) -> Message {
    match run.handle_event(output, StreamEvent::Line(text.to_string())) {
        StreamStep::Send(message) => message,
        _ => panic!("not sent"),
    }
}

#[test]
fn lines_are_sent_with_their_line_feed() {
    let mut run = TaskRun::new("a.o".to_string(), 0, 0);
    let message = line(&mut run, OutputType::Stdout, "Hi Mom");
    let step = handle_msg(message, 0);
    assert_eq!(step.output, Some((OutputType::Stdout, b"Hi Mom\n".to_vec())));
    let message = line(&mut run, OutputType::Stderr, "Fehler: größer \u{1F600}");
    let step = handle_msg(message, 0);
    assert_eq!(
        step.output,
        Some((OutputType::Stderr, "Fehler: größer \u{1F600}\n".as_bytes().to_vec()))
    );
    let message = line(&mut run, OutputType::Stdout, "");
    assert_eq!(handle_msg(message, 0).output, Some((OutputType::Stdout, b"\n".to_vec())));
    assert!(!run.is_finished());
}

#[test]
fn a_task_is_finished_when_both_streams_are() {
    let mut run = TaskRun::new("a.o".to_string(), 0, 0);
    assert!(run.is_open(OutputType::Stdout) && run.is_open(OutputType::Stderr));
    assert!(!run.is_open(OutputType::File(0)));
    assert!(matches!(run.handle_event(OutputType::Stdout, StreamEvent::End), StreamStep::Ended));
    assert!(!run.is_open(OutputType::Stdout));
    assert!(run.is_open(OutputType::Stderr));
    assert!(!run.is_finished());
    line(&mut run, OutputType::Stderr, "more");
    assert!(!run.is_finished());
    assert!(matches!(run.handle_event(OutputType::Stderr, StreamEvent::End), StreamStep::Ended));
    assert!(run.is_finished());
}

#[test]
fn a_stream_that_cannot_be_read_is_done() {
    let mut run = TaskRun::new("a.o".to_string(), 0, 0);
    match run.handle_event(OutputType::Stderr, StreamEvent::Error) {
        StreamStep::Warn(text) => assert_eq!(text, "SprayCC: Exec: Error reading stderr"),
        _ => panic!("no warning"),
    }
    assert!(run.is_open(OutputType::Stdout));
    match run.handle_event(OutputType::Stdout, StreamEvent::Error) {
        StreamStep::Warn(text) => assert_eq!(text, "Spraycc: Exec: Error reading stdout"),
        _ => panic!("no warning"),
    }
    assert!(run.is_finished());
}

#[test]
fn files_are_sent_in_pieces() {
    let file: Vec<u8> = (0..200_000u32).map(|i| (i % 251) as u8).collect();
    let mut arrived: Vec<u8> = Vec::new();
    let mut pieces = 0;
    let mut at = 0;
    loop {
        let mut buffer = vec![0u8; CHUNK_SIZE];
        let count = std::cmp::min(CHUNK_SIZE, file.len() - at);
        buffer[..count].copy_from_slice(&file[at..at + count]);
        at += count;
        match output_chunk(OutputType::File(3), &buffer, count, pieces > 0) {
            Some(message) => {
                pieces += 1;
                let (output, content) = handle_msg(message, 4).output.unwrap();
                assert_eq!(output, OutputType::File(3));
                arrived.extend(content);
            }
            None => break,
        }
    }
    assert_eq!(CHUNK_SIZE, 65536);
    assert_eq!(pieces, 4);
    assert_eq!(arrived, file);
}

#[test]
fn an_empty_file_is_announced() {
    let message = output_chunk(OutputType::File(0), &[7; 10], 0, false).unwrap();
    assert_eq!(handle_msg(message, 1).output, Some((OutputType::File(0), vec![])));
    assert!(output_chunk(OutputType::File(0), &[7; 10], 0, true).is_none());
    let message = output_chunk(OutputType::File(0), &[7; 10], 2, true).unwrap();
    assert_eq!(handle_msg(message, 1).output, Some((OutputType::File(0), vec![7, 7])));
}

/// Ends both streams of a task.
fn close(run: &mut TaskRun) {
    run.handle_event(OutputType::Stdout, StreamEvent::End);
    run.handle_event(OutputType::Stderr, StreamEvent::End);
}

fn file_of(step: RunStep) -> usize {
    match step {
        RunStep::SendFile(index) => index,
        RunStep::Done(_) => panic!("done too early"),
    }
}

fn end_of(step: RunStep) -> Message {
    match step {
        RunStep::SendFile(_) => panic!("not done"),
        RunStep::Done(message) => message,
    }
}

#[test]
fn files_follow_the_streams_and_then_the_task_is_done() {
    let mut run = TaskRun::new("a.o".to_string(), 3, 100);
    close(&mut run);
    assert!(run.is_finished());

    // The first file has some content.
    assert_eq!(file_of(run.exited(Some(2), 350, 351)), 0);
    let first = run.file_chunk(&[1, 2, 3, 4], 3).unwrap();
    assert_eq!(handle_msg(first, 3).output, Some((OutputType::File(0), vec![1, 2, 3])));
    let second = run.file_chunk(&[5, 6, 7, 8], 1).unwrap();
    assert_eq!(handle_msg(second, 3).output, Some((OutputType::File(0), vec![5])));
    assert!(run.file_chunk(&[5, 6, 7, 8], 0).is_none());

    // The second one is empty, but announced.
    assert_eq!(file_of(run.file_ended(400)), 1);
    let empty = run.file_chunk(&[5, 6, 7, 8], 0).unwrap();
    assert_eq!(handle_msg(empty, 3).output, Some((OutputType::File(1), vec![])));
    assert!(run.file_chunk(&[5, 6, 7, 8], 0).is_none());

    // The third one cannot be opened.
    assert_eq!(file_of(run.file_ended(500)), 2);
    let done = end_of(run.file_ended(1000));
    assert!(
        done == Message::TaskDone {
            exit_code: Some(2),
            target_id: "a.o".to_string(),
            run_time: 250,
            send_time: 650,
        }
    );
}

#[test]
fn a_task_without_files_is_done_at_once() {
    let mut run = TaskRun::new("ls -l".to_string(), 0, 0);
    close(&mut run);
    let done = end_of(run.exited(None, 7, 9));
    assert!(
        done == Message::TaskDone {
            exit_code: None,
            target_id: "ls -l".to_string(),
            run_time: 7,
            send_time: 2,
        }
    );
}

#[test]
fn the_times_of_a_task_are_measured() {
    let message = task_done(Some(2), "a.o".to_string(), 100, 350, 1000);
    assert!(
        message
            == Message::TaskDone {
                exit_code: Some(2),
                target_id: "a.o".to_string(),
                run_time: 250,
                send_time: 650,
            }
    );
}
