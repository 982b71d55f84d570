use spraycc::ipc::{Connection, Message, OutputType, ReadStep, TaskDetails};
use spraycc::text::{file_name, join_path, parent_path, push_decimal, push_signed, same_text};
use std::path::Path;

fn details() -> TaskDetails {
    TaskDetails {
        working_dir: "/work".to_string(),
        cmd: "/usr/bin/g++".to_string(),
        args: vec!["g++".to_string(), "a \"b\"\n".to_string(), "-o".to_string(), "a.o".to_string()],
        output_args: vec![3, 1],
        env: vec![("PERSON".to_string(), "Mom\\".to_string())],
        priority_task: true,
    }
}

#[test]
fn a_message_is_framed_by_its_size() {
    assert_eq!(Connection::write_message(&[7, 8, 9]), vec![0, 0, 0, 3, 7, 8, 9]);
    assert_eq!(Connection::write_message(&[]), vec![0, 0, 0, 0]);
    let long = vec![5u8; 66_051];
    assert_eq!(&Connection::write_message(&long)[..4], &[0, 1, 2, 3]);
}

#[test]
fn a_message_that_is_sent_is_received() {
    let mut conn = Connection::new();
    assert_eq!(conn.buffered(), 0);
    let sent: Vec<Vec<u8>> = vec![vec![1, 2, 3], vec![], vec![9; 70_000], vec![4]];
    let mut stream: Vec<u8> = Vec::new();
    for data in &sent {
        stream.extend(Connection::write_message(data));
    }
    conn.feed(&stream);
    assert_eq!(conn.buffered(), stream.len());
    for data in &sent {
        assert_eq!(conn.read_message(false), ReadStep::Message(data.clone()));
    }
    assert_eq!(conn.read_message(false), ReadStep::NeedMore);
    assert_eq!(conn.read_message(true), ReadStep::Closed);
}

#[test]
fn it_does_not_matter_how_a_stream_is_split() {
    let stream: Vec<u8> =
        [Connection::write_message(&[1, 2, 3, 4, 5]), Connection::write_message(&[6])].concat();
    for step in 1..stream.len() {
        let mut conn = Connection::new();
        let mut found = Vec::new();
        for piece in stream.chunks(step) {
            conn.feed(piece);
            loop {
                match conn.read_message(false) {
                    ReadStep::Message(data) => found.push(data),
                    other => {
                        assert_eq!(other, ReadStep::NeedMore);
                        break;
                    }
                }
            }
        }
        assert_eq!(found, vec![vec![1, 2, 3, 4, 5], vec![6]]);
        assert_eq!(conn.read_message(true), ReadStep::Closed);
    }
}

#[test]
fn a_stream_that_is_cut_off_is_an_error() {
    let mut conn = Connection::new();
    conn.feed(&[0, 0, 0]);
    assert_eq!(
        conn.read_message(true),
        ReadStep::Failed("Connection reset by peer with 3 bytes buffered".to_string())
    );
    let mut conn = Connection::new();
    conn.feed(&[0, 0, 0, 200, 1, 2]);
    assert_eq!(conn.read_message(false), ReadStep::NeedMore);
    assert_eq!(
        conn.read_message(true),
        ReadStep::Failed("connection reset by peer 2 200".to_string())
    );
}

#[test]
fn a_negative_size_is_never_reached() {
    let mut conn = Connection::new();
    conn.feed(&[255, 255, 255, 255, 1, 2, 3]);
    assert_eq!(conn.read_message(false), ReadStep::NeedMore);
    let text = format!("connection reset by peer 3 {}", -1i32 as usize);
    assert_eq!(conn.read_message(true), ReadStep::Failed(text));
}

#[test]
fn a_task_is_known_by_its_output_or_its_command_line() {
    let mut task = details();
    assert_eq!(task.get_target_id(), "a.o");
    task.output_args = vec![];
    task.args = vec!["ls".to_string(), "-l".to_string()];
    assert_eq!(task.get_target_id(), "ls -l");
    task.output_args = vec![9];
    assert_eq!(task.get_target_id(), "ls -l");
    task.args = vec![];
    assert_eq!(task.get_target_id(), "");
}

#[test]
fn tasks_are_compared_in_full() {
    let task = details();
    assert!(task.same_task(&details()));
    assert!(!task.same_task(&TaskDetails { working_dir: "/wor".to_string(), ..details() }));
    assert!(!task.same_task(&TaskDetails { cmd: "/usr/bin/g+-".to_string(), ..details() }));
    assert!(!task.same_task(&TaskDetails { args: vec![], ..details() }));
    assert!(!task.same_task(&TaskDetails { output_args: vec![3, 2], ..details() }));
    assert!(!task.same_task(&TaskDetails {
        env: vec![("PERSON".to_string(), "Dad".to_string())],
        ..details()
    }));
    assert!(!task.same_task(&TaskDetails { priority_task: false, ..details() }));
}

#[test]
fn a_task_is_written_out() {
    assert_eq!(details().describe(), format!("{:?}", details()));
    // A path has its single quotes escaped, another text has not.
    let quoted = TaskDetails {
        working_dir: "/it's".to_string(),
        cmd: "/o'clock \"x\"".to_string(),
        args: vec!["don't".to_string()],
        ..details()
    };
    let text = quoted.describe();
    assert!(text.contains(&format!("working_dir: {:?}, ", Path::new("/it's"))));
    assert!(text.contains(&format!("cmd: {:?}, ", Path::new("/o'clock \"x\""))));
    assert!(text.contains("args: [\"don't\"]"));
    let empty = TaskDetails { args: vec![], output_args: vec![], env: vec![], ..details() };
    assert_eq!(empty.describe(), format!("{:?}", empty));
}

#[test]
fn messages_are_written_out() {
    let output = |output_type, content: &[u8]| Message::TaskOutput {
        output_type,
        content: content.to_vec(),
    };
    let done = |exit_code| Message::TaskDone {
        exit_code,
        target_id: "a".to_string(),
        run_time: 0,
        send_time: 0,
    };
    let cases = vec![
        (
            Message::YourObedientServant { access_code: 666, user_code: 1 },
            "YourObedientServant: 666".to_string(),
        ),
        (
            Message::Task { access_code: 42, user_code: 1, details: details() },
            format!("Task: code 42, details: {:?}", details()),
        ),
        (output(OutputType::Stdout, b"abc"), "TaskOutput Stdout, length 3".to_string()),
        (
            output(OutputType::Stderr, "fähig".as_bytes()),
            "TaskOutput Stderr, length 6: fähig".to_string(),
        ),
        (output(OutputType::File(12), &[0; 10]), "TaskOutput File(12), length 10".to_string()),
        (
            Message::TaskFailed { error_message: "oops".to_string() },
            "TaskDone, error: oops".to_string(),
        ),
        (done(Some(0)), "TaskDone, exit code 0".to_string()),
        (done(Some(-12)), "TaskDone, exit code -12".to_string()),
        (done(None), "TaskDone, exit code -1".to_string()),
        (Message::LastTaskSent, "LastTaskSend".to_string()),
        (Message::CancelTask, "CancelTask".to_string()),
        (Message::PissOff, "PissOff".to_string()),
        (Message::Dropped, "Dropped".to_string()),
    ];
    for (message, text) in cases {
        assert_eq!(message.describe(), text);
    }
}

#[test]
fn numbers_are_written_in_decimal() {
    for n in [0u64, 7, 10, 99, 100, 1_234_567_890, u64::MAX] {
        let mut text = "n=".to_string();
        push_decimal(&mut text, n);
        assert_eq!(text, format!("n={}", n));
    }
    for n in [0i32, -1, 5, -10, i32::MAX, i32::MIN] {
        let mut text = String::new();
        push_signed(&mut text, n);
        assert_eq!(text, format!("{}", n));
    }
}

#[test]
fn texts_are_compared() {
    assert!(same_text("größe", "größe"));
    assert!(!same_text("größe", "grösse"));
    assert!(!same_text("", "a"));
    assert!(same_text("", ""));
}

#[test]
fn file_names_are_those_of_the_path() {
    let paths = [
        "", "/", ".", "..", "a", "a/", "a/.", "a/./", "a/..", "/a/b.o", "b/../c", "x//y//", "./a", "../a",
        "/usr/bin/g++", "...", "a/.b", "a/..b", "/.", "/..", "a/.//.",
    ];
    for path in paths {
        let expected = Path::new(path).file_name().map(|s| s.to_string_lossy().to_string());
        assert_eq!(file_name(path), expected, "{:?}", path);
    }
}

#[test]
fn paths_are_joined_and_climbed() {
    for (dir, name) in [("/a", "b"), ("/a/", "b"), ("", "b"), ("/", "b"), ("/a", "/b"), ("a", "")] {
        let expected = Path::new(dir).join(name).to_string_lossy().to_string();
        assert_eq!(join_path(dir, name), expected);
    }
    let paths = [
        "", "/", "//", "/.", "/./", "/a", "/a/", "/a//", "/a/.", "/a/b", "/home/me/src", "a", "a/b", "a//b",
        "a/./b", "./a", ".", "./", "..", "../a", "a/..", "a/../b/.", ".a", "a/.b", "//a", "/./a", "a/./", "././",
    ];
    for path in paths {
        let expected = Path::new(path).parent().map(|p| p.to_string_lossy().to_string());
        assert_eq!(parent_path(path), expected, "{:?}", path);
    }
}
