use spraycc::client::{
    exit_code, expects, handle_gnu, handle_msg, interpret_command_line, make_output_files,
    running_text, status_of,
};
use spraycc::ipc::{Message, OutputType, TaskDetails};

fn words(line: &[&str]) -> Vec<String> {
    line.iter().map(|s| s.to_string()).collect()
}

fn interpret(line: &[&str], path: &str) -> Result<(bool, TaskDetails), String> {
    interpret_command_line(
        words(line),
        Some(path.to_string()),
        Some("/work".to_string()),
        vec![("PERSON".to_string(), "Mom".to_string())],
    )
}

#[test]
fn test_cmdline_handling() {
    let cmdline: Vec<String> = words(&["g++", "test.cpp", "-c", "-o", "test.o"]);
    let (local, task) = interpret_command_line(
        cmdline,
        Some("/usr/bin/g++".to_string()),
        Some("/work".to_string()),
        vec![],
    )
    .unwrap();
    println!("Got task: {:?}", task);
    assert_eq!(local, false);
    assert_eq!(task.args[0], "g++");
}

#[test]
fn compile_task_is_described_in_full() {
    let (local, task) = interpret(&["g++", "test.cpp", "-c", "-o", "test.o"], "/usr/bin/g++").unwrap();
    assert!(!local);
    assert_eq!(task.working_dir, "/work");
    assert_eq!(task.cmd, "/usr/bin/g++");
    assert_eq!(task.args, words(&["g++", "test.cpp", "-c", "-o", "test.o"]));
    assert_eq!(task.output_args, vec![4]);
    assert_eq!(task.env, vec![("PERSON".to_string(), "Mom".to_string())]);
    assert!(!task.priority_task);
}

#[test]
fn compiling_is_remoted_and_linking_is_not() {
    for option in ["-c", "-s", "-E", "-MD", "-M", "-MM"] {
        let (local, _) = interpret(&["clang", "a.cpp", option], "/usr/bin/clang").unwrap();
        assert!(!local, "{}", option);
    }
    for line in [vec!["gcc", "a.o", "-o", "a"], vec!["gcc"], vec!["gcc", "-e", "-m"]] {
        let (local, _) = interpret(&line, "/usr/bin/gcc").unwrap();
        assert!(local);
    }
}

#[test]
fn the_command_itself_is_no_option() {
    let (local, outputs) = handle_gnu(&words(&["-c", "-o"]));
    assert!(local);
    assert!(outputs.is_empty());
}

#[test]
fn archiving_stays_local_and_plain_commands_do_not() {
    let (local, task) = interpret(&["ar", "rc", "lib.a", "a.o"], "/usr/bin/ar").unwrap();
    assert!(local);
    assert!(task.output_args.is_empty());
    assert!(!interpret(&["echo", "-o", "x"], "/bin/echo").unwrap().0);
    assert!(interpret(&["echo", "-o", "x"], "/bin/echo").unwrap().1.output_args.is_empty());
    assert!(!interpret(&["ls"], "/bin/ls").unwrap().0);
}

#[test]
fn dependency_generation_has_priority() {
    assert!(interpret(&["gcc", "-M", "a.c"], "/usr/bin/gcc").unwrap().1.priority_task);
    assert!(interpret(&["gcc", "-MM", "a.c"], "/usr/bin/gcc").unwrap().1.priority_task);
    assert!(!interpret(&["gcc", "-MD", "-c", "a.c"], "/usr/bin/gcc").unwrap().1.priority_task);
    assert!(!interpret(&["echo", "-M"], "/bin/echo").unwrap().1.priority_task);
}

#[test]
fn output_files_follow_their_options() {
    let line = words(&["g++", "-c", "-MD", "-MF", "a.d", "-o", "a.o", "a.cpp"]);
    assert_eq!(handle_gnu(&line), (false, vec![4, 6]));
    // An option at the end announces nothing, and an option may be named like a file.
    assert_eq!(handle_gnu(&words(&["g++", "-c", "a.cpp", "-o"])), (false, vec![]));
    assert_eq!(handle_gnu(&words(&["g++", "-o", "-o", "x"])), (true, vec![2, 3]));
}

#[test]
fn errors_of_the_command_line() {
    let unknown = interpret_command_line(words(&["nope", "-c"]), None, None, vec![]);
    assert_eq!(unknown.unwrap_err(), "Command nope not found");
    assert_eq!(interpret(&["make"], "/usr/bin/make").unwrap_err(), "Not implemented");
    let lost =
        interpret_command_line(words(&["ls"]), Some("/bin/ls".to_string()), None, vec![]);
    assert_eq!(lost.unwrap_err(), "Unable to get current working directory");
    // The command is looked at before the directory.
    let both =
        interpret_command_line(words(&["make"]), Some("/bin/make".to_string()), None, vec![]);
    assert_eq!(both.unwrap_err(), "Not implemented");
}

#[test]
fn output_file_names_come_from_the_arguments() {
    let (_, task) =
        interpret(&["g++", "-c", "-MF", "a.d", "-o", "out/a.o"], "/usr/bin/g++").unwrap();
    assert_eq!(make_output_files(&task), words(&["a.d", "out/a.o"]));
}

#[test]
fn messages_of_a_task() {
    let output = Message::TaskOutput { output_type: OutputType::File(1), content: vec![1, 2, 3] };
    assert!(expects(&output, 2));
    assert!(!expects(&output, 1));
    let step = handle_msg(output, 2);
    assert_eq!(step.output, Some((OutputType::File(1), vec![1, 2, 3])));
    assert_eq!(step.notice, None);
    assert_eq!(step.status, None);

    let failed = Message::TaskFailed { error_message: "no such thing".to_string() };
    assert!(expects(&failed, 0));
    let step = handle_msg(failed, 0);
    assert_eq!(step.output, None);
    assert_eq!(step.notice, Some("Task failed: no such thing".to_string()));
    assert_eq!(step.status, Some(-1));

    for (code, status) in [(Some(0), 0), (Some(3), 3), (Some(-7), -7), (None, -1)] {
        let done = Message::TaskDone {
            exit_code: code,
            target_id: "a.o".to_string(),
            run_time: 1,
            send_time: 2,
        };
        assert!(expects(&done, 0));
        let step = handle_msg(done, 0);
        assert_eq!(step.output, None);
        assert_eq!(step.notice, None);
        assert_eq!(step.status, Some(status));
    }

    assert!(expects(&Message::TaskOutput { output_type: OutputType::Stdout, content: vec![] }, 0));
    assert!(expects(&Message::TaskOutput { output_type: OutputType::Stderr, content: vec![] }, 0));
    assert!(!expects(&Message::PissOff, 9));
    assert!(!expects(&Message::Dropped, 9));
}

#[test]
fn exit_code_is_that_of_the_task() {
    assert_eq!(status_of(Some(-4)), -4);
    assert_eq!(status_of(None), -1);
    assert_eq!(exit_code(0), 0);
    assert_eq!(exit_code(2), 2);
    assert_eq!(exit_code(i32::MAX), i32::MAX);
    assert_eq!(exit_code(-1), -1);
    assert_eq!(exit_code(-9), -1);
    assert_eq!(exit_code(i32::MIN), -1);
}

#[test]
fn command_line_is_shown() {
    assert_eq!(running_text(&words(&["g++", "-c", "a.cpp"])), "Running compiler: g++, -c, a.cpp");
    assert_eq!(running_text(&words(&["", "a", "", "b"])), "Running compiler: a, , b");
    assert_eq!(running_text(&vec![]), "Running compiler: ");
}
