//! The client wraps one invocation of a compiler: it submits the command line to the server and
//! hands out the results.

use crate::ipc::{Message, OutputType, TaskDetails, TaskModel};
use crate::text::{file_name, same_text};
use vstd::prelude::*;

verus! {

/// True of the options that make a compiler compile, preprocess or generate dependencies. A
/// command line without any of them links, which is done locally.
pub open spec fn is_compile_option(arg: Seq<char>) -> bool {
    arg == "-c"@ || arg == "-s"@ || arg == "-E"@ || arg == "-MD"@ || is_dependency_option(arg)
}

/// True of the options that make a compiler generate dependencies and nothing else.
pub open spec fn is_dependency_option(arg: Seq<char>) -> bool {
    arg == "-M"@ || arg == "-MM"@
}

/// True of the options that are followed by the name of an output file.
pub open spec fn is_output_option(arg: Seq<char>) -> bool {
    arg == "-o"@ || arg == "-MF"@
}

/// True if one of the arguments behind the command satisfies the condition.
pub open spec fn has_argument(args: Seq<Seq<char>>, p: spec_fn(Seq<char>) -> bool) -> bool {
    exists|i: int| 1 <= i < args.len() && p(#[trigger] args[i])
}

/// The positions, below `end`, of the output file names in a command line.
pub open spec fn output_positions(args: Seq<Seq<char>>, end: int) -> Seq<u16>
    decreases end,
{
    if end <= 2 {
        Seq::empty()
    } else {
        let before = output_positions(args, end - 1);
        if is_output_option(args[end - 2]) {
            before.push(((end - 1) % 0x1_0000) as u16)
        } else {
            before
        }
    }
}

fn compile_option(arg: &str) -> (is: bool)
    ensures
        is == is_compile_option(arg@),
{
    same_text(arg, "-c") || same_text(arg, "-s") || same_text(arg, "-E") || same_text(arg, "-MD")
        || dependency_option(arg)
}

fn dependency_option(arg: &str) -> (is: bool)
    ensures
        is == is_dependency_option(arg@),
{
    same_text(arg, "-M") || same_text(arg, "-MM")
}

fn output_option(arg: &str) -> (is: bool)
    ensures
        is == is_output_option(arg@),
{
    same_text(arg, "-o") || same_text(arg, "-MF")
}

/// Interprets the arguments of a GNU or Clang compiler: whether it is to be run locally, because
/// it links, and which arguments name output files.
pub fn handle_gnu(args: &Vec<String>) -> (outcome: (bool, Vec<u16>))
    ensures
        outcome.0 == !has_argument(crate::ipc::texts(args@), |arg| is_compile_option(arg)),
        outcome.1@ == output_positions(crate::ipc::texts(args@), args@.len() as int),
{
    let ghost texts = crate::ipc::texts(args@);
    let ghost p = |arg: Seq<char>| is_compile_option(arg);
    let mut keep_local: bool = true;
    let mut positions: Vec<u16> = Vec::new();
    let mut i: usize = 1;
    while i < args.len()
        invariant
            texts == crate::ipc::texts(args@),
            p == (|arg: Seq<char>| is_compile_option(arg)),
            1 <= i,
            args@.len() > 0 ==> i <= args@.len(),
            keep_local == !(exists|k: int| 1 <= k < i && k < texts.len() && p(#[trigger] texts[k])),
            positions@ == output_positions(
                texts,
                if i < args@.len() {
                    i + 1
                } else {
                    args@.len() as int
                },
            ),
        decreases args@.len() - i,
    {
        assert(texts[i as int] == args@[i as int]@);
        if compile_option(args[i].as_str()) {
            keep_local = false;
            assert(p(texts[i as int]));
            proof {
                lemma_options_differ(texts[i as int]);
            }
        } else if i < args.len() - 1 && output_option(args[i].as_str()) {
            positions.push(((i + 1) as u64 % 0x1_0000) as u16);
        }
        i = i + 1;
    }
    (keep_local, positions)
}

proof fn lemma_options_differ(arg: Seq<char>)
    requires
        is_compile_option(arg),
    ensures
        !is_output_option(arg),
{
    reveal_strlit("-c");
    reveal_strlit("-s");
    reveal_strlit("-E");
    reveal_strlit("-MD");
    reveal_strlit("-M");
    reveal_strlit("-MM");
    reveal_strlit("-o");
    reveal_strlit("-MF");
    assert("-o"@[1] == 'o');
    assert("-MF"@.len() == 3 && "-MF"@[2] == 'F');
    assert("-c"@[1] == 'c');
    assert("-s"@[1] == 's');
    assert("-E"@[1] == 'E');
    assert("-MD"@[2] == 'D');
    assert("-M"@.len() == 2 && "-M"@[1] == 'M');
    assert("-MM"@[2] == 'M');
}

/// True of the compilers whose command lines are understood.
pub open spec fn is_compiler(name: Seq<char>) -> bool {
    name == "gcc"@ || name == "g++"@ || name == "clang"@
}

/// True of the commands that can be run anywhere and write no files.
pub open spec fn is_plain_command(name: Seq<char>) -> bool {
    name == "echo"@ || name == "ls"@
}

/// True of the command that archives, which is always done locally.
pub open spec fn is_archiver(name: Seq<char>) -> bool {
    name == "ar"@
}

/// True if the command is to be run locally.
pub open spec fn runs_locally(name: Seq<char>, args: Seq<Seq<char>>) -> bool {
    if is_compiler(name) {
        !has_argument(args, |arg| is_compile_option(arg))
    } else {
        is_archiver(name)
    }
}

/// The task that a command line stands for, given where the command is, where it is to be run and
/// in what environment.
pub open spec fn task_of(
    name: Seq<char>,
    args: Seq<Seq<char>>,
    cmd: Seq<char>,
    working_dir: Seq<char>,
    env: Seq<(Seq<char>, Seq<char>)>,
) -> TaskModel {
    TaskModel {
        working_dir,
        cmd,
        args,
        output_args: if is_compiler(name) {
            output_positions(args, args.len() as int)
        } else {
            Seq::empty()
        },
        env,
        priority_task: is_compiler(name) && has_argument(args, |arg| is_dependency_option(arg)),
    }
}

fn has_dependency_option(args: &Vec<String>) -> (has: bool)
    ensures
        has == has_argument(crate::ipc::texts(args@), |arg| is_dependency_option(arg)),
{
    let ghost texts = crate::ipc::texts(args@);
    let ghost p = |arg: Seq<char>| is_dependency_option(arg);
    let mut i: usize = 1;
    while i < args.len()
        invariant
            texts == crate::ipc::texts(args@),
            p == (|arg: Seq<char>| is_dependency_option(arg)),
            1 <= i,
            forall|k: int| 1 <= k < i && k < texts.len() ==> !p(#[trigger] texts[k]),
        decreases args@.len() - i,
    {
        assert(texts[i as int] == args@[i as int]@);
        if dependency_option(args[i].as_str()) {
            assert(p(texts[i as int]));
            return true;
        }
        i = i + 1;
    }
    false
}

/// Interprets a command line, given where the command was found, the current directory, as far as
/// they are known, and the environment. Returns whether it is to be run locally and the task that
/// it stands for, or an error message.
pub fn interpret_command_line(
    args: Vec<String>,
    cmd: Option<String>,
    working_dir: Option<String>,
    env: Vec<(String, String)>,
) -> (outcome: Result<(bool, TaskDetails), String>)
    requires
        args@.len() > 0,
        cmd matches Some(path) ==> crate::text::file_name_of(path@) is Some,
    ensures
        match cmd {
            None => outcome matches Err(message) && message@ == "Command "@ + args@[0]@
                + " not found"@,
            Some(path) => {
                let name = crate::text::file_name_of(path@)->0;
                if !is_compiler(name) && !is_plain_command(name) && !is_archiver(name) {
                    outcome matches Err(message) && message@ == "Not implemented"@
                } else {
                    match working_dir {
                        None => outcome matches Err(message) && message@
                            == "Unable to get current working directory"@,
                        Some(dir) => {
                            &&& outcome matches Ok(found)
                            &&& found.0 == runs_locally(name, crate::ipc::texts(args@))
                            &&& found.1@ == task_of(
                                name,
                                crate::ipc::texts(args@),
                                path@,
                                dir@,
                                crate::ipc::variables(env@),
                            )
                        },
                    }
                }
            },
        },
{
    let cmd: String = match cmd {
        Some(path) => path,
        None => {
            let mut message = "Command ".to_owned();
            message.append(args[0].as_str());
            message.append(" not found");
            return Err(message);
        },
    };
    let name: String = match file_name(cmd.as_str()) {
        Some(name) => name,
        None => String::new(),
    };
    let name = name.as_str();
    let mut keep_local: bool = false;
    let mut output_args: Vec<u16> = Vec::new();
    let mut priority_task: bool = false;
    proof {
        lemma_names_differ(name@);
    }
    if same_text(name, "gcc") || same_text(name, "g++") || same_text(name, "clang") {
        let (local, positions) = handle_gnu(&args);
        keep_local = local;
        output_args = positions;
        priority_task = has_dependency_option(&args);
    } else if same_text(name, "echo") || same_text(name, "ls") {
    } else if same_text(name, "ar") {
        keep_local = true;
    } else {
        return Err("Not implemented".to_owned());
    }
    match working_dir {
        Some(working_dir) => {
            let details = TaskDetails { working_dir, cmd, args, output_args, env, priority_task };
            Ok((keep_local, details))
        },
        None => Err("Unable to get current working directory".to_owned()),
    }
}

proof fn lemma_names_differ(name: Seq<char>)
    ensures
        is_plain_command(name) ==> !is_archiver(name),
{
    reveal_strlit("echo");
    reveal_strlit("ls");
    reveal_strlit("ar");
    assert("ls"@[0] == 'l');
    assert("ar"@[0] == 'a');
}

/// The names of the output files of a task.
pub fn make_output_files(task: &TaskDetails) -> (names: Vec<String>)
    requires
        forall|i: int|
            0 <= i < task@.output_args.len() ==> #[trigger] task@.output_args[i] < task@.args.len(),
    ensures
        crate::ipc::texts(names@) == task@.output_args.map_values(
            |index: u16| task@.args[index as int],
        ),
{
    let mut names: Vec<String> = Vec::new();
    let mut i: usize = 0;
    while i < task.output_args.len()
        invariant
            i <= task.output_args@.len(),
            forall|k: int|
                0 <= k < task@.output_args.len() ==> #[trigger] task@.output_args[k]
                    < task@.args.len(),
            names@.len() == i,
            forall|k: int|
                0 <= k < i ==> (#[trigger] names@[k])@ == task@.args[task@.output_args[k] as int],
        decreases task.output_args@.len() - i,
    {
        let index: usize = task.output_args[i] as usize;
        assert(task@.output_args[i as int] < task@.args.len());
        names.push(task.args[index].clone());
        i = i + 1;
    }
    assert(crate::ipc::texts(names@) =~= task@.output_args.map_values(
        |index: u16| task@.args[index as int],
    ));
    names
}

/// Law: every output file of a command line that was understood is one of its arguments, and
/// stands behind an option that announces it. (The command line must have at most 65536
/// arguments.)
pub proof fn law_outputs_are_arguments(args: Seq<Seq<char>>, end: int, i: int)
    requires
        end <= args.len() <= 0x1_0000,
        0 <= i < output_positions(args, end).len(),
    ensures
        2 <= output_positions(args, end)[i] < end,
        is_output_option(args[output_positions(args, end)[i] - 1]),
    decreases end,
{
    let before = output_positions(args, end - 1);
    if i < before.len() {
        law_outputs_are_arguments(args, end - 1, i);
    }
}

/// Law: an argument that stands behind an option which announces an output file is one of the
/// output files. (The command line must have at most 65536 arguments.)
pub proof fn law_announced_files_are_outputs(args: Seq<Seq<char>>, end: int, position: int)
    requires
        end <= args.len() <= 0x1_0000,
        2 <= position < end,
        is_output_option(args[position - 1]),
    ensures
        output_positions(args, end).contains(position as u16),
    decreases end,
{
    let all = output_positions(args, end);
    if position < end - 1 {
        law_announced_files_are_outputs(args, end - 1, position);
        let before = output_positions(args, end - 1);
        let i = choose|i: int| 0 <= i < before.len() && before[i] == position as u16;
        assert(all[i] == before[i]);
    } else {
        assert(all.last() == position as u16);
    }
}

/// Law: compilation and dependency generation are remoted, linking and archiving are not.
pub proof fn law_linking_stays_local(name: Seq<char>, args: Seq<Seq<char>>, position: int)
    ensures
        is_compiler(name) && 1 <= position < args.len() && is_compile_option(args[position])
            ==> !runs_locally(name, args),
        is_compiler(name) && (forall|i: int|
            1 <= i < args.len() ==> !is_compile_option(#[trigger] args[i])) ==> runs_locally(
            name,
            args,
        ),
{
    if is_compiler(name) && 1 <= position < args.len() && is_compile_option(args[position]) {
        let p = |arg: Seq<char>| is_compile_option(arg);
        assert(p(args[position]));
    }
}

/// Law: a task that generates dependencies is a priority task, and is remoted.
pub proof fn law_dependencies_have_priority(
    name: Seq<char>,
    args: Seq<Seq<char>>,
    position: int,
    cmd: Seq<char>,
    working_dir: Seq<char>,
    env: Seq<(Seq<char>, Seq<char>)>,
)
    requires
        is_compiler(name),
        1 <= position < args.len(),
        is_dependency_option(args[position]),
    ensures
        task_of(name, args, cmd, working_dir, env).priority_task,
        !runs_locally(name, args),
{
    let p = |arg: Seq<char>| is_dependency_option(arg);
    assert(p(args[position]));
    law_linking_stays_local(name, args, position);
}

/// What the client is to do about a message.
pub struct ClientStep {
    /// Output to write, and where.
    pub output: Option<(OutputType, Vec<u8>)>,
    /// Something to tell the user.
    pub notice: Option<String>,
    /// The status of the task, if it is finished: zero if all is well, the exit code if that is
    /// positive, and negative if the task could not be started or was terminated by a signal.
    pub status: Option<i32>,
}

/// True if a client expects the message: output, which goes to one of its files if to any, or the
/// end of the task.
pub open spec fn client_expects(message: Message, file_count: usize) -> bool {
    match message {
        Message::TaskOutput { output_type: OutputType::File(index), .. } => index < file_count,
        Message::TaskOutput { .. } => true,
        Message::TaskFailed { .. } => true,
        Message::TaskDone { .. } => true,
        _ => false,
    }
}

/// True if a client with that many output files expects the message.
pub fn expects(message: &Message, file_count: usize) -> (expected: bool)
    ensures
        expected == client_expects(*message, file_count),
{
    match message {
        Message::TaskOutput { output_type, content: _ } => match output_type {
            OutputType::File(index) => *index < file_count,
            OutputType::Stdout => true,
            OutputType::Stderr => true,
        },
        Message::TaskFailed { .. } => true,
        Message::TaskDone { .. } => true,
        _ => false,
    }
}

/// The status of a task that ended with the exit code, or without one on a signal.
pub open spec fn task_status(exit_code: Option<i32>) -> i32 {
    match exit_code {
        Some(code) => code,
        None => -1i32,
    }
}

/// The status of a task that ended with the exit code, or without one on a signal.
pub fn status_of(exit_code: Option<i32>) -> (status: i32)
    ensures
        status == task_status(exit_code),
{
    match exit_code {
        Some(code) => code,
        None => -1,
    }
}

/// Handles a message that comes from the executor via the server: output of the task, and then
/// finally its status.
pub fn handle_msg(message: Message, file_count: usize) -> (step: ClientStep)
    requires
        client_expects(message, file_count),
    ensures
        match message {
            Message::TaskOutput { output_type, content } => {
                &&& step.output == Some((output_type, content))
                &&& step.notice is None
                &&& step.status is None
            },
            Message::TaskFailed { error_message } => {
                &&& step.output is None
                &&& step.notice matches Some(notice)
                &&& notice@ == "Task failed: "@ + error_message@
                &&& step.status == Some(-1i32)
            },
            Message::TaskDone { exit_code, .. } => {
                &&& step.output is None
                &&& step.notice is None
                &&& step.status == Some(task_status(exit_code))
            },
            _ => true,
        },
        step.output matches Some((to, content)) ==> is_output(message, to) && content@
            == content_of(message),
        step.output is None ==> content_of(message).len() == 0,
        step.status is Some <==> message is TaskFailed || message is TaskDone,
        step.notice is Some <==> message is TaskFailed,
{
    match message {
        Message::TaskOutput { output_type, content } => ClientStep {
            output: Some((output_type, content)),
            notice: None,
            status: None,
        },
        Message::TaskFailed { error_message } => {
            let mut notice = "Task failed: ".to_owned();
            notice.append(error_message.as_str());
            ClientStep { output: None, notice: Some(notice), status: Some(-1) }
        },
        Message::TaskDone { exit_code, target_id: _, run_time: _, send_time: _ } => {
            ClientStep { output: None, notice: None, status: Some(status_of(exit_code)) }
        },
        _ => ClientStep { output: None, notice: None, status: None },
    }
}

/// True if the message carries output of that type.
pub open spec fn is_output(message: Message, output: OutputType) -> bool {
    message matches Message::TaskOutput { output_type, .. } && output_type == output
}

/// The output that a message carries.
pub open spec fn content_of(message: Message) -> Seq<u8> {
    match message {
        Message::TaskOutput { content, .. } => content@,
        _ => Seq::empty(),
    }
}

/// All that the client writes to an output on account of the messages.
pub open spec fn written(messages: Seq<Message>, output: OutputType) -> Seq<u8>
    decreases messages.len(),
{
    if messages.len() == 0 {
        Seq::empty()
    } else if is_output(messages.last(), output) {
        written(messages.drop_last(), output) + content_of(messages.last())
    } else {
        written(messages.drop_last(), output)
    }
}

/// The exit code of a client whose task has that status.
pub open spec fn exit_status(status: i32) -> i32 {
    if status > 0 {
        status
    } else if status < 0 {
        -1i32
    } else {
        0i32
    }
}

/// The exit code of a client whose task has that status.
pub fn exit_code(status: i32) -> (code: i32)
    ensures
        code == exit_status(status),
{
    if status > 0 {
        status
    } else if status < 0 {
        -1
    } else {
        0
    }
}

/// Law: the client succeeds if and only if its task does, and if the task fails with an exit
/// code, so does the client, with the same one if that is positive.
pub proof fn law_exit_code_is_that_of_the_task(exit_code: Option<i32>)
    ensures
        exit_status(task_status(exit_code)) == 0 <==> exit_code == Some(0i32),
        forall|code: i32| code > 0 && exit_code == Some(code) ==> exit_status(
            task_status(exit_code),
        ) == code,
{
}

/// The arguments as they are shown to the user: separated by commas, but for those at the front
/// that are empty.
pub open spec fn shown_arguments(args: Seq<Seq<char>>) -> Seq<char>
    decreases args.len(),
{
    if args.len() == 0 {
        Seq::empty()
    } else {
        let before = shown_arguments(args.drop_last());
        if before.len() == 0 {
            args.last()
        } else {
            before + ", "@ + args.last()
        }
    }
}

/// What the user is told about a command line that is about to be run.
pub fn running_text(args: &Vec<String>) -> (text: String)
    ensures
        text@ == "Running compiler: "@ + shown_arguments(crate::ipc::texts(args@)),
{
    let ghost all = crate::ipc::texts(args@);
    let mut shown = String::new();
    let mut i: usize = 0;
    assert(all.take(0) =~= Seq::empty());
    while i < args.len()
        invariant
            all == crate::ipc::texts(args@),
            i <= args@.len(),
            shown@ == shown_arguments(all.take(i as int)),
        decreases args@.len() - i,
    {
        assert(all.take(i + 1).drop_last() =~= all.take(i as int));
        if shown.as_str().unicode_len() > 0 {
            shown.append(", ");
        }
        shown.append(args[i].as_str());
        assert(shown@ =~= shown_arguments(all.take(i + 1)));
        i = i + 1;
    }
    assert(all.take(i as int) =~= all);
    let mut text = "Running compiler: ".to_owned();
    text.append(shown.as_str());
    text
}

/// Law: a compiler command line is run in the cluster if and only if one of the arguments behind the
/// command is `-c`, `-s`, `-E`, `-MD`, `-M` or `-MM`; without any of them it links, and is run
/// locally. Of the other commands, `ar` alone is run locally.
pub proof fn law_what_is_run_locally(name: Seq<char>, args: Seq<Seq<char>>)
    ensures
        name == "gcc"@ || name == "g++"@ || name == "clang"@ ==> (!runs_locally(name, args) <==> (
        exists|i: int|
            1 <= i < args.len() && (#[trigger] args[i] == "-c"@ || args[i] == "-s"@ || args[i]
                == "-E"@ || args[i] == "-MD"@ || args[i] == "-M"@ || args[i] == "-MM"@))),
        !(name == "gcc"@ || name == "g++"@ || name == "clang"@) ==> (runs_locally(name, args)
            <==> name == "ar"@),
{
    let p = |arg: Seq<char>| is_compile_option(arg);
    if exists|i: int|
        1 <= i < args.len() && (#[trigger] args[i] == "-c"@ || args[i] == "-s"@ || args[i] == "-E"@
            || args[i] == "-MD"@ || args[i] == "-M"@ || args[i] == "-MM"@) {
        let i = choose|i: int|
            1 <= i < args.len() && (#[trigger] args[i] == "-c"@ || args[i] == "-s"@ || args[i]
                == "-E"@ || args[i] == "-MD"@ || args[i] == "-M"@ || args[i] == "-MM"@);
        assert(p(args[i]));
    }
}

/// Law: the options that tell a compiler to compile, to preprocess or to generate dependencies are
/// `-c`, `-s`, `-E`, `-MD`, `-M` and `-MM`, and no others; those that generate nothing but
/// dependencies are `-M` and `-MM`; those that announce an output file are `-o` and `-MF`.
pub proof fn law_known_options(arg: Seq<char>)
    ensures
        is_compile_option(arg) ==> arg == "-c"@ || arg == "-s"@ || arg == "-E"@ || arg == "-MD"@
            || arg == "-M"@ || arg == "-MM"@,
        arg == "-c"@ || arg == "-s"@ || arg == "-E"@ || arg == "-MD"@ || arg == "-M"@ || arg
            == "-MM"@ ==> is_compile_option(arg),
        is_dependency_option(arg) <==> arg == "-M"@ || arg == "-MM"@,
        is_output_option(arg) <==> arg == "-o"@ || arg == "-MF"@,
{
}

/// Law: the commands that are known are `gcc`, `g++` and `clang`, which are compilers, `echo` and
/// `ls`, which can be run anywhere, and `ar`, which archives.
pub proof fn law_known_commands(name: Seq<char>)
    ensures
        is_compiler(name) <==> name == "gcc"@ || name == "g++"@ || name == "clang"@,
        is_plain_command(name) <==> name == "echo"@ || name == "ls"@,
        is_archiver(name) <==> name == "ar"@,
{
}

/// Law: the positions of the output files are in order, and each is that of one argument behind `-o`
/// or `-MF`, and not the first or second of the line. (The command line must have at most 65536
/// arguments.)
pub proof fn law_output_positions_in_order(args: Seq<Seq<char>>, end: int, position: int)
    requires
        end <= args.len() <= 0x1_0000,
    ensures
        ({
            let found = output_positions(args, end);
            &&& 0 <= position < 0x1_0000 ==> (found.contains(position as u16) <==> 2 <= position
                < end && (args[position - 1] == "-o"@ || args[position - 1] == "-MF"@))
            &&& forall|i: int, j: int|
                0 <= i < j < found.len() ==> #[trigger] found[i] < #[trigger] found[j]
        }),
    decreases end,
{
    if end > 2 {
        let before = output_positions(args, end - 1);
        let found = output_positions(args, end);
        law_output_positions_in_order(args, end - 1, position);
        assert forall|i: int, j: int| 0 <= i < j < found.len() implies #[trigger] found[i]
            < #[trigger] found[j] by {
            assert(before[i] == found[i]);
            law_outputs_are_arguments(args, end - 1, i);
            if j < before.len() {
                assert(before[j] == found[j]);
            }
        }
        if 0 <= position < 0x1_0000 {
            if found.contains(position as u16) {
                let i = choose|i: int| 0 <= i < found.len() && found[i] == position as u16;
                law_outputs_are_arguments(args, end, i);
            }
            if 2 <= position < end && is_output_option(args[position - 1]) {
                law_announced_files_are_outputs(args, end, position);
            }
        }
    }
}

/// Law: the task is the command line as it was given: the directory, the command, all the arguments
/// and the environment are handed on unchanged. Only a compiler has output files, and is a priority
/// task, if it is given `-M` or `-MM`.
pub proof fn law_task_is_the_command_line(
    name: Seq<char>,
    args: Seq<Seq<char>>,
    cmd: Seq<char>,
    working_dir: Seq<char>,
    env: Seq<(Seq<char>, Seq<char>)>,
)
    ensures
        ({
            let task = task_of(name, args, cmd, working_dir, env);
            let compiler = name == "gcc"@ || name == "g++"@ || name == "clang"@;
            &&& task.working_dir == working_dir
            &&& task.cmd == cmd
            &&& task.args == args
            &&& task.env == env
            &&& compiler ==> task.output_args == output_positions(args, args.len() as int)
            &&& !compiler ==> task.output_args.len() == 0
            &&& task.priority_task <==> compiler && (exists|i: int|
                1 <= i < args.len() && (#[trigger] args[i] == "-M"@ || args[i] == "-MM"@))
        }),
{
    let p = |arg: Seq<char>| is_dependency_option(arg);
    if exists|i: int| 1 <= i < args.len() && (#[trigger] args[i] == "-M"@ || args[i] == "-MM"@) {
        let i = choose|i: int|
            1 <= i < args.len() && (#[trigger] args[i] == "-M"@ || args[i] == "-MM"@);
        assert(p(args[i]));
    }
}

/// Law: a client expects output for its streams and for the files that it has, and the end of its
/// task; nothing else.
pub proof fn law_what_a_client_expects(message: Message, file_count: usize)
    ensures
        message matches Message::TaskOutput { output_type, .. } ==> (client_expects(
            message,
            file_count,
        ) <==> (output_type matches OutputType::File(index) ==> index < file_count)),
        !(message is TaskOutput) ==> (client_expects(message, file_count) <==> message is TaskFailed
            || message is TaskDone),
{
}

/// Law: an exit code is the status as it is, and a task that ended without one has a status that no
/// exit code of a successful or failed task has: it is negative. A negative status is told as -1, and
/// any other as it is.
pub proof fn law_every_status(exit_code: Option<i32>, status: i32)
    ensures
        exit_code is Some ==> task_status(exit_code) == exit_code->0,
        exit_code is None ==> task_status(exit_code) == -1,
        status >= 0 ==> exit_status(status) == status,
        status < 0 ==> exit_status(status) == -1,
{
}

/// Law: the arguments are shown with a comma and a space between them; those at the front that are
/// empty do not show.
pub proof fn law_shown_arguments(args: Seq<Seq<char>>)
    ensures
        args.len() > 0 && args[0].len() > 0 ==> shown_arguments(args) == crate::text::joined(
            args,
            ", "@,
        ),
        args.len() > 0 && args[0].len() == 0 ==> shown_arguments(args) == shown_arguments(
            args.drop_first(),
        ),
        args.len() == 0 ==> shown_arguments(args).len() == 0,
    decreases args.len(),
{
    if args.len() > 1 {
        let front = args.drop_last();
        assert(front[0] == args[0]);
        law_shown_arguments(front);
        if args[0].len() > 0 {
            lemma_joined_not_empty(front);
        } else {
            assert(args.drop_first().drop_last() =~= front.drop_first());
        }
    } else if args.len() == 1 {
        assert(shown_arguments(args.drop_last()).len() == 0);
        assert(shown_arguments(args.drop_first()).len() == 0);
        assert(args[0].len() == 0 ==> args[0] =~= Seq::empty());
    }
}

proof fn lemma_joined_not_empty(parts: Seq<Seq<char>>)
    requires
        parts.len() > 0,
        parts[0].len() > 0,
    ensures
        crate::text::joined(parts, ", "@).len() > 0,
    decreases parts.len(),
{
    if parts.len() > 1 {
        assert(parts.drop_last()[0] == parts[0]);
        lemma_joined_not_empty(parts.drop_last());
    }
}

/// Law: what the client writes to an output is what the messages for it carry, one after the other:
/// what two runs of messages have it write is what the first has, followed by what the second has,
/// and a message that is not for that output adds nothing.
pub proof fn law_what_is_written(first: Seq<Message>, second: Seq<Message>, output: OutputType)
    ensures
        written(first + second, output) == written(first, output) + written(second, output),
        first.len() == 0 ==> written(first, output).len() == 0,
        first.len() == 1 ==> match first[0] {
            Message::TaskOutput { output_type, content } => if output_type == output {
                written(first, output) == content@
            } else {
                written(first, output).len() == 0
            },
            _ => written(first, output).len() == 0,
        },
    decreases second.len(),
{
    if first.len() == 1 {
        assert(written(first.drop_last(), output) =~= Seq::<u8>::empty());
        assert(first.last() == first[0]);
    }
    if second.len() == 0 {
        assert(first + second =~= first);
    } else {
        assert((first + second).drop_last() =~= first + second.drop_last());
        assert((first + second).last() == second.last());
        law_what_is_written(first, second.drop_last(), output);
    }
}

/// Law: one more argument adds at most one output file: itself, if `-o` or `-MF` stands in front of it.
/// Positions are counted to 65535 and then from zero again.
pub proof fn law_each_argument_is_looked_at(args: Seq<Seq<char>>, end: int)
    ensures
        end < 2 ==> output_positions(args, end + 1).len() == 0,
        end >= 2 && (args[end - 1] == "-o"@ || args[end - 1] == "-MF"@) ==> {
            &&& output_positions(args, end + 1).len() == output_positions(args, end).len() + 1
            &&& output_positions(args, end + 1).drop_last() == output_positions(args, end)
            &&& (end - output_positions(args, end + 1).last()) % 0x1_0000 == 0
        },
        end >= 2 && args[end - 1] != "-o"@ && args[end - 1] != "-MF"@ ==> output_positions(
            args,
            end + 1,
        ) == output_positions(args, end),
{
    if end >= 2 && (args[end - 1] == "-o"@ || args[end - 1] == "-MF"@) {
        assert(output_positions(args, end + 1).drop_last() =~= output_positions(args, end));
    }
}

/// Law: a message carries output only if it is one of output, and then for one output only.
pub proof fn law_output_of_a_message(message: Message, one: OutputType, other: OutputType)
    ensures
        is_output(message, one) ==> message is TaskOutput && message->TaskOutput_output_type == one
            && content_of(message) == message->TaskOutput_content@,
        is_output(message, one) && is_output(message, other) ==> one == other,
        message is TaskOutput ==> is_output(message, message->TaskOutput_output_type),
        !(message is TaskOutput) ==> content_of(message).len() == 0,
{
}

} // verus!
