//! Tasks as they are run: where their output files go.
//!
//! A task writes its output files into a directory of its own, from where their contents are sent
//! back.

use crate::text::{file_name, join_path, push_decimal, same_text};
use vstd::prelude::*;
use vstd::set_lib::*;

verus! {

/// The name that the file of an output is based on.
pub open spec fn base_name(output_name: Seq<char>) -> Seq<char> {
    match crate::text::file_name_of(output_name) {
        Some(name) => name,
        None => "unknown"@,
    }
}

/// The names that a file can get: its base name, and then the base name with a number behind it.
pub open spec fn candidate(base: Seq<char>, number: nat) -> Seq<char> {
    if number == 0 {
        base
    } else {
        base + "."@ + crate::text::decimal(number)
    }
}

/// True if the candidate with that number is the first one that is not taken.
pub open spec fn is_first_free(taken: Seq<Seq<char>>, base: Seq<char>, number: nat) -> bool {
    &&& !taken.contains(candidate(base, number))
    &&& forall|lower: nat| lower < number ==> taken.contains(#[trigger] candidate(base, lower))
}

/// The first name based on the base name that is not taken.
pub open spec fn unique_name(taken: Seq<Seq<char>>, base: Seq<char>) -> Seq<char> {
    candidate(base, choose|number: nat| is_first_free(taken, base, number))
}

/// A task whose outputs are being redirected.
pub struct Redirection {
    /// The arguments of the task.
    pub args: Seq<Seq<char>>,
    /// The names of the files that its outputs go to.
    pub names: Seq<Seq<char>>,
    /// The paths of these files.
    pub files: Seq<Seq<char>>,
}

/// What becomes of the arguments of a task when its outputs are redirected, one after the other.
pub open spec fn redirected(
    args: Seq<Seq<char>>,
    output_args: Seq<u16>,
    output_dir: Seq<char>,
) -> Redirection
    decreases output_args.len(),
{
    if output_args.len() == 0 {
        Redirection { args, names: Seq::empty(), files: Seq::empty() }
    } else {
        let before = redirected(args, output_args.drop_last(), output_dir);
        let index = output_args.last() as int;
        let name = unique_name(before.names, base_name(before.args[index]));
        let file = crate::text::path_join(output_dir, name);
        Redirection {
            args: before.args.update(index, file),
            names: before.names.push(name),
            files: before.files.push(file),
        }
    }
}

proof fn lemma_decimal_injective(a: nat, b: nat)
    ensures
        crate::text::decimal(a) == crate::text::decimal(b) ==> a == b,
    decreases a,
{
    let x = crate::text::decimal(a);
    let y = crate::text::decimal(b);
    if x == y {
        assert(x.last() == crate::text::digit_char(a % 10));
        assert(y.last() == crate::text::digit_char(b % 10));
        assert(a % 10 == b % 10);
        if a >= 10 && b >= 10 {
            assert(x.drop_last() =~= crate::text::decimal(a / 10));
            assert(y.drop_last() =~= crate::text::decimal(b / 10));
            lemma_decimal_injective(a / 10, b / 10);
        } else if a >= 10 {
            lemma_decimal_not_empty(a / 10);
        } else if b >= 10 {
            lemma_decimal_not_empty(b / 10);
        }
    }
}

proof fn lemma_decimal_not_empty(n: nat)
    ensures
        crate::text::decimal(n).len() > 0,
{
}

proof fn lemma_candidates_differ(base: Seq<char>, a: nat, b: nat)
    ensures
        candidate(base, a) == candidate(base, b) ==> a == b,
{
    reveal_strlit(".");
    let stem = base + "."@;
    if candidate(base, a) == candidate(base, b) {
        if a > 0 && b > 0 {
            assert((stem + crate::text::decimal(a)).skip(stem.len() as int)
                =~= crate::text::decimal(a));
            assert((stem + crate::text::decimal(b)).skip(stem.len() as int)
                =~= crate::text::decimal(b));
            lemma_decimal_injective(a, b);
        }
    }
}

/// As long as all candidates so far are taken, there are no more of them than taken names.
proof fn lemma_some_candidate_is_free(taken: Seq<Seq<char>>, base: Seq<char>, number: nat)
    requires
        forall|lower: nat| lower < number ==> taken.contains(#[trigger] candidate(base, lower)),
    ensures
        number <= taken.len(),
{
    let tried = Seq::new(number, |i: int| candidate(base, i as nat));
    assert(tried.no_duplicates()) by {
        assert forall|i: int, j: int| 0 <= i < j < tried.len() implies tried[i] != tried[j] by {
            lemma_candidates_differ(base, i as nat, j as nat);
        }
    }
    tried.unique_seq_to_set();
    taken.lemma_cardinality_of_set();
    assert(tried.to_set().subset_of(taken.to_set())) by {
        assert forall|name: Seq<char>| tried.to_set().contains(name) implies taken.to_set().contains(
            name,
        ) by {
            let i = choose|i: int| 0 <= i < tried.len() && tried[i] == name;
            assert(taken.contains(candidate(base, i as nat)));
        }
    }
    lemma_len_subset(tried.to_set(), taken.to_set());
}

/// Law: the number that is put behind a taken name is the least that makes it free.
pub proof fn law_least_free_number(taken: Seq<Seq<char>>, base: Seq<char>, number: nat)
    requires
        is_first_free(taken, base, number),
    ensures
        unique_name(taken, base) == candidate(base, number),
{
    let other = choose|other: nat| is_first_free(taken, base, other);
    if other < number {
        assert(taken.contains(candidate(base, other)));
    } else if number < other {
        assert(taken.contains(candidate(base, number)));
    }
}

fn contains_text(names: &Vec<String>, name: &str) -> (contains: bool)
    ensures
        contains == crate::ipc::texts(names@).contains(name@),
{
    let mut i: usize = 0;
    while i < names.len()
        invariant
            i <= names@.len(),
            forall|k: int| 0 <= k < i ==> crate::ipc::texts(names@)[k] != name@,
        decreases names@.len() - i,
    {
        assert(crate::ipc::texts(names@)[i as int] == names@[i as int]@);
        if same_text(names[i].as_str(), name) {
            return true;
        }
        i = i + 1;
    }
    false
}

/// The path of a file with a name that is not taken, in the given directory. The name is that of
/// the output, with a number behind it if need be, and is then taken.
pub fn generate_unique_file(
    output_dir: &str,
    taken_names: &mut Vec<String>,
    output_name: &str,
) -> (path: String)
    ensures
        path@ == crate::text::path_join(
            output_dir@,
            unique_name(crate::ipc::texts(old(taken_names)@), base_name(output_name@)),
        ),
        crate::ipc::texts(final(taken_names)@) == crate::ipc::texts(old(taken_names)@).push(
            unique_name(crate::ipc::texts(old(taken_names)@), base_name(output_name@)),
        ),
{
    let base: String = match file_name(output_name) {
        Some(name) => name,
        None => "unknown".to_owned(),
    };
    let ghost taken = crate::ipc::texts(taken_names@);
    let mut name: String = base.clone();
    let mut number: usize = 0;
    while contains_text(taken_names, name.as_str())
        invariant
            taken == crate::ipc::texts(taken_names@),
            taken_names@ == old(taken_names)@,
            name@ == candidate(base@, number as nat),
            forall|lower: nat|
                lower < number ==> taken.contains(#[trigger] candidate(base@, lower)),
        decreases taken.len() - number,
    {
        proof {
            lemma_some_candidate_is_free(taken, base@, (number + 1) as nat);
        }
        assert(taken.len() == taken_names.len());
        number = number + 1;
        name = base.clone();
        name.append(".");
        push_decimal(&mut name, number as u64);
    }
    proof {
        law_least_free_number(taken, base@, number as nat);
    }
    let path = join_path(output_dir, name.as_str());
    taken_names.push(name);
    assert(crate::ipc::texts(taken_names@) =~= taken.push(name@));
    path
}

/// True if each index of an output is that of an argument.
pub open spec fn outputs_in_range(args: Seq<Seq<char>>, output_args: Seq<u16>) -> bool {
    forall|i: int| 0 <= i < output_args.len() ==> #[trigger] output_args[i] < args.len()
}

/// Replaces the names of the output files among the arguments with paths of files in the given
/// directory, which differ from each other. Returns these paths, one for each output.
pub fn redirect_outputs(args: &mut Vec<String>, output_args: &Vec<u16>, output_dir: &str) -> (files:
    Vec<String>)
    requires
        outputs_in_range(crate::ipc::texts(old(args)@), output_args@),
    ensures
        crate::ipc::texts(final(args)@) == redirected(
            crate::ipc::texts(old(args)@),
            output_args@,
            output_dir@,
        ).args,
        crate::ipc::texts(files@) == redirected(
            crate::ipc::texts(old(args)@),
            output_args@,
            output_dir@,
        ).files,
{
    let ghost before = crate::ipc::texts(args@);
    let mut files: Vec<String> = Vec::new();
    let mut taken_names: Vec<String> = Vec::new();
    let mut i: usize = 0;
    assert(output_args@.take(0) =~= Seq::empty());
    assert(crate::ipc::texts(taken_names@) =~= Seq::empty());
    while i < output_args.len()
        invariant
            i <= output_args@.len(),
            before == crate::ipc::texts(old(args)@),
            outputs_in_range(before, output_args@),
            args@.len() == before.len(),
            crate::ipc::texts(args@) == redirected(
                before,
                output_args@.take(i as int),
                output_dir@,
            ).args,
            crate::ipc::texts(taken_names@) == redirected(
                before,
                output_args@.take(i as int),
                output_dir@,
            ).names,
            crate::ipc::texts(files@) == redirected(
                before,
                output_args@.take(i as int),
                output_dir@,
            ).files,
        decreases output_args@.len() - i,
    {
        let ghost done = crate::ipc::texts(args@);
        let ghost sent = crate::ipc::texts(files@);
        assert(output_args@.take(i + 1).drop_last() =~= output_args@.take(i as int));
        assert(output_args@[i as int] < before.len());
        let index: usize = output_args[i] as usize;
        assert(done[index as int] == args@[index as int]@);
        let path = generate_unique_file(output_dir, &mut taken_names, args[index].as_str());
        args.set(index, path.clone());
        assert(crate::ipc::texts(args@) =~= done.update(index as int, path@));
        files.push(path);
        assert(crate::ipc::texts(files@) =~= sent.push(path@));
        i = i + 1;
    }
    assert(output_args@.take(i as int) =~= output_args@);
    files
}

/// A task that can be started: its arguments and the files that it generates.
#[derive(Debug, PartialEq, Eq)]
pub struct Task {
    /// The arguments, with the names of the output files replaced. The first is the command as it
    /// was typed, which is not passed to the process as an argument.
    pub args: Vec<String>,
    /// One file for each output, to be read when the task is done.
    pub output_files: Vec<String>,
}

impl Task {
    /// Prepares a task to be run in a directory, unless that or the command does not exist on
    /// this host. Its outputs are redirected into `output_dir`.
    pub fn start(
        cwd: &str,
        cwd_exists: bool,
        cmd: &str,
        cmd_exists: bool,
        host: &str,
        args: Vec<String>,
        output_args: &Vec<u16>,
        output_dir: &str,
    ) -> (outcome: Result<Task, String>)
        requires
            cwd_exists && cmd_exists ==> outputs_in_range(
                crate::ipc::texts(args@),
                output_args@,
            ),
        ensures
            if !cwd_exists {
                outcome matches Err(message) && message@ == "Execution directory "@ + cwd@
                    + " does not exist on host "@ + host@
            } else if !cmd_exists {
                outcome matches Err(message) && message@ == "Command "@ + cmd@
                    + " does not exist on host "@ + host@
            } else {
                let after = redirected(crate::ipc::texts(args@), output_args@, output_dir@);
                &&& outcome matches Ok(task)
                &&& crate::ipc::texts(task.args@) == after.args
                &&& crate::ipc::texts(task.output_files@) == after.files
            },
    {
        if !cwd_exists {
            let mut message = "Execution directory ".to_owned();
            message.append(cwd);
            message.append(" does not exist on host ");
            message.append(host);
            Err(message)
        } else if !cmd_exists {
            let mut message = "Command ".to_owned();
            message.append(cmd);
            message.append(" does not exist on host ");
            message.append(host);
            Err(message)
        } else {
            let mut args = args;
            let output_files = redirect_outputs(&mut args, output_args, output_dir);
            Ok(Task { args, output_files })
        }
    }
}

/// The name of this host, which is unknown if it has none that is valid text.
pub fn hostname(name: Option<String>) -> (host: String)
    ensures
        host@ == match name {
            Some(name) => name@,
            None => "unknown"@,
        },
{
    match name {
        Some(name) => name,
        None => "unknown".to_owned(),
    }
}

/// Law: a name that is handed out was not taken, whatever is taken and whatever is asked for. It is
/// the name that is asked for, or that with the least free number behind it.
pub proof fn law_names_are_new(taken: Seq<Seq<char>>, base: Seq<char>)
    ensures
        !taken.contains(unique_name(taken, base)),
        exists|number: nat| #[trigger]
            is_first_free(taken, base, number) && unique_name(taken, base) == candidate(
                base,
                number,
            ),
{
    lemma_exists_free(taken, base, 0);
    let number = choose|number: nat| is_first_free(taken, base, number);
    law_least_free_number(taken, base, number);
}

proof fn lemma_exists_free(taken: Seq<Seq<char>>, base: Seq<char>, number: nat)
    requires
        forall|lower: nat| lower < number ==> taken.contains(#[trigger] candidate(base, lower)),
    ensures
        exists|free: nat| is_first_free(taken, base, free),
    decreases taken.len() + 1 - number,
{
    if taken.contains(candidate(base, number)) {
        lemma_some_candidate_is_free(taken, base, number + 1);
        lemma_exists_free(taken, base, number + 1);
    } else {
        assert(is_first_free(taken, base, number));
    }
}

/// Law: a name that is free is kept as it is.
pub proof fn law_free_names_are_kept(taken: Seq<Seq<char>>, base: Seq<char>)
    requires
        !taken.contains(base),
    ensures
        unique_name(taken, base) == base,
{
    assert(is_first_free(taken, base, 0));
    law_least_free_number(taken, base, 0);
}

/// Law: there is one file for each output, and no two outputs go to the same file.
pub proof fn law_output_files_differ(
    args: Seq<Seq<char>>,
    output_args: Seq<u16>,
    output_dir: Seq<char>,
)
    ensures
        redirected(args, output_args, output_dir).files.len() == output_args.len(),
        redirected(args, output_args, output_dir).files.no_duplicates(),
    decreases output_args.len(),
{
    lemma_files_are_below(args, output_args, output_dir);
    let after = redirected(args, output_args, output_dir);
    if output_args.len() > 0 {
        let before = redirected(args, output_args.drop_last(), output_dir);
        law_output_files_differ(args, output_args.drop_last(), output_dir);
        let name = after.names.last();
        law_names_are_new(before.names, base_name(before.args[output_args.last() as int]));
        assert forall|i: int, j: int| 0 <= i < j < after.files.len() implies after.files[i]
            != after.files[j] by {
            if j == after.files.len() - 1 {
                assert(before.names[i] == after.names[i]);
                assert(before.names.contains(after.names[i]));
                assert(after.names[i] != name);
                lemma_join_injective(output_dir, after.names[i], name);
            } else {
                assert(before.files[i] == after.files[i]);
                assert(before.files[j] == after.files[j]);
            }
        }
    }
}

proof fn lemma_join_injective(dir: Seq<char>, a: Seq<char>, b: Seq<char>)
    requires
        is_plain_name(a),
        is_plain_name(b),
    ensures
        crate::text::path_join(dir, a) == crate::text::path_join(dir, b) ==> a == b,
{
    let x = crate::text::path_join(dir, a);
    let y = crate::text::path_join(dir, b);
    if x == y {
        assert(x.len() - a.len() == y.len() - b.len());
        assert(x.skip(x.len() - a.len()) =~= a);
        assert(y.skip(y.len() - b.len()) =~= b);
    }
}

/// True of a name that leads to no other directory.
pub open spec fn is_plain_name(name: Seq<char>) -> bool {
    name.len() > 0 && forall|i: int| 0 <= i < name.len() ==> name[i] != '/'
}

proof fn lemma_base_is_plain(output_name: Seq<char>)
    ensures
        is_plain_name(base_name(output_name)),
    decreases output_name.len(),
{
    let start = crate::text::after_last_slash(output_name);
    crate::text::law_after_last_slash(output_name);
    let last = output_name.skip(start as int);
    reveal_strlit("unknown");
    if last.len() == 0 || last == seq!['.'] {
        if 0 < start <= output_name.len() {
            lemma_base_is_plain(output_name.take(start - 1));
        }
    }
}

proof fn lemma_decimal_is_plain(n: nat)
    ensures
        is_plain_name(crate::text::decimal(n)),
    decreases n,
{
    if n >= 10 {
        lemma_decimal_is_plain(n / 10);
        let rest = crate::text::decimal(n / 10);
        let all = crate::text::decimal(n);
        assert forall|i: int| 0 <= i < all.len() implies all[i] != '/' by {
            if i < rest.len() {
                assert(all[i] == rest[i]);
            }
        }
    }
}

proof fn lemma_candidate_is_plain(base: Seq<char>, number: nat)
    requires
        is_plain_name(base),
    ensures
        is_plain_name(candidate(base, number)),
{
    if number > 0 {
        reveal_strlit(".");
        lemma_decimal_is_plain(number);
        let stem = base + "."@;
        let digits = crate::text::decimal(number);
        let all = candidate(base, number);
        assert forall|i: int| 0 <= i < all.len() implies all[i] != '/' by {
            if i < base.len() {
                assert(all[i] == base[i]);
            } else if i >= stem.len() {
                assert(all[i] == digits[i - stem.len()]);
            } else {
                assert(all[i] == '.');
            }
        }
    }
}

proof fn lemma_files_are_below(
    args: Seq<Seq<char>>,
    output_args: Seq<u16>,
    output_dir: Seq<char>,
)
    ensures
        redirected(args, output_args, output_dir).names.len() == output_args.len(),
        redirected(args, output_args, output_dir).files.len() == output_args.len(),
        forall|i: int|
            0 <= i < output_args.len() ==> is_plain_name(
                #[trigger] redirected(args, output_args, output_dir).names[i],
            ),
        forall|i: int|
            0 <= i < output_args.len() ==> #[trigger] redirected(
                args,
                output_args,
                output_dir,
            ).files[i] == crate::text::path_join(
                output_dir,
                redirected(args, output_args, output_dir).names[i],
            ),
    decreases output_args.len(),
{
    if output_args.len() > 0 {
        lemma_files_are_below(args, output_args.drop_last(), output_dir);
        let before = redirected(args, output_args.drop_last(), output_dir);
        let after = redirected(args, output_args, output_dir);
        let base = base_name(before.args[output_args.last() as int]);
        lemma_base_is_plain(before.args[output_args.last() as int]);
        let number = choose|number: nat| is_first_free(before.names, base, number);
        lemma_candidate_is_plain(base, number);
        assert forall|i: int| 0 <= i < output_args.len() implies is_plain_name(
            #[trigger] after.names[i],
        ) && after.files[i] == crate::text::path_join(output_dir, after.names[i]) by {
            if i < output_args.len() - 1 {
                assert(after.names[i] == before.names[i]);
                assert(after.files[i] == before.files[i]);
            }
        }
    }
}

/// Law: every output file stands directly in the directory that it was redirected to, whatever
/// directory the task was asked to write it to.
pub proof fn law_output_files_are_in_the_directory(
    args: Seq<Seq<char>>,
    output_args: Seq<u16>,
    output_dir: Seq<char>,
    i: int,
)
    requires
        0 <= i < output_args.len(),
    ensures
        exists|name: Seq<char>|
            is_plain_name(name) && redirected(args, output_args, output_dir).files[i]
                == #[trigger] crate::text::path_join(output_dir, name),
{
    lemma_files_are_below(args, output_args, output_dir);
    let after = redirected(args, output_args, output_dir);
    assert(is_plain_name(after.names[i]));
    assert(after.files[i] == crate::text::path_join(output_dir, after.names[i]));
}

/// Law: the arguments that are no outputs stay as they are, and the last output that an argument
/// stands for takes its place.
#[verifier::spinoff_prover]
#[verifier::rlimit(40)]
pub proof fn law_only_outputs_are_replaced(
    args: Seq<Seq<char>>,
    output_args: Seq<u16>,
    output_dir: Seq<char>,
)
    requires
        outputs_in_range(args, output_args),
    ensures
        redirected(args, output_args, output_dir).args.len() == args.len(),
        forall|k: int|
            0 <= k < args.len() && (forall|i: int|
                0 <= i < output_args.len() ==> output_args[i] != k) ==> #[trigger] redirected(
                args,
                output_args,
                output_dir,
            ).args[k] == args[k],
        forall|i: int|
            0 <= i < output_args.len() && (forall|j: int|
                i < j < output_args.len() ==> output_args[j] != output_args[i]) ==> redirected(
                args,
                output_args,
                output_dir,
            ).args[#[trigger] output_args[i] as int] == redirected(
                args,
                output_args,
                output_dir,
            ).files[i],
    decreases output_args.len(),
{
    lemma_files_are_below(args, output_args, output_dir);
    if output_args.len() > 0 {
        let fewer = output_args.drop_last();
        let before = redirected(args, fewer, output_dir);
        let after = redirected(args, output_args, output_dir);
        assert(outputs_in_range(args, fewer)) by {
            assert forall|i: int| 0 <= i < fewer.len() implies #[trigger] fewer[i]
                < args.len() by {
                assert(fewer[i] == output_args[i]);
            }
        }
        law_only_outputs_are_replaced(args, fewer, output_dir);
        let last = output_args.len() - 1;
        assert(output_args[last] < args.len());
        assert forall|k: int|
            0 <= k < args.len() && (forall|i: int|
                0 <= i < output_args.len() ==> output_args[i] != k) implies #[trigger] after.args[k]
            == args[k] by {
            assert(output_args[last] != k);
            assert forall|i: int| 0 <= i < fewer.len() implies fewer[i] != k by {
                assert(fewer[i] == output_args[i]);
            }
            assert(before.args[k] == args[k]);
        }
        assert forall|i: int|
            0 <= i < output_args.len() && (forall|j: int|
                i < j < output_args.len() ==> output_args[j] != output_args[i]) implies after.args[
        #[trigger] output_args[i] as int] == after.files[i] by {
            assert(output_args[i] < args.len());
            if i < last {
                assert(output_args[last] != output_args[i]);
                assert(fewer[i] == output_args[i]);
                assert forall|j: int| i < j < fewer.len() implies fewer[j] != fewer[i] by {
                    assert(fewer[j] == output_args[j]);
                }
                assert(before.args[fewer[i] as int] == before.files[i]);
                assert(after.files[i] == before.files[i]);
            }
        }
    }
}

/// Law: the file of an output is named after it, whatever its directory, and an output without a name
/// is called `unknown`.
pub proof fn law_files_are_named_after_outputs(output_name: Seq<char>)
    ensures
        crate::text::file_name_of(output_name) is Some ==> base_name(output_name)
            == crate::text::file_name_of(output_name)->0,
        crate::text::file_name_of(output_name) is None ==> base_name(output_name) == "unknown"@,
{
}

/// Law: the names that a file can get are its base name alone, for the number zero, and for any other
/// number the base name, a dot and the number.
pub proof fn law_numbers_stand_behind_a_dot(base: Seq<char>, number: nat)
    ensures
        candidate(base, 0) == base,
        number > 0 ==> ({
            let name = candidate(base, number);
            &&& name.len() > base.len() + 1
            &&& name.take(base.len() as int) == base
            &&& name[base.len() as int] == '.'
            &&& crate::text::number_of(name.skip(base.len() + 1int)) == number
            &&& name[base.len() + 1int] != '0'
        }),
{
    if number > 0 {
        reveal_strlit(".");
        let name = candidate(base, number);
        let digits = crate::text::decimal(number);
        crate::text::law_decimal_reads_back(number);
        assert(name.take(base.len() as int) =~= base);
        assert(name.skip(base.len() + 1int) =~= digits);
        assert(name[base.len() + 1int] == digits[0]);
        if digits[0] == '0' {
            assert(digits =~= seq!['0']);
            assert(crate::text::number_of(digits.drop_last()) == 0);
        }
    }
}

/// Law: a name that is taken gets a number behind it, the least with which it is free: that with each
/// lower number is taken, and the name without one.
pub proof fn law_taken_names_are_numbered(taken: Seq<Seq<char>>, base: Seq<char>, number: nat)
    requires
        number > 0,
        taken.contains(base),
        forall|lower: nat|
            0 < lower < number ==> taken.contains(
                base + seq!['.'] + #[trigger] crate::text::decimal(lower),
            ),
        !taken.contains(base + seq!['.'] + crate::text::decimal(number)),
    ensures
        unique_name(taken, base) == base + seq!['.'] + crate::text::decimal(number),
{
    reveal_strlit(".");
    assert("."@ =~= seq!['.']);
    assert forall|lower: nat| lower < number implies taken.contains(
        #[trigger] candidate(base, lower),
    ) by {
        if lower > 0 {
            assert(taken.contains(base + seq!['.'] + crate::text::decimal(lower)));
        }
    }
    assert(is_first_free(taken, base, number));
    law_least_free_number(taken, base, number);
}

proof fn lemma_redirected_front(
    args: Seq<Seq<char>>,
    output_args: Seq<u16>,
    output_dir: Seq<char>,
    i: int,
)
    requires
        0 <= i <= output_args.len(),
    ensures
        redirected(args, output_args.take(i), output_dir).names == redirected(
            args,
            output_args,
            output_dir,
        ).names.take(i),
        redirected(args, output_args, output_dir).names.len() == output_args.len(),
    decreases output_args.len(),
{
    lemma_files_are_below(args, output_args, output_dir);
    let after = redirected(args, output_args, output_dir);
    if i == output_args.len() {
        assert(output_args.take(i) =~= output_args);
        assert(after.names.take(i) =~= after.names);
    } else {
        let fewer = output_args.drop_last();
        let before = redirected(args, fewer, output_dir);
        lemma_redirected_front(args, fewer, output_dir, i);
        assert(output_args.take(i) =~= fewer.take(i));
        assert(after.names.take(i) =~= before.names.take(i));
    }
}

/// Law: an output goes to a file in the given directory that is named after what the task called it,
/// with a number behind it only where the file of an earlier output has that name.
pub proof fn law_outputs_keep_their_names(
    args: Seq<Seq<char>>,
    output_args: Seq<u16>,
    output_dir: Seq<char>,
    i: int,
)
    requires
        outputs_in_range(args, output_args),
        0 <= i < output_args.len(),
        forall|j: int| 0 <= j < i ==> #[trigger] output_args[j] != output_args[i],
    ensures
        ({
            let after = redirected(args, output_args, output_dir);
            let base = base_name(args[output_args[i] as int]);
            &&& after.names.len() == output_args.len()
            &&& after.files[i] == crate::text::path_join(output_dir, after.names[i])
            &&& !after.names.take(i).contains(base) ==> after.names[i] == base
            &&& after.names.take(i).contains(base) ==> exists|number: nat|
                number > 0 && after.names[i] == base + seq!['.'] + #[trigger] crate::text::decimal(
                    number,
                )
            &&& !after.names.take(i).contains(after.names[i])
        }),
{
    reveal_strlit(".");
    assert("."@ =~= seq!['.']);
    let after = redirected(args, output_args, output_dir);
    let base = base_name(args[output_args[i] as int]);
    let earlier = output_args.take(i);
    let before = redirected(args, earlier, output_dir);
    let reached = output_args.take(i + 1);
    lemma_files_are_below(args, output_args, output_dir);
    lemma_redirected_front(args, output_args, output_dir, i);
    lemma_redirected_front(args, output_args, output_dir, i + 1);
    assert(reached.drop_last() =~= earlier);
    assert(reached.last() == output_args[i]);
    assert(outputs_in_range(args, earlier)) by {
        assert forall|j: int| 0 <= j < earlier.len() implies #[trigger] earlier[j]
            < args.len() by {
            assert(earlier[j] == output_args[j]);
        }
    }
    law_only_outputs_are_replaced(args, earlier, output_dir);
    assert forall|j: int| 0 <= j < earlier.len() implies earlier[j] != output_args[i] by {
        assert(earlier[j] == output_args[j]);
    }
    assert(output_args[i] < args.len());
    assert(before.args[output_args[i] as int] == args[output_args[i] as int]);
    let name = unique_name(before.names, base);
    assert(after.names.take(i + 1)[i] == after.names[i]);
    assert(redirected(args, reached, output_dir).names.last() == name);
    assert(after.names[i] == name);
    law_names_are_new(before.names, base);
    if before.names.contains(base) {
        let number = choose|number: nat| #[trigger]
            is_first_free(before.names, base, number) && unique_name(before.names, base)
                == candidate(base, number);
        assert(number > 0);
        assert(name == base + seq!['.'] + crate::text::decimal(number));
    } else {
        law_free_names_are_kept(before.names, base);
    }
}

} // verus!
