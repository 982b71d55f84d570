//! The user's configuration, the server's contact file and the keys.

use crate::text::{join_path, parent_path};
use vstd::prelude::*;

verus! {

/// The file that tells the clients how to connect to the server.
pub const CONNECT_FILE: &'static str = ".spraycc_server";

/// The key of a user who has none.
pub const DEFAULT_KEY: u64 = 13;

/// A command that the user has configured.
#[derive(Debug, Clone, PartialEq, Eq)]
pub struct CmdConfig {
    /// The names of the command.
    pub command: Vec<String>,
    /// The options that are followed by the name of an output file.
    pub output_files: Option<Vec<String>>,
}

/// How executors are started and released.
#[derive(Debug, Clone, PartialEq, Eq)]
pub struct ExecConfig {
    /// Number of executors to start immediately.
    pub initial_count: usize,
    /// Maximum number of executors to start if there are enough tasks.
    pub max_count: usize,
    /// Number of executors pending as the count climbs towards the maximum.
    pub keep_pending: usize,
    /// Seconds without a new task after which idle executors are released.
    pub release_delay: u64,
    /// Seconds without activity after which the server shuts down.
    pub idle_shutdown_after: u64,
    /// Command to use to start executors.
    pub start_cmd: String,
    /// Alternate start command.
    pub alt_start_cmd: Option<String>,
}

impl ExecConfig {
    /// True of the configuration of a user who has configured nothing.
    pub open spec fn is_default(&self) -> bool {
        &&& self.initial_count == 5
        &&& self.max_count == 1000
        &&& self.keep_pending == 5
        &&& self.release_delay == 30
        &&& self.idle_shutdown_after == 60
        &&& self.start_cmd@ == "spraycc"@
        &&& self.alt_start_cmd is None
    }
}

impl Default for ExecConfig {
    /// The configuration of a user who has configured nothing.
    fn default() -> (config: ExecConfig)
        ensures
            config.is_default(),
    {
        ExecConfig {
            initial_count: 5,
            max_count: 1000,
            keep_pending: 5,
            release_delay: 30,
            idle_shutdown_after: 60,
            start_cmd: "spraycc".to_owned(),
            alt_start_cmd: None,
        }
    }
}

/// The configuration to use, given the one in the current directory and the one in the home
/// directory, as far as there are any.
pub fn load_config_file(local: Option<ExecConfig>, home: Option<ExecConfig>) -> (config: ExecConfig)
    ensures
        match (local, home) {
            (Some(found), _) => config == found,
            (None, Some(found)) => config == found,
            (None, None) => config.is_default(),
        },
{
    match local {
        Some(found) => found,
        None => match home {
            Some(found) => found,
            None => ExecConfig::default(),
        },
    }
}

/// Names the contact file, which is to be deleted when the server exits.
#[derive(Debug)]
pub struct ServerConfigCleanup {
    file: String,
}

impl View for ServerConfigCleanup {
    type V = Seq<char>;

    closed spec fn view(&self) -> Seq<char> {
        self.file@
    }
}

impl ServerConfigCleanup {
    /// Remembers the file to delete.
    pub fn new(file_to_delete: String) -> (cleanup: ServerConfigCleanup)
        ensures
            cleanup@ == file_to_delete@,
    {
        ServerConfigCleanup { file: file_to_delete }
    }

    /// The file to delete.
    pub fn file(&self) -> (file: &str)
        ensures
            file@ == self@,
    {
        self.file.as_str()
    }
}

/// Where the contact file may be, seen from a directory: in it, or in a directory above it, the
/// nearest first.
pub open spec fn contact_files(dir: Seq<char>) -> Seq<Seq<char>>
    decreases dir.len(),
{
    let here = crate::text::path_join(dir, CONNECT_FILE@);
    match crate::text::parent_of(dir) {
        Some(parent) => {
            proof {
                crate::text::law_parent_is_shorter(dir);
            }
            seq![here] + contact_files(parent)
        },
        None => seq![here],
    }
}

/// The files to look for to read the server's contact information: the one in the given
/// directory first, then those in the directories above it. The first one that exists counts.
/// What is above a relative directory ends with the current directory.
pub fn read_server_contact_info(dir: &str) -> (files: Vec<String>)
    ensures
        crate::ipc::texts(files@) == contact_files(dir@),
{
    let mut files: Vec<String> = Vec::new();
    let mut current = dir.to_owned();
    assert(crate::ipc::texts(files@) =~= Seq::empty());
    loop
        invariant
            contact_files(dir@) == crate::ipc::texts(files@) + contact_files(current@),
        decreases current@.len(),
    {
        let ghost seen = files@;
        files.push(join_path(current.as_str(), CONNECT_FILE));
        assert(crate::ipc::texts(files@) =~= crate::ipc::texts(seen).push(
            crate::text::path_join(current@, CONNECT_FILE@),
        ));
        match parent_path(current.as_str()) {
            Some(parent) => {
                proof {
                    crate::text::law_parent_is_shorter(current@);
                }
                assert(contact_files(dir@) =~= crate::ipc::texts(files@) + contact_files(parent@));
                current = parent;
            },
            None => {
                assert(contact_files(dir@) =~= crate::ipc::texts(files@));
                return files;
            },
        }
    }
}

/// Law: the contact file in the directory itself comes before any other.
pub proof fn law_own_directory_first(dir: Seq<char>)
    ensures
        contact_files(dir).len() > 0,
        contact_files(dir)[0] == crate::text::path_join(dir, CONNECT_FILE@),
{
}

/// Law: what is found from a directory other than the root is the file in it, or else what is
/// found from the directory above it.
pub proof fn law_then_the_parent(dir: Seq<char>)
    requires
        crate::text::parent_of(dir) is Some,
    ensures
        contact_files(dir).drop_first() == contact_files(crate::text::parent_of(dir)->0),
{
    assert(contact_files(dir).drop_first() =~= contact_files(crate::text::parent_of(dir)->0));
}

/// Law: from any absolute directory the search goes up to the root.
pub proof fn law_search_ends_at_the_root(dir: Seq<char>)
    requires
        dir.len() > 0,
        dir[0] == '/',
        crate::text::parent_of(dir) is None ==> dir == seq!['/'],
    ensures
        contact_files(dir).len() > 0,
        contact_files(dir).last() == crate::text::path_join(seq!['/'], CONNECT_FILE@),
    decreases dir.len(),
{
    match crate::text::parent_of(dir) {
        Some(parent) => {
            crate::text::law_parent_is_shorter(dir);
            let short = crate::text::trimmed(dir);
            let front = short.take(crate::text::after_last_slash(short) as int);
            crate::text::law_trimmed(front);
            law_search_ends_at_the_root(parent);
            assert(contact_files(dir).last() == contact_files(parent).last());
        },
        None => {},
    }
}

/// Law: from any relative directory the search goes up to the current directory.
pub proof fn law_search_ends_in_the_current_directory(dir: Seq<char>)
    requires
        dir.len() > 0 ==> dir[0] != '/',
    ensures
        contact_files(dir).len() > 0,
        contact_files(dir).last() == crate::text::path_join(Seq::empty(), CONNECT_FILE@),
    decreases dir.len(),
{
    crate::text::law_trimmed(dir);
    match crate::text::parent_of(dir) {
        Some(parent) => {
            crate::text::law_parent_is_shorter(dir);
            law_search_ends_in_the_current_directory(parent);
            assert(contact_files(dir).last() == contact_files(parent).last());
        },
        None => {
            assert(dir =~= Seq::empty());
        },
    }
}

/// What became of reading the file with the user's private key.
#[derive(Debug, PartialEq, Eq)]
pub enum KeyFile {
    /// The user has no home directory.
    NoHome,
    /// The file holds this key.
    Key(u64),
    /// There is no such file.
    Missing,
    /// The file cannot be read or does not hold a key.
    Unreadable,
}

/// What to do about the user's private key.
#[derive(Debug, PartialEq, Eq)]
pub enum KeyStep {
    /// Use this key.
    Use(u64),
    /// Create a key, and use what `created_key` says.
    Create,
}

/// What to do about the user's private key.
pub open spec fn key_step(create_if_not_present: bool, file: KeyFile) -> KeyStep {
    match file {
        KeyFile::Key(key) => KeyStep::Use(key),
        KeyFile::Missing if create_if_not_present => KeyStep::Create,
        _ => KeyStep::Use(DEFAULT_KEY),
    }
}

/// Decides on the user's private key: the one in the file counts. If there is no file, one is
/// created if that is asked for.
pub fn load_user_private_key(create_if_not_present: bool, file: KeyFile) -> (step: KeyStep)
    ensures
        step == key_step(create_if_not_present, file),
{
    match file {
        KeyFile::Key(key) => KeyStep::Use(key),
        KeyFile::Missing => if create_if_not_present {
            KeyStep::Create
        } else {
            KeyStep::Use(DEFAULT_KEY)
        },
        KeyFile::NoHome => KeyStep::Use(DEFAULT_KEY),
        KeyFile::Unreadable => KeyStep::Use(DEFAULT_KEY),
    }
}

/// The key to use after creating one, given the key that was written, if it could be written.
pub fn created_key(written: Option<u64>) -> (key: u64)
    ensures
        key == (match written {
            Some(key) => key,
            None => DEFAULT_KEY,
        }),
{
    match written {
        Some(key) => key,
        None => DEFAULT_KEY,
    }
}

/// `rand::random`: nothing is claimed of the number.
#[verifier::external_body]
fn random_number() -> (number: u64) {
    rand::random::<u64>()
}

/// The private key that is made of a random number. It fits the signed numbers of a TOML file.
pub fn key_from_random(number: u64) -> (key: u64)
    ensures
        key == number / 2,
        key <= i64::MAX,
{
    assert(number >> 1 == number / 2) by (bit_vector);
    number >> 1
}

/// A new private key.
pub fn new_user_private_key() -> (key: u64)
    ensures
        key <= i64::MAX,
{
    key_from_random(random_number())
}

/// The access code that is made of a random number. It fits the signed numbers of a TOML file,
/// and its last bit is free to tell the second queue from the first.
pub fn access_code_from_random(number: u64) -> (code: u64)
    ensures
        code == number / 4 * 2,
        code % 2 == 0,
        code <= i64::MAX,
{
    assert((number >> 1) & !1u64 == number / 4 * 2) by (bit_vector);
    (number >> 1) & !1u64
}

/// A new access code.
pub fn new_access_code() -> (code: u64)
    ensures
        code % 2 == 0,
        code <= i64::MAX,
{
    access_code_from_random(random_number())
}

/// The number of open files below which parallelism may be limited.
pub const WANTED_FILES: usize = 2048;

/// The number of open files to which the limit is raised.
pub const RAISED_FILES: usize = 4096;

/// What to do about the limit on open files.
#[derive(Debug, PartialEq, Eq)]
pub enum FileLimit {
    /// The limit is high enough.
    Enough,
    /// The hard limit is too low; the user is warned.
    HardLimitTooLow,
    /// The soft limit is to be raised to this number.
    Raise(usize),
}

/// What to do about the limit on open files.
pub open spec fn file_limit(soft_limit: usize, hard_limit: usize) -> FileLimit {
    if hard_limit < WANTED_FILES {
        FileLimit::HardLimitTooLow
    } else if soft_limit < WANTED_FILES {
        FileLimit::Raise(
            if hard_limit < RAISED_FILES {
                hard_limit
            } else {
                RAISED_FILES
            },
        )
    } else {
        FileLimit::Enough
    }
}

/// Decides on the limit on open files. The server needs one per executor, one per client and two
/// per pending executor.
pub fn setup_process_file_limit(soft_limit: usize, hard_limit: usize) -> (plan: FileLimit)
    ensures
        plan == file_limit(soft_limit, hard_limit),
{
    if hard_limit < WANTED_FILES {
        FileLimit::HardLimitTooLow
    } else if soft_limit < WANTED_FILES {
        if hard_limit < RAISED_FILES {
            FileLimit::Raise(hard_limit)
        } else {
            FileLimit::Raise(RAISED_FILES)
        }
    } else {
        FileLimit::Enough
    }
}

/// Law: the contact file is looked for under the name `.spraycc_server`, in the directory itself first,
/// and nowhere else if there is no directory above it.
pub proof fn law_name_of_the_contact_file(dir: Seq<char>)
    ensures
        contact_files(dir).len() > 0,
        contact_files(dir)[0] == crate::text::path_join(dir, ".spraycc_server"@),
        crate::text::parent_of(dir) is None ==> contact_files(dir).len() == 1,
{
}

/// Law: a user who has configured nothing starts with five executors, which climb to at most 1000,
/// five of them pending. They are released after half a minute, and the server shuts down after a
/// minute.
pub proof fn law_default_configuration(config: ExecConfig)
    ensures
        config.is_default() <==> {
            &&& config.initial_count == 5
            &&& config.max_count == 1000
            &&& config.keep_pending == 5
            &&& config.release_delay == 30
            &&& config.idle_shutdown_after == 60
            &&& config.start_cmd@ == "spraycc"@
            &&& config.alt_start_cmd is None
        },
{
}

/// Law: the key in the file counts, whether one is to be created or not. One is created only where it
/// is asked for and there is no file; in all other cases everybody has the same key, 13.
pub proof fn law_which_key_is_used(create: bool, file: KeyFile, key: u64)
    ensures
        key_step(create, KeyFile::Key(key)) == KeyStep::Use(key),
        key_step(create, file) is Create <==> create && file is Missing,
        !(file is Key) && !(create && file is Missing) ==> key_step(create, file) == KeyStep::Use(
            13,
        ),
{
}

/// Law: the limit on open files is never lowered, nor raised over the hard limit or over 4096, and it is
/// raised as far as that allows. It stays as it is from 2048 on, and cannot be raised under a hard
/// limit below that.
pub proof fn law_how_far_the_limit_is_raised(soft_limit: usize, hard_limit: usize)
    ensures
        file_limit(soft_limit, hard_limit) is HardLimitTooLow <==> hard_limit < 2048,
        file_limit(soft_limit, hard_limit) is Enough <==> hard_limit >= 2048 && soft_limit >= 2048,
        file_limit(soft_limit, hard_limit) matches FileLimit::Raise(limit) ==> {
            &&& limit > soft_limit
            &&& limit <= hard_limit
            &&& limit <= 4096
            &&& limit == hard_limit || limit == 4096
        },
{
}

} // verus!
