use spraycc::task::{generate_unique_file, hostname, redirect_outputs, Task};
use tempdir::TempDir;

fn words(line: &[&str]) -> Vec<String> {
    line.iter().map(|s| s.to_string()).collect()
}

#[test]
fn task_unique_paths() {
    let pipe_path;

    {
        let pipe_dir = TempDir::new("spraycc").unwrap();
        pipe_path = pipe_dir.path().to_path_buf();
        let dir = pipe_dir.path().to_string_lossy().to_string();

        println!("Temporary directory is: {:?}", pipe_dir.path());
        let mut taken_names: Vec<String> = Vec::new();

        let path = generate_unique_file(&dir, &mut taken_names, "notunique");
        let path2 = generate_unique_file(&dir, &mut taken_names, "notunique");
        assert_ne!(path, path2);
        let path3 = generate_unique_file(&dir, &mut taken_names, "unique");
        assert_ne!(path, path3);
    }
    assert!(!pipe_path.exists(), "Temporary directory {:?} was not deleted", pipe_path);
}

#[test]
fn names_get_numbers_when_taken() {
    let mut taken = Vec::new();
    assert_eq!(generate_unique_file("/tmp/x", &mut taken, "out/a.o"), "/tmp/x/a.o");
    assert_eq!(generate_unique_file("/tmp/x", &mut taken, "a.o"), "/tmp/x/a.o.1");
    assert_eq!(generate_unique_file("/tmp/x", &mut taken, "b/a.o/"), "/tmp/x/a.o.2");
    assert_eq!(taken, words(&["a.o", "a.o.1", "a.o.2"]));

    // A number that is taken is passed over, and a gap is filled.
    let mut taken = words(&["a", "a.2", "a.1"]);
    assert_eq!(generate_unique_file("/t", &mut taken, "a"), "/t/a.3");
    let mut taken = words(&["a", "a.2"]);
    assert_eq!(generate_unique_file("/t", &mut taken, "a"), "/t/a.1");
    assert_eq!(generate_unique_file("/t", &mut taken, "a"), "/t/a.3");
}

#[test]
fn many_files_of_one_name() {
    let mut taken = Vec::new();
    for i in 0..25 {
        let expected = if i == 0 { "/t/a".to_string() } else { format!("/t/a.{}", i) };
        assert_eq!(generate_unique_file("/t", &mut taken, "a"), expected);
    }
}

#[test]
fn outputs_without_a_name() {
    let mut taken = Vec::new();
    assert_eq!(generate_unique_file("/t", &mut taken, ".."), "/t/unknown");
    assert_eq!(generate_unique_file("/t", &mut taken, "/"), "/t/unknown.1");
    assert_eq!(generate_unique_file("/t/", &mut taken, ""), "/t/unknown.2");
}

#[test]
fn outputs_are_redirected() {
    let mut args = words(&["g++", "-c", "-MF", "x/a.o", "-o", "y/a.o", "a.cpp"]);
    let files = redirect_outputs(&mut args, &vec![3, 5], "/tmp/dir");
    assert_eq!(files, words(&["/tmp/dir/a.o", "/tmp/dir/a.o.1"]));
    assert_eq!(args, words(&["g++", "-c", "-MF", "/tmp/dir/a.o", "-o", "/tmp/dir/a.o.1", "a.cpp"]));

    // Without outputs nothing changes.
    let mut args = words(&["ls", "-l"]);
    assert!(redirect_outputs(&mut args, &vec![], "/tmp/dir").is_empty());
    assert_eq!(args, words(&["ls", "-l"]));

    // An output that is named twice is redirected twice.
    let mut args = words(&["cc", "a.o"]);
    let files = redirect_outputs(&mut args, &vec![1, 1], "/d");
    assert_eq!(files, words(&["/d/a.o", "/d/a.o.1"]));
    assert_eq!(args, words(&["cc", "/d/a.o.1"]));
}

#[test]
fn a_task_starts_where_everything_exists() {
    let start = |cwd_exists, cmd_exists| {
        Task::start(
            "/work",
            cwd_exists,
            "/usr/bin/gcc",
            cmd_exists,
            "node7",
            words(&["gcc", "-c", "a.c", "-o", "obj/a.o"]),
            &vec![4],
            "/tmp/d",
        )
    };
    let task = start(true, true).unwrap();
    assert_eq!(task.args, words(&["gcc", "-c", "a.c", "-o", "/tmp/d/a.o"]));
    assert_eq!(task.output_files, words(&["/tmp/d/a.o"]));
    assert_eq!(
        start(false, true).unwrap_err(),
        "Execution directory /work does not exist on host node7"
    );
    assert_eq!(
        start(false, false).unwrap_err(),
        "Execution directory /work does not exist on host node7"
    );
    assert_eq!(start(true, false).unwrap_err(), "Command /usr/bin/gcc does not exist on host node7");
}

#[test]
fn hosts_without_a_name() {
    assert_eq!(hostname(Some("node7".to_string())), "node7");
    assert_eq!(hostname(None), "unknown");
}
