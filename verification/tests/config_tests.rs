use spraycc::config::{
    access_code_from_random, created_key, key_from_random, load_config_file,
    load_user_private_key, new_access_code, new_user_private_key, read_server_contact_info,
    setup_process_file_limit, ExecConfig, FileLimit, KeyFile, KeyStep, ServerConfigCleanup,
    CONNECT_FILE,
};
use spraycc::ipc::CallMe;
use std::io::{Read, Write};
use std::path::Path;

fn found_from(dir: &str) -> Option<String> {
    read_server_contact_info(dir).into_iter().find(|file| Path::new(file).exists())
}

#[test]
fn config_read_write_callme() {
    let config = CallMe { addr: "192.168.5.6:1234".to_string(), access_code: 6789 };

    let top = tempfile::TempDir::new().unwrap();
    let root = top.path().canonicalize().unwrap().to_string_lossy().to_string();
    let nested = tempfile::TempDir::new_in(&root).unwrap();
    let below = nested.path().canonicalize().unwrap().to_string_lossy().to_string();

    {
        let mut file = tempfile::Builder::new()
            .prefix(CONNECT_FILE)
            .rand_bytes(0)
            .tempfile_in(&root)
            .unwrap();
        let mut table = toml::map::Map::new();
        table.insert("addr".to_string(), toml::Value::String(config.addr.clone()));
        table.insert("access_code".to_string(), toml::Value::Integer(config.access_code as i64));
        let text = toml::to_string(&toml::Value::Table(table)).unwrap();
        file.write_all(text.as_bytes()).unwrap();

        let path = format!("{}/.spraycc_server", root);
        assert_eq!(found_from(&root), Some(path.clone()));
        // The file is found from a directory below as well.
        assert_eq!(found_from(&below), Some(path));

        let mut read = String::new();
        file.reopen().unwrap().read_to_string(&mut read).unwrap();
        let value: toml::Value = toml::from_str(&read).unwrap();
        let c2 = CallMe {
            addr: value["addr"].as_str().unwrap().to_string(),
            access_code: value["access_code"].as_integer().unwrap() as u64,
        };
        assert_eq!(c2.addr, config.addr);
        assert_eq!(c2.access_code, config.access_code);
    }

    assert!(found_from(&root).is_none());
}

#[test]
fn the_search_goes_up_to_the_root() {
    assert_eq!(
        read_server_contact_info("/home/me/src"),
        vec![
            "/home/me/src/.spraycc_server",
            "/home/me/.spraycc_server",
            "/home/.spraycc_server",
            "/.spraycc_server",
        ]
    );
    assert_eq!(read_server_contact_info("/"), vec!["/.spraycc_server"]);
    // From a relative directory it goes up to the current directory.
    assert_eq!(
        read_server_contact_info("a/b"),
        vec!["a/b/.spraycc_server", "a/.spraycc_server", ".spraycc_server"]
    );
    assert_eq!(read_server_contact_info("."), vec!["./.spraycc_server", ".spraycc_server"]);
    assert_eq!(read_server_contact_info(""), vec![".spraycc_server"]);
}

#[test]
fn the_file_to_clean_up_is_remembered() {
    let cleanup = ServerConfigCleanup::new(CONNECT_FILE.to_string());
    assert_eq!(cleanup.file(), ".spraycc_server");
}

#[test]
fn defaults_of_the_configuration() {
    let config = ExecConfig::default();
    assert_eq!(config.initial_count, 5);
    assert_eq!(config.max_count, 1000);
    assert_eq!(config.keep_pending, 5);
    assert_eq!(config.release_delay, 30);
    assert_eq!(config.idle_shutdown_after, 60);
    assert_eq!(config.start_cmd, "spraycc");
    assert_eq!(config.alt_start_cmd, None);
}

#[test]
fn the_local_configuration_counts_first() {
    let config = |count: usize| Some(ExecConfig { max_count: count, ..ExecConfig::default() });
    assert_eq!(load_config_file(config(1), config(2)).max_count, 1);
    assert_eq!(load_config_file(None, config(2)).max_count, 2);
    assert_eq!(load_config_file(config(1), None).max_count, 1);
    assert_eq!(load_config_file(None, None), ExecConfig::default());
}

#[test]
fn keys_are_read_or_created() {
    for create in [false, true] {
        assert_eq!(load_user_private_key(create, KeyFile::Key(77)), KeyStep::Use(77));
        assert_eq!(load_user_private_key(create, KeyFile::NoHome), KeyStep::Use(13));
        assert_eq!(load_user_private_key(create, KeyFile::Unreadable), KeyStep::Use(13));
    }
    assert_eq!(load_user_private_key(true, KeyFile::Missing), KeyStep::Create);
    assert_eq!(load_user_private_key(false, KeyFile::Missing), KeyStep::Use(13));
    assert_eq!(created_key(Some(5)), 5);
    assert_eq!(created_key(None), 13);
}

#[test]
fn keys_and_codes_fit_a_toml_file() {
    assert_eq!(key_from_random(u64::MAX), i64::MAX as u64);
    assert_eq!(key_from_random(7), 3);
    assert_eq!(access_code_from_random(u64::MAX), i64::MAX as u64 - 1);
    assert_eq!(access_code_from_random(7), 2);
    assert_eq!(access_code_from_random(5), 2);
    assert_eq!(access_code_from_random(3), 0);
}

#[test]
fn random_numbers_differ() {
    let keys: Vec<u64> = (0..8).map(|_| new_user_private_key()).collect();
    let codes: Vec<u64> = (0..8).map(|_| new_access_code()).collect();
    assert!(keys.iter().all(|key| *key <= i64::MAX as u64));
    assert!(codes.iter().all(|code| code % 2 == 0 && *code <= i64::MAX as u64));
    assert!(keys.iter().any(|key| *key != keys[0]));
    assert!(codes.iter().any(|code| *code != codes[0]));
}

#[test]
fn the_file_limit_is_raised_if_it_can_be() {
    assert_eq!(setup_process_file_limit(1024, 2047), FileLimit::HardLimitTooLow);
    assert_eq!(setup_process_file_limit(1024, 2048), FileLimit::Raise(2048));
    assert_eq!(setup_process_file_limit(1024, 4095), FileLimit::Raise(4095));
    assert_eq!(setup_process_file_limit(2047, 1_000_000), FileLimit::Raise(4096));
    assert_eq!(setup_process_file_limit(2048, 1_000_000), FileLimit::Enough);
}
