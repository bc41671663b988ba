use whisper_proxy::config::{parse_ini, Config};
use whisper_proxy::installer::{
    app_path_key, choose_targets, config_url, discover_potplayer, exit_code, fill_template, install_ini_step, install_step,
    is_our_binary, join_names, list_engines, looks_before_install, looks_before_uninstall, needs_write_access,
    orig_path, parse_cli, places_to_look, probe_name, registry_path, render_ini, select_engines, status_line,
    status_mark, to_command, uninstall_ini_step, uninstall_step, Cli, Command, Entry, IniStep, InstallStep, Outcome,
    Place, Refusal, RegistryView, UninstallStep, ENGINE_FILES,
};

fn strings(raw: &[&str]) -> Vec<String> {
    raw.iter().map(|s| s.to_string()).collect()
}

/// A file and its backup, and what installing and uninstalling make of them.
#[derive(Clone, PartialEq, Debug)]
struct Files {
    live: Option<Vec<u8>>,
    orig: Option<Vec<u8>>,
}

fn ours(files: &Files, proxy: &[u8]) -> bool {
    match &files.live {
        Some(bytes) => is_our_binary(bytes.len() as u64, &bytes[..bytes.len().min(1024)], proxy),
        None => false,
    }
}

fn install(files: &Files, proxy: &[u8]) -> Files {
    let mut after = files.clone();
    if install_step(files.live.is_some(), files.orig.is_some(), ours(files, proxy)) == InstallStep::BackUp {
        after.orig = files.live.clone();
    }
    after.live = Some(proxy.to_vec());
    after
}

fn uninstall(files: &Files, proxy: &[u8]) -> Files {
    if uninstall_step(files.live.is_some(), files.orig.is_some(), ours(files, proxy)) == UninstallStep::Restore {
        Files { live: files.orig.clone(), orig: None }
    } else {
        files.clone()
    }
}

#[test]
fn a_command_line_is_read() {
    let (cli, unknown) = parse_cli(&strings(&[
        "install", "--engine", "Vulkan", "--url", "http://h/v1", "--model", "m", "--api-key", "k", "--timeout", "9",
        "--potplayer-dir", "D:\\P", "--verbose", "stray",
    ]));
    assert_eq!(cli.cmd, "install");
    assert_eq!(cli.engine, "Vulkan");
    assert_eq!(cli.url, Some("http://h/v1".to_string()));
    assert_eq!(cli.model, Some("m".to_string()));
    assert_eq!(cli.api_key, Some("k".to_string()));
    assert_eq!(cli.timeout, Some("9".to_string()));
    assert_eq!(cli.potplayer_dir, Some("D:\\P".to_string()));
    assert_eq!(unknown, ["--verbose"]);
}

#[test]
fn an_option_at_the_end_has_no_value() {
    let (cli, unknown) = parse_cli(&strings(&["status", "--url", "a", "--url"]));
    assert_eq!(cli.url, None);
    assert!(unknown.is_empty());
    assert_eq!(parse_cli(&strings(&["status", "--engine"])).0.engine, "");
    assert_eq!(parse_cli(&strings(&["status"])).0.engine, "all");
    assert_eq!(parse_cli(&[]).0.cmd, "");
}

#[test]
fn an_option_swallows_what_follows() {
    let (cli, unknown) = parse_cli(&strings(&["x", "--url", "--bogus"]));
    assert_eq!(cli.url, Some("--bogus".to_string()));
    assert!(unknown.is_empty());
}

#[test]
fn an_ini_file_is_filled_in() {
    let (cli, _) = parse_cli(&strings(&["install", "--url", "http://h/v1", "--api-key", "k"]));
    assert_eq!(
        render_ini(&cli),
        "[server]\nurl = http://h/v1\nmodel = Systran/faster-whisper-large-v3\napi_key = k\ntimeout = 300\n"
    );
    assert_eq!(
        render_ini(&Cli::default()),
        "[server]\nurl = http://localhost:8000/v1\nmodel = Systran/faster-whisper-large-v3\napi_key = \ntimeout = 300\n"
    );
}

#[test]
fn any_template_can_be_filled_in() {
    let (cli, _) = parse_cli(&strings(&["install", "--timeout", "9"]));
    assert_eq!(
        fill_template("; {{TIMEOUT}} {{TIMEOUT}}\nmodel={{MODEL}} {{OTHER}}", &cli),
        "; 9 9\nmodel=Systran/faster-whisper-large-v3 {{OTHER}}"
    );
}

#[test]
fn the_proxy_goes_by_what_the_installer_is_told() {
    let (cli, _) = parse_cli(&strings(&[
        "install", "--url", "https://api.openai.com/v1", "--api-key", "{{URL}}", "--model", "whisper-1", "--timeout", "1800",
    ]));
    let mut cfg = Config::default();
    parse_ini(&render_ini(&cli), &mut cfg);
    assert_eq!(cfg.url, "https://api.openai.com/v1");
    assert_eq!(cfg.api_key, "{{URL}}");
    assert_eq!(cfg.model, "whisper-1");
    assert_eq!(cfg.timeout, 1800);
    let mut cfg = Config::default();
    parse_ini(&render_ini(&Cli::default()), &mut cfg);
    assert_eq!(cfg.url, Config::default().url);
    assert_eq!(cfg.model, Config::default().model);
    assert_eq!(cfg.timeout, 300);
}

#[test]
fn a_later_placeholder_in_a_value_is_replaced_too() {
    let (cli, _) = parse_cli(&strings(&["install", "--url", "{{MODEL}}", "--model", "m"]));
    assert!(render_ini(&cli).starts_with("[server]\nurl = m\n"));
}

#[test]
fn backups_are_named_before_the_extension() {
    assert_eq!(orig_path("main64.exe"), "main64.orig.exe");
    assert_eq!(orig_path("main.exe"), "main.orig.exe");
    assert_eq!(orig_path("README"), "README.orig");
    assert_eq!(orig_path(".hidden"), ".hidden.orig");
    assert_eq!(orig_path("a.b.c"), "a.b.orig.c");
    assert_eq!(orig_path("end."), "end.orig.");
    assert_eq!(orig_path(".."), "...orig");
    assert_eq!(orig_path(""), ".orig");
    assert_eq!(orig_path("dir/main.exe"), "main.orig.exe");
    assert_eq!(orig_path("D:\\P\\main64.exe"), "main64.orig.exe");
    assert_eq!(orig_path("c:main.exe"), "main.orig.exe");
    assert_eq!(orig_path("C:"), "C:.orig");
    for name in ["a/b.c", "a.b/", "a.b//./", "./x.y", "a/..", ".", "/", "/.x", "...", "a.b/c", ".././a.b.c/."] {
        let p = std::path::Path::new(name);
        let stem = p.file_stem().map_or(name, |s| s.to_str().unwrap());
        match p.extension() {
            Some(e) => assert_eq!(orig_path(name), format!("{stem}.orig.{}", e.to_str().unwrap())),
            None => assert_eq!(orig_path(name), format!("{stem}.orig")),
        }
    }
    for name in ENGINE_FILES {
        let p = std::path::Path::new(name);
        let stem = p.file_stem().unwrap().to_str().unwrap();
        let extension = p.extension().unwrap().to_str().unwrap();
        assert_eq!(orig_path(name), format!("{stem}.orig.{extension}"));
    }
}

#[test]
fn the_proxy_is_told_by_its_length_and_its_start() {
    let proxy: Vec<u8> = (0..3000u32).map(|i| i as u8).collect();
    assert!(is_our_binary(3000, &proxy[..1024], &proxy));
    assert!(is_our_binary(3000, &proxy[..10], &proxy));
    assert!(!is_our_binary(2999, &proxy[..1024], &proxy));
    let mut other = proxy[..1024].to_vec();
    other[1000] ^= 1;
    assert!(!is_our_binary(3000, &other, &proxy));
    assert!(!is_our_binary(2, &[1, 2, 3], &[1, 2]));
}

#[test]
fn what_stood_there_is_backed_up_once() {
    let proxy = b"proxy".to_vec();
    let before = Files { live: Some(b"engine".to_vec()), orig: None };
    let after = install(&before, &proxy);
    assert_eq!(after, Files { live: Some(proxy.clone()), orig: Some(b"engine".to_vec()) });
    assert_eq!(install(&after, &proxy), after);
}

#[test]
fn uninstalling_gives_back_what_stood_there() {
    let proxy = b"proxy".to_vec();
    let before = Files { live: Some(b"engine".to_vec()), orig: None };
    assert_eq!(uninstall(&install(&before, &proxy), &proxy), before);
}

#[test]
fn a_backup_is_never_written_over() {
    let proxy = b"proxy".to_vec();
    let before = Files { live: Some(b"newer".to_vec()), orig: Some(b"engine".to_vec()) };
    assert_eq!(install(&before, &proxy).orig, Some(b"engine".to_vec()));
}

#[test]
fn without_a_file_there_is_nothing_to_give_back() {
    let proxy = b"proxy".to_vec();
    let before = Files { live: None, orig: None };
    let after = install(&before, &proxy);
    assert_eq!(after, Files { live: Some(proxy.clone()), orig: None });
    assert_eq!(uninstall(&after, &proxy), after);
}

#[test]
fn a_changed_file_is_left_alone() {
    let files = Files { live: Some(b"changed".to_vec()), orig: Some(b"engine".to_vec()) };
    assert_eq!(uninstall(&files, b"proxy"), files);
    let missing = Files { live: None, orig: Some(b"engine".to_vec()) };
    assert_eq!(uninstall(&missing, b"proxy"), Files { live: Some(b"engine".to_vec()), orig: None });
}

#[test]
fn the_steps_say_what_is_done() {
    assert!(looks_before_install(true, false));
    assert!(!looks_before_install(true, true));
    assert!(!looks_before_install(false, false));
    assert!(install_step(true, false, true) == InstallStep::AlreadyOurs);
    assert!(install_step(false, false, false) == InstallStep::Overwrite);
    assert!(install_step(true, true, false) == InstallStep::Overwrite);
    assert!(looks_before_uninstall(true, true));
    assert!(!looks_before_uninstall(false, true));
    assert!(!looks_before_uninstall(true, false));
    assert!(uninstall_step(true, false, true) == UninstallStep::NoBackup);
    assert!(uninstall_step(true, true, false) == UninstallStep::LeaveAlone);
}

#[test]
fn an_ini_file_is_kept_and_later_removed() {
    assert!(install_ini_step(false) == IniStep::Write);
    assert!(install_ini_step(true) == IniStep::Keep);
    assert!(uninstall_ini_step(true) == IniStep::Remove);
    assert!(uninstall_ini_step(false) == IniStep::Nothing);
}

#[test]
fn the_status_of_a_file() {
    assert_eq!(status_mark(true, true), "INSTALLED (backup OK)");
    assert_eq!(status_mark(true, false), "INSTALLED (no backup!)");
    assert_eq!(status_mark(false, true), "ORIGINAL ACTIVE (backup present)");
    assert_eq!(status_mark(false, false), "ORIGINAL ACTIVE");
    assert_eq!(status_line("main64.exe", "X"), "    main64.exe     -> X");
    assert_eq!(status_line("config", "없음"), "    config         -> 없음");
    assert_eq!(status_line("a name longer than that", "X"), "    a name longer than that -> X");
}

#[test]
fn the_status_of_the_settings() {
    assert_eq!(config_url("[server]\n  URL = http://h \nurl = other\n"), "URL = http://h");
    assert_eq!(config_url("[server]\n; url = x\n"), "(url 없음)");
    assert_eq!(config_url(""), "(url 없음)");
}

#[test]
fn engines_are_directories_with_a_main_program() {
    let entry = |name: Option<&str>, is_dir, has_main, has_backup| Entry {
        name: name.map(|n| n.to_string()),
        is_dir,
        has_main,
        has_backup,
    };
    let entries = [
        entry(Some("CPU"), true, true, false),
        entry(Some("readme.txt"), false, true, true),
        entry(Some("Vulkan"), true, false, true),
        entry(Some("models"), true, false, false),
        entry(None, true, true, true),
    ];
    assert_eq!(list_engines(&entries), ["CPU", "Vulkan"]);
}

#[test]
fn engines_are_chosen_by_name_or_all() {
    let all = strings(&["CPU", "Vulkan", "vulkan"]);
    assert_eq!(select_engines("ALL", &all), Some(all.clone()));
    assert_eq!(select_engines(&Cli::default().engine, &all), Some(all.clone()));
    assert_eq!(select_engines("vulkan", &all), Some(strings(&["Vulkan", "vulkan"])));
    assert_eq!(select_engines("cuda", &all), None);
    assert_eq!(select_engines("", &all), None);
    assert_eq!(join_names(&all), "CPU, Vulkan, vulkan");
    assert_eq!(join_names(&[]), "");
}

#[test]
fn targets_or_the_reason_why_there_are_none() {
    let all = strings(&["CPU"]);
    assert!(choose_targets(false, true, "all", &all).err() == Some(Refusal::NoPlayer));
    assert!(choose_targets(true, false, "all", &all).err() == Some(Refusal::NoModule));
    assert!(choose_targets(true, true, "all", &[]).err() == Some(Refusal::NoEngines));
    assert!(choose_targets(true, true, "gpu", &all).err() == Some(Refusal::UnknownEngine));
    assert_eq!(choose_targets(true, true, "cpu", &all).ok().unwrap(), all);
}

#[test]
fn the_player_is_looked_for_in_order() {
    let places = places_to_look();
    assert_eq!(places.len(), 11);
    let programs = ["PotPlayer.exe", "PotPlayerMini.exe", "PotPlayerMini64.exe"];
    let views = [RegistryView::Wow32, RegistryView::Wow64, RegistryView::Native];
    for i in 0..9 {
        match &places[i] {
            Place::AppPath(view, exe) => {
                assert_eq!(*exe, programs[i / 3]);
                assert!(*view == views[i % 3]);
            }
            _ => unreachable!(),
        }
    }
    match &places[9] {
        Place::Directory(dir) => assert_eq!(*dir, "C:\\Program Files (x86)\\DAUM\\PotPlayer"),
        _ => unreachable!(),
    }
    match &places[10] {
        Place::Directory(dir) => assert_eq!(*dir, "C:\\Program Files\\DAUM\\PotPlayer"),
        _ => unreachable!(),
    }
    assert_eq!(discover_potplayer(&[false, true, true]), Some(1));
    assert_eq!(discover_potplayer(&[false, false]), None);
    assert_eq!(discover_potplayer(&[]), None);
}

#[test]
fn a_program_is_tried_in_every_view_before_the_next() {
    let places = places_to_look();
    let found: Vec<bool> = places
        .iter()
        .map(|p| match p {
            Place::AppPath(view, exe) => {
                (*view == RegistryView::Wow32 && *exe == "PotPlayerMini.exe")
                    || (*view == RegistryView::Wow64 && *exe == "PotPlayer.exe")
            }
            Place::Directory(_) => true,
        })
        .collect();
    match &places[discover_potplayer(&found).unwrap()] {
        Place::AppPath(view, exe) => {
            assert!(*view == RegistryView::Wow64);
            assert_eq!(*exe, "PotPlayer.exe");
        }
        _ => unreachable!(),
    }
}

#[test]
fn registry_keys_and_values() {
    assert_eq!(
        app_path_key("PotPlayer.exe"),
        "SOFTWARE\\Microsoft\\Windows\\CurrentVersion\\App Paths\\PotPlayer.exe"
    );
    assert_eq!(registry_path(" \"C:\\P\" "), "C:\\P");
    assert_eq!(registry_path("\"\"x\""), "x");
    assert_eq!(registry_path("plain"), "plain");
}

#[test]
fn the_probe_is_named_after_the_process() {
    assert_eq!(probe_name(4711), ".whisper-proxy-write-test-4711");
}

#[test]
fn commands_and_their_exit_codes() {
    assert!(to_command("detect") == Command::Detect);
    assert!(to_command("status") == Command::Status);
    assert!(to_command("install") == Command::Install);
    assert!(to_command("uninstall") == Command::Uninstall);
    assert!(to_command("Install") == Command::Unknown);
    assert!(needs_write_access(Command::Install));
    assert!(needs_write_access(Command::Uninstall));
    assert!(!needs_write_access(Command::Status));
    assert_eq!(exit_code(true, Command::Install, Outcome::Done), 2);
    assert_eq!(exit_code(false, Command::Unknown, Outcome::Done), 1);
    assert_eq!(exit_code(false, Command::Install, Outcome::NotWritable), 3);
    assert_eq!(exit_code(false, Command::Uninstall, Outcome::Failed), 4);
    assert_eq!(exit_code(false, Command::Status, Outcome::Done), 0);
    assert_eq!(exit_code(false, Command::Install, Outcome::Done), 0);
}
