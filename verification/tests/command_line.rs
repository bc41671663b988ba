use whisper_proxy::args::{opt_takes_value, parse_args, Args};
use whisper_proxy::launch::{
    debug_log_path, debug_wanted, exit_byte, ipc_log_path, ipc_name, log_dir, pipe_path, to_wide, try_again,
    wants_help,
};

fn strings(raw: &[&str]) -> Vec<String> {
    raw.iter().map(|s| s.to_string()).collect()
}

fn parsed(raw: &[&str], existing: &[&str]) -> Args {
    let there: Vec<bool> = raw.iter().map(|a| existing.contains(a)).collect();
    parse_args(&strings(raw), &there)
}

#[test]
fn nothing_asks_for_help() {
    let a = parsed(&[], &[]);
    assert!(a.files.is_empty());
    assert!(wants_help(&a));
    assert!(wants_help(&parsed(&["-f", "x.wav", "--help"], &[])));
    assert!(!wants_help(&parsed(&["-f", "x.wav"], &[])));
}

#[test]
fn the_options_that_are_heeded() {
    let a = parsed(
        &[
            "-f", "a.wav", "--file", "b.mp3", "-l", "ko", "-of", "out", "-otxt", "-osrt", "-ovtt", "-oj", "-ojf",
            "-olrc", "-ocsv", "-tr", "-nt", "-np", "-ot", "-1500", "--prompt", "hello",
        ],
        &[],
    );
    assert_eq!(a.files, ["a.wav", "b.mp3"]);
    assert_eq!(a.language, Some("ko".to_string()));
    assert_eq!(a.output_prefix, Some("out".to_string()));
    assert!(a.out_txt && a.out_srt && a.out_vtt && a.out_json && a.out_json_full && a.out_lrc && a.out_csv);
    assert!(a.translate && a.no_timestamps && a.no_prints);
    assert_eq!(a.offset_ms, -1500);
    assert_eq!(a.prompt, Some("hello".to_string()));
    assert!(!a.help);
}

#[test]
fn the_long_names_of_the_flags() {
    let a = parsed(
        &[
            "--output-txt", "--output-srt", "--output-vtt", "--output-json", "--output-json-full", "--output-lrc",
            "--output-csv", "--translate", "--no-timestamps", "--no-prints", "--language", "en", "--output-file", "p",
            "--offset-t", "20",
        ],
        &[],
    );
    assert!(a.out_txt && a.out_srt && a.out_vtt && a.out_json && a.out_json_full && a.out_lrc && a.out_csv);
    assert!(a.translate && a.no_timestamps && a.no_prints);
    assert_eq!(a.language, Some("en".to_string()));
    assert_eq!(a.output_prefix, Some("p".to_string()));
    assert_eq!(a.offset_ms, 20);
}

#[test]
fn an_offset_that_cannot_be_read_is_zero() {
    assert_eq!(parsed(&["-ot", "5", "-ot", "x"], &[]).offset_ms, 0);
}

#[test]
fn an_unheeded_option_takes_its_value_with_it() {
    let a = parsed(&["-t", "8", "-m", "model.bin", "-pp", "a.wav"], &["8", "model.bin", "a.wav"]);
    assert_eq!(a.files, ["a.wav"]);
    assert!(parsed(&["-t"], &[]).files.is_empty());
}

#[test]
fn a_plain_argument_is_a_file_if_it_exists() {
    assert_eq!(parsed(&["there.wav", "missing.wav"], &["there.wav"]).files, ["there.wav"]);
}

#[test]
fn an_option_without_its_value_is_nothing() {
    let a = parsed(&["-f", "a.wav", "-l"], &[]);
    assert_eq!(a.language, None);
    assert_eq!(a.files, ["a.wav"]);
    assert!(parsed(&["-f"], &[]).files.is_empty());
}

#[test]
fn an_option_may_be_the_value_of_another() {
    assert_eq!(parsed(&["-f", "-l", "ko"], &[]).files, ["-l"]);
}

#[test]
fn the_options_that_take_a_value() {
    for opt in ["-t", "--threads", "-f", "-l", "--prompt", "-vo", "--vad-samples-overlap", "--grammar-penalty", "-dtw"] {
        assert!(opt_takes_value(opt), "{opt}");
    }
    for opt in ["-h", "-otxt", "-nt", "-IPC", "", "-T", "--thread"] {
        assert!(!opt_takes_value(opt), "{opt}");
    }
}

#[test]
fn the_pipe_is_named_behind_ipc() {
    assert_eq!(ipc_name(&strings(&["-IPC", "Whisper12"])), Some("Whisper12"));
    assert_eq!(ipc_name(&strings(&["-x", "-IPC", "-IPC", "b"])), Some("-IPC"));
    assert_eq!(ipc_name(&strings(&["x", "-IPC"])), None);
    assert_eq!(ipc_name(&strings(&["-ipc", "a"])), None);
    assert_eq!(ipc_name(&[]), None);
    assert_eq!(pipe_path("Whisper12"), "\\\\.\\pipe\\Whisper12");
}

#[test]
fn the_pipe_is_tried_fifty_times() {
    assert!(try_again(0));
    assert!(try_again(49));
    assert!(!try_again(50));
}

#[test]
fn the_spellings_of_an_option_are_one() {
    for (short, long) in [("-f", "--file"), ("-of", "--output-file"), ("-ot", "--offset-t"), ("-l", "--language")] {
        let a = parsed(&[short, "7", "-f", "x"], &[]);
        let b = parsed(&[long, "7", "-f", "x"], &[]);
        assert_eq!(a.files, b.files);
        assert_eq!(a.output_prefix, b.output_prefix);
        assert_eq!(a.offset_ms, b.offset_ms);
        assert_eq!(a.language, b.language);
    }
}

#[test]
fn more_arguments_only_add() {
    let short = parsed(&["-f", "a.wav", "-otxt", "-f"], &[]);
    let long = parsed(&["-f", "a.wav", "-otxt", "-f", "b.wav", "-osrt"], &[]);
    assert_eq!(short.files, ["a.wav"]);
    assert_eq!(long.files, ["a.wav", "b.wav"]);
    assert!(short.out_txt && long.out_txt && long.out_srt);
}

#[test]
fn exit_codes_are_cut_to_a_byte() {
    assert_eq!(exit_byte(-1), 0);
    assert_eq!(exit_byte(44), 44);
    assert_eq!(exit_byte(255), 255);
    assert_eq!(exit_byte(256), 255);
}

#[test]
fn logging_is_asked_for_by_setting_or_marker() {
    assert!(debug_wanted(Some("1"), false));
    assert!(debug_wanted(Some("no"), false));
    assert!(!debug_wanted(Some("0"), false));
    assert!(!debug_wanted(Some(""), false));
    assert!(!debug_wanted(None, false));
    assert!(debug_wanted(Some("0"), true));
}

#[test]
fn logs_go_to_the_first_directory_there_is() {
    assert_eq!(log_dir(Some("a"), Some("b"), Some("c"), "d"), "a");
    assert_eq!(log_dir(None, Some("b"), Some("c"), "d"), "b");
    assert_eq!(log_dir(None, None, Some("c"), "d"), "c");
    assert_eq!(log_dir(None, None, None, "d"), "d");
    assert_eq!(ipc_log_path(None, Some("b"), None, "."), ("b", "whisper-proxy-ipc.log"));
    assert_eq!(debug_log_path(true, Some("a"), None, None, "."), Some(("a", "whisper-proxy.log")));
    assert_eq!(debug_log_path(false, Some("a"), None, None, "."), None);
}

#[test]
fn wide_text_is_utf_16_with_a_zero_behind_it() {
    for s in ["", "\\\\.\\pipe\\Whisper1", "한국어", "\u{1f600}x\u{10ffff}\u{ffff}\u{10000}"] {
        let mut expected: Vec<u16> = s.encode_utf16().collect();
        expected.push(0);
        assert_eq!(to_wide(s), expected);
    }
    assert_ne!(to_wide("a"), to_wide("b"));
}
