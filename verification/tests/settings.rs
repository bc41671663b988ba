use whisper_proxy::config::{load, parse_ini, Config, Environment};

fn nothing_set() -> Environment {
    Environment { url: None, api_key: None, model: None, timeout: None }
}

fn read(text: &str) -> Config {
    let mut cfg = Config::default();
    parse_ini(text, &mut cfg);
    cfg
}

fn without_marks(text: &str) -> Config {
    let mut cfg = Config::default();
    whisper_proxy::batch::parse_ini(text, &mut cfg);
    cfg
}

#[test]
fn defaults() {
    let cfg = Config::default();
    assert_eq!(cfg.url, "http://localhost:8000/v1");
    assert_eq!(cfg.api_key, "");
    assert_eq!(cfg.model, "Systran/faster-whisper-large-v3");
    assert_eq!(cfg.timeout, 120);
}

#[test]
fn the_server_section_is_read() {
    let cfg = read("; comment\n# too\n\n[Server]\r\n URL =  http://h:1/v1 \r\nApi_Key=k=1\nmodel = m\ntimeout = 1800\n");
    assert_eq!(cfg.url, "http://h:1/v1");
    assert_eq!(cfg.api_key, "k=1");
    assert_eq!(cfg.model, "m");
    assert_eq!(cfg.timeout, 1800);
}

#[test]
fn other_sections_and_lines_are_passed_over() {
    let cfg = read("url = early\n[client]\nurl = other\n[server]\nnonsense\ncolour = red\n[client]\nmodel = late\n");
    assert_eq!(cfg.url, "http://localhost:8000/v1");
    assert_eq!(cfg.model, "Systran/faster-whisper-large-v3");
}

#[test]
fn the_last_of_two_values_stands() {
    assert_eq!(read("[server]\nurl = a\nurl = b\n").url, "b");
    assert_eq!(read("[server]\nurl = a\nurl =\n").url, "");
}

#[test]
fn a_timeout_that_cannot_be_read_changes_nothing() {
    assert_eq!(read("[server]\ntimeout = soon\n").timeout, 120);
    assert_eq!(read("[server]\ntimeout = -1\n").timeout, 120);
    assert_eq!(read("[server]\ntimeout = +9\n").timeout, 9);
}

#[test]
fn a_byte_order_mark_is_passed_over() {
    let text = "\u{feff}[server]\n\u{feff}url = x\n";
    assert_eq!(read(text).url, "x");
    assert_eq!(without_marks(text).url, "http://localhost:8000/v1");
    assert_eq!(without_marks("[server]\nurl = x\n").url, "x");
}

#[test]
fn a_written_value_is_read() {
    for v in ["http://127.0.0.1:18000/v1", "", "a = b", "한국어"] {
        assert_eq!(read(&format!("[server]\nurl = {v}")).url, v);
    }
}

#[test]
fn the_environment_stands_over_the_file() {
    let env = Environment {
        url: Some("e".to_string()),
        api_key: None,
        model: Some("".to_string()),
        timeout: Some("7".to_string()),
    };
    let cfg = load(Some("[server]\nurl = f\napi_key = k\nmodel = m\ntimeout = 5"), env);
    assert_eq!(cfg.url, "e");
    assert_eq!(cfg.api_key, "k");
    assert_eq!(cfg.model, "");
    assert_eq!(cfg.timeout, 7);
}

#[test]
fn an_environment_timeout_that_cannot_be_read_changes_nothing() {
    let env = Environment { timeout: Some("never".to_string()), ..nothing_set() };
    assert_eq!(load(Some("[server]\ntimeout = 5"), env).timeout, 5);
}

#[test]
fn without_a_file_the_defaults_stand() {
    let cfg = load(None, nothing_set());
    assert_eq!(cfg.url, "http://localhost:8000/v1");
    assert_eq!(cfg.timeout, 120);
}

#[test]
fn file_mode_loads_without_regard_to_marks() {
    let text = "\u{feff}[server]\nurl = x";
    assert_eq!(whisper_proxy::batch::load_config(Some(text), nothing_set()).url, "http://localhost:8000/v1");
    assert_eq!(load(Some(text), nothing_set()).url, "x");
}

#[test]
fn reading_a_file_twice_is_reading_it_once() {
    for text in ["[server]\nurl = a\ntimeout = x\n", "[server]\ntimeout = 5\nurl = b\nurl = c\n", "model = z", ""] {
        let once = read(text);
        let mut twice = read(text);
        parse_ini(text, &mut twice);
        assert_eq!((&once.url, &once.model, once.timeout), (&twice.url, &twice.model, twice.timeout));
    }
}

#[test]
fn the_readers_agree_on_a_text_without_marks() {
    let text = "[server]\r\n url = a \nmodel = m\n";
    assert_eq!(read(text).url, without_marks(text).url);
    assert_eq!(read(text).model, without_marks(text).model);
}
