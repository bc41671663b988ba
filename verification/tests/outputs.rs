use whisper_proxy::args::Args;
use whisper_proxy::output::{
    arrange_outputs, console_output, fmt_ts, lrc_minutes, render_outputs, Listing, OutputFile, TimedSegment,
};

fn segments() -> Vec<TimedSegment> {
    vec![
        TimedSegment {
            start_ms: 0,
            end_ms: 1500,
            start_whole_ms: 0,
            end_whole_ms: 1499,
            start_s: 0,
            lrc_seconds: "00.00".to_string(),
            text: " Hello, \"world\" ".to_string(),
        },
        TimedSegment {
            start_ms: 61_235,
            end_ms: 3_600_000,
            start_whole_ms: 61_234,
            end_whole_ms: 3_600_000,
            start_s: 61,
            lrc_seconds: "01.23".to_string(),
            text: "안녕".to_string(),
        },
    ]
}

fn names(files: &[OutputFile]) -> Vec<&str> {
    files.iter().map(|f| f.path.as_str()).collect()
}

fn all_formats() -> Args {
    Args {
        output_prefix: Some("p".to_string()),
        out_txt: true,
        out_srt: true,
        out_vtt: true,
        out_json: true,
        out_lrc: true,
        out_csv: true,
        ..Args::default()
    }
}

#[test]
fn timestamps() {
    assert_eq!(fmt_ts(0, true), "00:00:00,000");
    assert_eq!(fmt_ts(3_723_004, false), "01:02:03.004");
    assert_eq!(fmt_ts(360_000_000, true), "100:00:00,000");
    assert_eq!(fmt_ts(i64::MAX, false), "2562047788015:12:55.807");
}

#[test]
fn a_time_before_zero_shows_as_zero() {
    assert_eq!(fmt_ts(-1, true), fmt_ts(0, true));
    assert_eq!(fmt_ts(i64::MIN, false), "00:00:00.000");
}

#[test]
fn a_timestamp_names_its_time() {
    for ms in [0i64, 999, 59_999, 60_000, 3_599_999, 86_400_000, 123_456_789] {
        let t = fmt_ts(ms, true);
        let n = t.len();
        let part = |a: usize, b: usize| t[a..b].parse::<i64>().unwrap();
        assert_eq!(
            ((part(0, n - 10) * 60 + part(n - 9, n - 7)) * 60 + part(n - 6, n - 4)) * 1000 + part(n - 3, n),
            ms
        );
    }
}

#[test]
fn the_console_shows_segments() {
    let args = Args::default();
    assert_eq!(
        console_output(&args, &segments()),
        "[00:00:00.000 --> 00:00:01.500]  Hello, \"world\"\n[00:01:01.235 --> 01:00:00.000]  안녕\n"
    );
    let bare = Args { no_timestamps: true, ..Args::default() };
    assert_eq!(console_output(&bare, &segments()), "Hello, \"world\"\n안녕\n");
    let silent = Args { no_prints: true, ..Args::default() };
    assert_eq!(console_output(&silent, &segments()), "");
}

#[test]
fn srt() {
    assert_eq!(
        Listing::Srt.render(&segments()),
        "1\n00:00:00,000 --> 00:00:01,500\nHello, \"world\"\n\n2\n00:01:01,235 --> 01:00:00,000\n안녕\n\n"
    );
    assert_eq!(Listing::Srt.render(&[]), "");
}

#[test]
fn vtt() {
    assert_eq!(
        Listing::Vtt.render(&segments()),
        "WEBVTT\n\n00:00:00.000 --> 00:00:01.500\nHello, \"world\"\n\n00:01:01.235 --> 01:00:00.000\n안녕\n\n"
    );
}

#[test]
fn lrc() {
    assert_eq!(Listing::Lrc.render(&segments()), "[00:00.00]Hello, \"world\"\n[01:01.23]안녕\n");
}

#[test]
fn minutes_are_cut_towards_zero() {
    for s in [0i64, 59, 60, 61, -1, -60, -119, i64::MAX, i64::MIN] {
        assert_eq!(lrc_minutes(s), s / 60);
    }
}

#[test]
fn csv_doubles_quotes() {
    assert_eq!(
        Listing::Csv.render(&segments()),
        "start,end,text\n0,1499,\" Hello, \"\"world\"\" \"\n61234,3600000,\"안녕\"\n"
    );
}

#[test]
fn quoted_text_is_read_back() {
    let line = Listing::Csv.render(&segments()[..1]);
    let field = line.lines().nth(1).unwrap().strip_prefix("0,1499,\"").unwrap().strip_suffix('"').unwrap();
    assert_eq!(field.replace("\"\"", "\""), " Hello, \"world\" ");
}

#[test]
fn every_format_has_its_file_in_order() {
    let r = render_outputs(&all_formats(), &segments(), "full text", "ko");
    assert_eq!(names(&r.files), ["p.txt", "p.srt", "p.vtt", "p.json", "p.lrc", "p.csv"]);
    assert_eq!(r.failure, None);
    assert_eq!(r.files[0].contents, "full text");
    assert_eq!(r.files[1].contents, Listing::Srt.render(&segments()));
    assert_eq!(r.files[2].contents, Listing::Vtt.render(&segments()));
    assert_eq!(r.files[4].contents, Listing::Lrc.render(&segments()));
    assert_eq!(r.files[5].contents, Listing::Csv.render(&segments()));
}

#[test]
fn the_json_document() {
    let args = Args { output_prefix: Some("p".to_string()), out_json_full: true, translate: true, ..Args::default() };
    let r = render_outputs(&args, &segments()[1..], "", "ko");
    assert_eq!(names(&r.files), ["p.json"]);
    let expected = r#"{
  "model": {
    "type": "remote"
  },
  "params": {
    "language": "ko",
    "translate": true
  },
  "result": {
    "language": "ko"
  },
  "systeminfo": "whisper-proxy-rs",
  "transcription": [
    {
      "offsets": {
        "from": 61234,
        "to": 3600000
      },
      "text": "안녕",
      "timestamps": {
        "from": "00:01:01,235",
        "to": "01:00:00,000"
      }
    }
  ]
}"#;
    assert_eq!(r.files[0].contents, expected);
}

#[test]
fn without_a_prefix_nothing_is_written() {
    let args = Args { output_prefix: None, ..all_formats() };
    let r = render_outputs(&args, &segments(), "x", "ko");
    assert!(r.files.is_empty());
    assert_eq!(r.failure, None);
}

#[test]
fn only_what_is_asked_for_is_written() {
    let args = Args { output_prefix: Some("d/n".to_string()), out_csv: true, out_txt: true, ..Args::default() };
    assert_eq!(names(&render_outputs(&args, &[], "x", "ko").files), ["d/n.txt", "d/n.csv"]);
    let none = Args { output_prefix: Some("p".to_string()), ..Args::default() };
    assert!(render_outputs(&none, &segments(), "x", "ko").files.is_empty());
}

#[test]
fn a_document_that_cannot_be_made_stops_the_writing() {
    let r = arrange_outputs(&all_formats(), &segments(), "x", Err("broken".to_string()));
    assert_eq!(names(&r.files), ["p.txt", "p.srt", "p.vtt"]);
    assert_eq!(r.failure, Some("broken".to_string()));
    let r = arrange_outputs(&all_formats(), &segments(), "x", Ok("{}".to_string()));
    assert_eq!(r.files[3].contents, "{}");
    let args = Args { out_json: false, ..all_formats() };
    let r = arrange_outputs(&args, &segments(), "x", Err("broken".to_string()));
    assert_eq!(names(&r.files), ["p.txt", "p.srt", "p.vtt", "p.lrc", "p.csv"]);
    assert_eq!(r.failure, None);
}
