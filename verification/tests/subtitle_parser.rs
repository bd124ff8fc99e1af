use blowup::ass::{format_ass_ts, hex_to_ass_color};
use blowup::srt::{format_srt_ts, parse_srt};

#[test]
fn parse_basic_srt() {
    let srt = "1\n00:00:01,000 --> 00:00:03,500\nHello world\n\n2\n00:00:05,000 --> 00:00:08,000\nSecond line\n";
    let cues = parse_srt(srt);
    assert_eq!(cues.len(), 2);
    assert_eq!(cues[0].start_ms, 1000);
    assert_eq!(cues[0].end_ms, 3500);
    assert_eq!(cues[0].text, "Hello world");
    assert_eq!(cues[1].start_ms, 5000);
}

#[test]
fn parse_multiline_cue() {
    let srt = "1\n00:00:01,000 --> 00:00:03,000\nLine one\nLine two\n\n";
    let cues = parse_srt(srt);
    assert_eq!(cues.len(), 1);
    assert_eq!(cues[0].text, "Line one\\NLine two");
}

#[test]
fn parse_with_bom() {
    let srt = "\u{feff}1\n00:00:01,000 --> 00:00:02,000\nBOM test\n\n";
    let cues = parse_srt(srt);
    assert_eq!(cues.len(), 1);
    assert_eq!(cues[0].text, "BOM test");
}

#[test]
fn parse_crlf() {
    let srt = "1\r\n00:00:01,000 --> 00:00:02,000\r\nCRLF\r\n\r\n";
    let cues = parse_srt(srt);
    assert_eq!(cues.len(), 1);
}

#[test]
fn hex_to_ass() {
    assert_eq!(hex_to_ass_color("#FF0000"), "&H000000FF");
    assert_eq!(hex_to_ass_color("#00FF00"), "&H0000FF00");
    assert_eq!(hex_to_ass_color("#FFFFFF"), "&H00FFFFFF");
}

#[test]
fn format_timestamp() {
    assert_eq!(format_ass_ts(0), "0:00:00.00");
    assert_eq!(format_ass_ts(3_723_450), "1:02:03.45");
}

#[test]
fn parse_sorts_cues_by_start_keeping_ties_in_order() {
    let srt = "00:00:05,000 --> 00:00:06,000\nlate\n\n00:00:01,000 --> 00:00:02,000\nfirst\n\n00:00:05,000 --> 00:00:07,000\nlate too\n";
    let cues = parse_srt(srt);
    assert_eq!(cues.len(), 3);
    assert_eq!(cues[0].text, "first");
    assert_eq!(cues[1].text, "late");
    assert_eq!(cues[2].text, "late too");
}

#[test]
fn parse_accepts_dot_and_loose_spacing() {
    let cues = parse_srt("1\n00:01:02.003-->00:01:04.500\nx\n");
    assert_eq!(cues.len(), 1);
    assert_eq!(cues[0].start_ms, 62_003);
    assert_eq!(cues[0].end_ms, 64_500);
}

#[test]
fn parse_drops_cue_without_text() {
    let cues = parse_srt("1\n00:00:01,000 --> 00:00:02,000\n\n2\n00:00:03,000 --> 00:00:04,000\nkept\n");
    assert_eq!(cues.len(), 1);
    assert_eq!(cues[0].text, "kept");
}

#[test]
fn format_srt_timestamp() {
    assert_eq!(format_srt_ts(3_723_045), "01:02:03,045");
    assert_eq!(format_srt_ts(-5), "00:00:00,000");
    assert_eq!(format_srt_ts(360_000_000), "100:00:00,000");
}

#[test]
fn hex_to_ass_lowercase_and_bad_length() {
    assert_eq!(hex_to_ass_color("##a1b2c3"), "&H00C3B2A1");
    assert_eq!(hex_to_ass_color("#FFF"), "&H00FFFFFF");
    assert_eq!(format_ass_ts(-10), "0:00:00.00");
}

#[test]
fn bom_and_windows_endings_give_the_same_cues() {
    let plain = "1\n00:00:03,000 --> 00:00:04,500\nSecond\n\n2\n00:00:01,000 --> 00:00:02,000\nFirst\nline\n";
    let marked = format!("\u{feff}{plain}");
    let windows = plain.replace('\n', "\r\n");
    let key = |s: &str| {
        parse_srt(s).into_iter().map(|c| (c.start_ms, c.end_ms, c.text)).collect::<Vec<_>>()
    };
    assert_eq!(key(plain).len(), 2);
    assert_eq!(key(&marked), key(plain));
    assert_eq!(key(&windows), key(plain));
}

#[test]
fn written_cue_reads_back() {
    let doc = format!("{} --> {}\nX\n", format_srt_ts(3_723_004), format_srt_ts(3_725_999));
    let cues = parse_srt(&doc);
    assert_eq!(cues.len(), 1);
    assert_eq!((cues[0].start_ms, cues[0].end_ms, cues[0].text.as_str()), (3_723_004, 3_725_999, "X"));
}
