use deskemy::subtitles::{parse, parse_checked};

#[test]
fn parses_srt() {
    let s = "1\n00:00:01,500 --> 00:00:03,000\nHello <i>world</i>\n\n2\n00:01:02,250 --> 00:01:04,000\nSecond line\n";
    let cues = parse(s);
    assert_eq!(cues.len(), 2);
    assert_eq!(cues[0], (1500, "Hello world".to_string()));
    assert_eq!(cues[1].0, 62250);
}

#[test]
fn parses_vtt() {
    let s = "WEBVTT\n\n00:00:05.000 --> 00:00:06.000 align:start\nA cue\n";
    let cues = parse(s);
    assert_eq!(cues, vec![(5000, "A cue".to_string())]);
}

#[test]
fn cue_text_is_clean() {
    let s = "00:00:01.000 --> 00:00:02.000\n  <b>bold</b>   and\tspaced \n second  line\n";
    let cues = parse(s);
    assert_eq!(cues, vec![(1000, "bold and spaced second line".to_string())]);
}

#[test]
fn parse_checked_matches_parse() {
    let s = "1\n00:00:01,500 --> 00:00:03,000\nHi\n";
    assert_eq!(parse_checked(s), Some(parse(s)));
    assert_eq!(parse_checked(""), Some(vec![]));
}
