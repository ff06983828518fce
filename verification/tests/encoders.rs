use scribble::json_array_encoder::JsonArrayEncoder;
use scribble::segments::{Segment, Token};
use scribble::textfmt::get_formatted_timestamp;
use scribble::vtt_encoder::VttEncoder;

fn seg(start_cs: u64, end_cs: u64, text: &str) -> Segment {
    Segment {
        start_cs,
        end_cs,
        text: text.to_string(),
        tokens: vec![],
        language_code: "und".to_string(),
        next_speaker_turn: false,
    }
}

#[test]
fn empty_json_encoder_close_produces_empty_array() {
    let mut enc = JsonArrayEncoder::new();
    enc.close().unwrap();
    assert_eq!(enc.output_string(), "[]");
}

#[test]
fn repeated_json_close_is_idempotent() {
    let mut enc = JsonArrayEncoder::new();
    enc.close().unwrap();
    enc.close().unwrap();
    assert_eq!(enc.output_string(), "[]");
}

#[test]
fn json_write_after_close_errors_and_leaves_output_alone() {
    let mut enc = JsonArrayEncoder::new();
    enc.write_segment(&seg(0, 120, "hello")).unwrap();
    enc.close().unwrap();
    let before = enc.output_string();
    assert!(enc.write_segment(&seg(120, 200, "world")).is_err());
    assert_eq!(enc.output_string(), before);
}

#[test]
fn json_output_parses_as_array_with_one_element_per_write() {
    let mut enc = JsonArrayEncoder::new();
    let mut first = seg(0, 120, "hel\"lo");
    first.tokens.push(Token {
        start_cs: 0,
        end_cs: 60,
        text: "hel".to_string(),
        probability_ppm: 897_213,
    });
    enc.write_segment(&first).unwrap();
    enc.write_segment(&seg(120, 200, "world")).unwrap();
    enc.close().unwrap();

    let text = enc.output_string();
    let value: serde_json::Value = serde_json::from_str(&text).expect("valid JSON");
    let arr = value.as_array().expect("a JSON array");
    assert_eq!(arr.len(), 2);
    assert_eq!(arr[0]["startSeconds"].as_f64(), Some(0.0));
    assert_eq!(arr[0]["endSeconds"].as_f64(), Some(1.2));
    assert_eq!(arr[0]["text"].as_str(), Some("hel\"lo"));
    assert_eq!(arr[0]["tokens"][0]["probability"].as_f64(), Some(0.897213));
    assert_eq!(arr[1]["text"].as_str(), Some("world"));
    assert_eq!(arr[1]["languageCode"].as_str(), Some("und"));
    assert_eq!(arr[1]["nextSpeakerTurn"].as_bool(), Some(false));
}

#[test]
fn empty_vtt_close_produces_empty_document() {
    let mut enc = VttEncoder::new();
    enc.close().unwrap();
    assert_eq!(enc.output_string(), "");
}

#[test]
fn vtt_output_has_one_header_and_one_arrow_per_segment() {
    let mut enc = VttEncoder::new();
    enc.write_segment(&seg(0, 120, "hello")).unwrap();
    enc.write_segment(&seg(120, 200, "world")).unwrap();
    enc.close().unwrap();

    let text = enc.output_string();
    assert!(text.starts_with("WEBVTT\n\n"));
    assert_eq!(text.matches("WEBVTT").count(), 1);
    assert_eq!(text.matches(" --> ").count(), 2);
    assert_eq!(
        text,
        "WEBVTT\n\n00:00:00.000 --> 00:00:01.200\nhello\n\n00:00:01.200 --> 00:00:02.000\nworld\n\n"
    );
}

#[test]
fn vtt_write_after_close_errors_and_leaves_output_alone() {
    let mut enc = VttEncoder::new();
    enc.write_segment(&seg(0, 120, "hello")).unwrap();
    enc.close().unwrap();
    let before = enc.output_string();
    assert!(enc.write_segment(&seg(120, 200, "world")).is_err());
    assert_eq!(enc.output_string(), before);
}

#[test]
fn timestamp_formatting_rounds_to_milliseconds() {
    let ms_of = |seconds: f32| -> u64 { (seconds * 1000.0).round() as u64 };
    assert_eq!(get_formatted_timestamp(ms_of(0.0004)), "00:00:00.000");
    assert_eq!(get_formatted_timestamp(ms_of(0.0005)), "00:00:00.001");
    assert_eq!(get_formatted_timestamp(ms_of(1.9995)), "00:00:02.000");
    assert_eq!(get_formatted_timestamp(ms_of(61.2)), "00:01:01.200");
}
