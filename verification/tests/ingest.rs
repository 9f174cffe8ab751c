use mosaic_model::log::Log;
use timeline::event::Event;
use timeline::gpu_data::GPU_Data;
use timeline::ingest::{
    body_text, chars_of, find_from, read_decimal, read_events, read_timestamp, split_lines,
    string_of,
};
use timeline::my_app::MyApp;

fn chars(text: &str) -> Vec<char> {
    text.chars().collect()
}

fn lines_of(text: &str) -> Vec<String> {
    split_lines(&chars(text)).iter().map(|line| line.iter().collect()).collect()
}

fn event(label: &str, timestamp: i64) -> Event {
    Event { timestamp, label: label.to_string() }
}

#[test]
fn chars_and_strings_convert_both_ways() {
    assert_eq!(chars_of("a,ß,語\n"), vec!['a', ',', 'ß', ',', '語', '\n']);
    assert_eq!(chars_of(""), Vec::new());
    assert_eq!(string_of(&vec!['x', 'é', '1']), "xé1");
    assert_eq!(string_of(&Vec::new()), "");
}

#[test]
fn lines_end_at_line_feeds_and_lose_their_endings() {
    assert_eq!(lines_of("a,1\nb,2\n"), vec!["a,1", "b,2"]);
    assert_eq!(lines_of("a,1\nb,2"), vec!["a,1", "b,2"]);
    assert_eq!(lines_of("a,1\r\nb,2\r\n"), vec!["a,1", "b,2"]);
    assert_eq!(lines_of("a\n\nb"), vec!["a", "", "b"]);
    assert_eq!(lines_of("\n"), vec![""]);
    assert_eq!(lines_of("\r\n"), vec![""]);
    assert_eq!(lines_of("a\r"), vec!["a\r"]);
    assert_eq!(lines_of("a\rb\n"), vec!["a\rb"]);
    assert_eq!(lines_of("a\r\r\n"), vec!["a\r"]);
    assert!(lines_of("").is_empty());
}

#[test]
fn lines_are_those_of_the_standard_library() {
    let alphabet = ['a', ',', '1', '\n', '\r', ' ', 'é'];
    let mut state: u64 = 0x2545_F491_4F6C_DD1D;
    for _ in 0..20_000 {
        state ^= state << 13;
        state ^= state >> 7;
        state ^= state << 17;
        let len = (state % 12) as usize;
        let mut text = String::new();
        let mut pick = state >> 8;
        for _ in 0..len {
            text.push(alphabet[(pick % alphabet.len() as u64) as usize]);
            pick /= alphabet.len() as u64;
        }
        let expected: Vec<String> = text.lines().map(|line| line.to_string()).collect();
        assert_eq!(lines_of(&text), expected, "text {:?}", text);
    }
}

#[test]
fn find_from_gives_the_first_match_or_the_length() {
    let line = chars("ab,cd,,e");
    assert_eq!(find_from(&line, ',', 0), 2);
    assert_eq!(find_from(&line, ',', 2), 2);
    assert_eq!(find_from(&line, ',', 3), 5);
    assert_eq!(find_from(&line, ',', 6), 6);
    assert_eq!(find_from(&line, ',', 7), 8);
    assert_eq!(find_from(&line, ',', 8), 8);
    assert_eq!(find_from(&line, 'z', 0), 8);
    assert_eq!(find_from(&Vec::new(), ',', 0), 0);
}

#[test]
fn decimals_are_read_with_sign_and_leading_zeros() {
    let read = |text: &str| read_decimal(&chars(text), 0, text.chars().count());
    assert_eq!(read("0"), Some(0));
    assert_eq!(read("-0"), Some(0));
    assert_eq!(read("+17"), Some(17));
    assert_eq!(read("-17"), Some(-17));
    assert_eq!(read("1700000000000"), Some(1_700_000_000_000));
    assert_eq!(read("000000000000000000000000000042"), Some(42));
    assert_eq!(read("9223372036854775807"), Some(i64::MAX));
    assert_eq!(read("-9223372036854775808"), Some(i64::MIN));
    assert_eq!(read("9223372036854775808"), None);
    assert_eq!(read("-9223372036854775809"), None);
    assert_eq!(read("99999999999999999999999999999999999999999999"), None);
    assert_eq!(read(""), None);
    assert_eq!(read("+"), None);
    assert_eq!(read("-"), None);
    assert_eq!(read("--1"), None);
    assert_eq!(read("1-"), None);
    assert_eq!(read(" 1"), None);
    assert_eq!(read("1 "), None);
    assert_eq!(read("1_000"), None);
    assert_eq!(read("12a"), None);
    assert_eq!(read("١٢"), None);
    assert_eq!(read_decimal(&chars("ab-12cd"), 2, 5), Some(-12));
    assert_eq!(read_decimal(&chars("ab-12cd"), 2, 6), None);
    assert_eq!(read_decimal(&chars("ab-12cd"), 3, 3), None);
}

#[test]
fn decimals_are_those_that_the_standard_library_parses() {
    let alphabet = ['0', '1', '9', '+', '-', ' ', 'a', '2', '8', '7'];
    let mut state: u64 = 0x9E37_79B9_7F4A_7C15;
    for _ in 0..100_000 {
        state ^= state << 13;
        state ^= state >> 7;
        state ^= state << 17;
        let len = (state % 22) as usize;
        let mut text = String::new();
        let mut pick = state >> 5;
        for _ in 0..len {
            text.push(alphabet[(pick % 10) as usize]);
            pick = pick / 10 ^ (pick << 3);
        }
        let expected = text.parse::<i64>().ok();
        assert_eq!(read_decimal(&chars(&text), 0, text.chars().count()), expected, "{:?}", text);
    }
    for text in ["9223372036854775806", "9223372036854775807", "9223372036854775808",
        "-9223372036854775807", "-9223372036854775808", "-9223372036854775809",
        "+9223372036854775807", "+9223372036854775808", "0009223372036854775807",
        "18446744073709551616", "-18446744073709551616"]
    {
        let expected = text.parse::<i64>().ok();
        assert_eq!(read_decimal(&chars(text), 0, text.len()), expected, "{:?}", text);
    }
}

#[test]
fn timestamp_is_the_second_field_of_a_record() {
    assert_eq!(read_timestamp(&chars("boot,1700000000000")), Some(1_700_000_000_000));
    assert_eq!(read_timestamp(&chars("boot,17,rest,of,line")), Some(17));
    assert_eq!(read_timestamp(&chars(",-5")), Some(-5));
    assert_eq!(read_timestamp(&chars("boot,+5,")), Some(5));
    assert_eq!(read_timestamp(&chars("boot")), None);
    assert_eq!(read_timestamp(&chars("")), None);
    assert_eq!(read_timestamp(&chars("boot,")), None);
    assert_eq!(read_timestamp(&chars("boot,,17")), None);
    assert_eq!(read_timestamp(&chars("boot, 17")), None);
    assert_eq!(read_timestamp(&chars("17")), None);
    assert_eq!(read_timestamp(&chars("boot,1e3")), None);
    assert_eq!(read_timestamp(&chars("boot,9223372036854775808")), None);
}

#[test]
fn records_are_read_as_the_log_model_reads_them() {
    for line in ["boot,1700000000000", "a b c,-42,extra", ",0", "ünï,+7", "x,0007,"] {
        let (events, skipped) = read_events(line);
        assert_eq!(skipped, 0);
        let log = Log::from_http_body(line.to_string());
        assert_eq!(events, vec![event(&log.label, log.timestamp)], "line {:?}", line);
    }
    assert_eq!(read_events("boot,1700000000000").0, vec![event("boot", 1_700_000_000_000)]);
    assert_eq!(read_events("a b c,-42,extra").0, vec![event("a b c", -42)]);
}

#[test]
fn lines_that_are_no_records_are_passed_over() {
    let body = "first,100\nno comma here\nsecond,200\r\nbad,12x\n\nthird,300,more\nlast,";
    assert_eq!(
        read_events(body),
        (vec![event("first", 100), event("second", 200), event("third", 300)], 4)
    );
    assert_eq!(read_events(""), (Vec::new(), 0));
    assert_eq!(read_events("\n\n\n"), (Vec::new(), 3));
    assert_eq!(read_events("nothing to see"), (Vec::new(), 1));
}

#[test]
fn body_text_is_the_text_of_valid_utf8_and_empty_otherwise() {
    assert_eq!(body_text(b"boot,1\n".to_vec()), "boot,1\n");
    assert_eq!(body_text("grüße,2".as_bytes().to_vec()), "grüße,2");
    assert_eq!(body_text(Vec::new()), "");
    assert_eq!(body_text(vec![0xFF, 0xFE, b'a']), "");
    assert_eq!(body_text(vec![b'a', b',', b'1', 0xC3]), "");
    assert_eq!(body_text(vec![0xED, 0xA0, 0x80]), "");
}

#[test]
fn receive_logs_stores_the_records_and_queues_their_rects() {
    let now = 1_700_000_000_000i64;
    let origin = now - 43_200_000;
    let mut app = MyApp::new(now);
    let skipped = app.receive_logs(format!("a,{}\nbroken\nb,{}\r\n", now - 2000, now - 1000));
    assert_eq!(skipped, 1);
    assert_eq!(app.data.logs, vec![event("a", now - 2000), event("b", now - 1000)]);
    let xs: Vec<u32> = app
        .data
        .queue
        .iter()
        .map(|primitive| match primitive {
            GPU_Data::Rect { x, .. } => *x,
            other => panic!("expected a rectangle, got {:?}", other),
        })
        .collect();
    assert_eq!(
        xs,
        vec![((now - 2000 - origin) as f32).to_bits(), ((now - 1000 - origin) as f32).to_bits()]
    );
    assert_eq!(app.receive_logs(format!("c,{}", now)), 0);
    assert_eq!(app.data.logs.len(), 3);
    assert_eq!(app.data.queue.len(), 3);
}

#[test]
fn receive_body_reads_bytes_as_text_and_drops_what_is_no_text() {
    let mut app = MyApp::new(1_700_000_000_000);
    assert_eq!(app.receive_body(b"a,5\nb,6\n".to_vec()), 0);
    assert_eq!(app.data.logs, vec![event("a", 5), event("b", 6)]);
    assert_eq!(app.data.queue.len(), 2);
    assert_eq!(app.receive_body(vec![b'c', b',', b'7', b'\n', 0xFF]), 0);
    assert_eq!(app.receive_body(b"no record\nc,7\n\n".to_vec()), 2);
    assert_eq!(app.data.logs.len(), 3);
    app.data.logs.pop();
    app.data.queue.pop_back();
    assert_eq!(app.data.logs.len(), 2);
    assert_eq!(app.data.queue.len(), 2);
}
