use syslog_collector::handler::LogHandler;
use syslog_collector::pipeline::Stats;
use syslog_collector::priority::PriorityError;
use syslog_collector::queue::Datagram;
use syslog_collector::rowfmt;
use syslog_collector::store::Writer;
use syslog_collector::text;

const HEADER_ROW: &str = "\"event_time\",\"device_ip\",\"message\",\"severity\",\"facility\"\n";

fn handler() -> LogHandler {
    LogHandler::new(String::from("syslog.csv"))
}

fn datagram(source: &str, text: &str) -> Datagram {
    Datagram {
        source: String::from(source),
        text: String::from(text),
    }
}

fn parse_content(content: &str) -> Vec<Vec<String>> {
    let cv = text::chars_of(content);
    rowfmt::parse_store(&cv)
        .expect("store content must parse")
        .iter()
        .map(|row| row.iter().map(|f| text::string_of(f)).collect())
        .collect()
}

fn count_header_lines(content: &str) -> usize {
    parse_content(content)
        .iter()
        .filter(|row| {
            row.as_slice()
                == ["event_time", "device_ip", "message", "severity", "facility"]
        })
        .count()
}

#[test]
fn header_precedes_first_record_only() {
    let h = handler();
    let mut stats = Stats::new();
    let mut w = Writer::open(true);
    let mut content = String::new();

    let c1 = h
        .process(&datagram("10.0.0.1", "<13>one"), String::from("t1"), &mut stats, &mut w)
        .expect("first record parses");
    let s1 = text::string_of(&c1);
    assert!(s1.starts_with(HEADER_ROW));
    content.push_str(&s1);

    let c2 = h
        .process(&datagram("10.0.0.2", "<13>two"), String::from("t2"), &mut stats, &mut w)
        .expect("second record parses");
    let s2 = text::string_of(&c2);
    assert!(!s2.contains("event_time"));
    content.push_str(&s2);

    assert_eq!(count_header_lines(&content), 1);
    assert_eq!(parse_content(&content).len(), 3);
}

#[test]
fn no_header_for_preexisting_store() {
    let mut w = Writer::open(false);
    let h = handler();
    let mut stats = Stats::new();
    let chunk = h
        .process(&datagram("10.0.0.1", "<13>one"), String::from("t1"), &mut stats, &mut w)
        .expect("record parses");
    let s = text::string_of(&chunk);
    assert!(!s.contains("event_time"));
    assert_eq!(parse_content(&s).len(), 1);
}

#[test]
fn end_to_end_record_fields() {
    let h = handler();
    let mut stats = Stats::new();
    let mut w = Writer::open(true);
    let chunk = h
        .process(
            &datagram("10.0.0.5", "<13>test message"),
            String::from("2024-05-06 07:08:09.123"),
            &mut stats,
            &mut w,
        )
        .expect("datagram parses");
    let content = text::string_of(&chunk);
    let rows = parse_content(&content);
    assert_eq!(rows.len(), 2);
    assert_eq!(
        rows[1].as_slice(),
        ["2024-05-06 07:08:09.123", "10.0.0.5", "test message", "5", "1"]
    );
}

#[test]
fn malformed_counted_received_never_written() {
    let h = handler();
    let mut stats = Stats::new();
    let mut w = Writer::open(true);
    let r = h.process(
        &datagram("10.0.0.9", "no priority here"),
        String::from("t"),
        &mut stats,
        &mut w,
    );
    assert_eq!(r, Err(PriorityError::NoDelimiter));
    assert_eq!(stats.received, 1);
    assert_eq!(stats.written, 0);

    // A following good record still gets the header: nothing was appended
    // for the rejected datagram.
    let chunk = h
        .process(&datagram("10.0.0.9", "<13>ok"), String::from("t"), &mut stats, &mut w)
        .expect("valid datagram parses");
    let s = text::string_of(&chunk);
    assert!(s.starts_with(HEADER_ROW));
    assert!(!s.contains("no priority here"));
}

#[test]
fn two_sources_each_once() {
    let h = handler();
    let mut stats = Stats::new();
    let mut w = Writer::open(true);
    let mut content = String::new();
    for (src, txt) in [("10.0.0.1", "<9>alpha"), ("10.0.0.2", "<9>beta")] {
        let chunk = h
            .process(&datagram(src, txt), String::from("t"), &mut stats, &mut w)
            .expect("record parses");
        content.push_str(&text::string_of(&chunk));
    }
    let rows = parse_content(&content);
    assert_eq!(rows.len(), 3);
    let from_one = rows.iter().filter(|r| r[1] == "10.0.0.1").count();
    let from_two = rows.iter().filter(|r| r[1] == "10.0.0.2").count();
    assert_eq!(from_one, 1);
    assert_eq!(from_two, 1);
}

#[test]
fn handle_log_stamps_nonempty_time() {
    let h = handler();
    let mut stats = Stats::new();
    let mut w = Writer::open(true);
    let chunk = h
        .handle_log(
            String::from("192.168.1.7"),
            String::from("<30>daemon says hello"),
            &mut stats,
            &mut w,
        )
        .expect("datagram parses");
    let rows = parse_content(&text::string_of(&chunk));
    assert_eq!(rows.len(), 2);
    assert!(!rows[1][0].is_empty());
    assert_eq!(rows[1].as_slice()[1..], ["192.168.1.7", "daemon says hello", "6", "3"]);
}

#[test]
fn written_counter_follows_confirmed_writes() {
    let h = handler();
    let mut stats = Stats::new();
    let mut w = Writer::open(true);
    h.process(&datagram("10.0.0.1", "<13>ok"), String::from("t"), &mut stats, &mut w)
        .expect("record parses");
    assert_eq!((stats.received, stats.written), (1, 0));
    if stats.written < stats.received {
        stats.note_written();
    }
    assert_eq!((stats.received, stats.written), (1, 1));
}

#[test]
fn message_normalized_in_store() {
    let h = handler();
    let mut stats = Stats::new();
    let mut w = Writer::open(true);
    let chunk = h
        .process(
            &datagram("10.0.0.3", "<13>  line one\nline two  \n"),
            String::from("t"),
            &mut stats,
            &mut w,
        )
        .expect("record parses");
    let rows = parse_content(&text::string_of(&chunk));
    assert_eq!(rows[1][2], "line oneline two");
}
