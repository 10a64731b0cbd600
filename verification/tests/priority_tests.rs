use syslog_collector::handler::LogHandler;
use syslog_collector::priority::PriorityError;

fn handler() -> LogHandler {
    LogHandler::new(String::from("syslog.csv"))
}

#[test]
fn parse_ok_basic() {
    assert_eq!(handler().parse_priority("<13>test message"), Ok((1, 5)));
}

#[test]
fn parse_pri_zero() {
    assert_eq!(handler().parse_priority("<0>x"), Ok((0, 0)));
}

#[test]
fn parse_pri_max() {
    assert_eq!(handler().parse_priority("<255>x"), Ok((31, 7)));
}

#[test]
fn parse_pri_splits_bits() {
    // 165 = 20 * 8 + 5: facility 20, severity 5.
    assert_eq!(handler().parse_priority("<165>m"), Ok((20, 5)));
}

#[test]
fn parse_plus_prefix() {
    assert_eq!(handler().parse_priority("<+13>m"), Ok((1, 5)));
}

#[test]
fn parse_leading_zeros() {
    assert_eq!(handler().parse_priority("<013>m"), Ok((1, 5)));
}

#[test]
fn parse_value_too_large() {
    assert_eq!(
        handler().parse_priority("<256>x"),
        Err(PriorityError::MalformedValue)
    );
}

#[test]
fn parse_empty_value() {
    assert_eq!(
        handler().parse_priority("<>x"),
        Err(PriorityError::MalformedValue)
    );
}

#[test]
fn parse_plus_alone() {
    assert_eq!(
        handler().parse_priority("<+>x"),
        Err(PriorityError::MalformedValue)
    );
}

#[test]
fn parse_non_numeric() {
    assert_eq!(
        handler().parse_priority("<1a>x"),
        Err(PriorityError::MalformedValue)
    );
}

#[test]
fn parse_no_delimiters() {
    assert_eq!(
        handler().parse_priority("no priority here"),
        Err(PriorityError::NoDelimiter)
    );
}

#[test]
fn parse_missing_close() {
    assert_eq!(
        handler().parse_priority("<13 no close"),
        Err(PriorityError::NoDelimiter)
    );
}

#[test]
fn parse_close_before_open() {
    // The first `>` after the first `<` closes the value; an earlier `>` is
    // plain text.
    assert_eq!(handler().parse_priority(">5<13>m"), Ok((1, 5)));
}

#[test]
fn parse_empty_text() {
    assert_eq!(
        handler().parse_priority(""),
        Err(PriorityError::NoDelimiter)
    );
}
