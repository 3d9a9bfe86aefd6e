use bp_emulator::trace::{hex_digit, parse_trace_line};
use bp_emulator::TraceError;

#[test]
fn hex_digit_reads_both_cases() {
    assert_eq!(hex_digit(b'0'), Some(0));
    assert_eq!(hex_digit(b'9'), Some(9));
    assert_eq!(hex_digit(b'a'), Some(10));
    assert_eq!(hex_digit(b'f'), Some(15));
    assert_eq!(hex_digit(b'A'), Some(10));
    assert_eq!(hex_digit(b'F'), Some(15));
    assert_eq!(hex_digit(b'g'), None);
    assert_eq!(hex_digit(b'G'), None);
    assert_eq!(hex_digit(b' '), None);
    assert_eq!(hex_digit(b'/'), None);
    assert_eq!(hex_digit(b':'), None);
}

#[test]
fn parse_reads_address_and_outcome() {
    assert_eq!(parse_trace_line(b"302d28 n"), Ok((0x302d28, false)));
    assert_eq!(parse_trace_line(b"302d28 t"), Ok((0x302d28, true)));
    assert_eq!(parse_trace_line(b"0 t"), Ok((0, true)));
    assert_eq!(parse_trace_line(b"14 t"), Ok((0b10100, true)));
    assert_eq!(parse_trace_line(b"DeadBeef n"), Ok((0xdead_beef, false)));
    assert_eq!(parse_trace_line(b"000000000000000000000001f t"), Ok((0x1f, true)));
}

#[test]
fn parse_accepts_the_largest_address() {
    let digits = "f".repeat(usize::BITS as usize / 4);
    let line = format!("{} t", digits);
    assert_eq!(parse_trace_line(line.as_bytes()), Ok((usize::MAX, true)));
}

#[test]
fn parse_rejects_an_address_beyond_the_word() {
    let digits = "f".repeat(usize::BITS as usize / 4);
    let line = format!("1{} t", digits);
    assert_eq!(parse_trace_line(line.as_bytes()), Err(TraceError::AddressTooLarge));
    let line = format!("{}0 n", digits);
    assert_eq!(parse_trace_line(line.as_bytes()), Err(TraceError::AddressTooLarge));
    let line = format!("1{}0000000000000000 x", digits);
    assert_eq!(parse_trace_line(line.as_bytes()), Err(TraceError::AddressTooLarge));
}

#[test]
fn parse_rejects_another_letter() {
    assert_eq!(parse_trace_line(b"302d28 x"), Err(TraceError::InvalidOutcome));
    assert_eq!(parse_trace_line(b"302d28 T"), Err(TraceError::InvalidOutcome));
    assert_eq!(parse_trace_line(b"302d28 N"), Err(TraceError::InvalidOutcome));
    assert_eq!(parse_trace_line(b"1 a"), Err(TraceError::InvalidOutcome));
}

#[test]
fn parse_rejects_a_line_without_an_event() {
    assert_eq!(parse_trace_line(b""), Err(TraceError::Malformed));
    assert_eq!(parse_trace_line(b"t"), Err(TraceError::Malformed));
    assert_eq!(parse_trace_line(b" t"), Err(TraceError::Malformed));
    assert_eq!(parse_trace_line(b"302d28"), Err(TraceError::Malformed));
    assert_eq!(parse_trace_line(b"302d28 "), Err(TraceError::Malformed));
    assert_eq!(parse_trace_line(b"302d28t"), Err(TraceError::Malformed));
    assert_eq!(parse_trace_line(b"302d28  t"), Err(TraceError::Malformed));
    assert_eq!(parse_trace_line(b"302g t"), Err(TraceError::Malformed));
    assert_eq!(parse_trace_line(b"302d28 1"), Err(TraceError::Malformed));
    assert_eq!(parse_trace_line(b"302d28\tt"), Err(TraceError::Malformed));
    assert_eq!(parse_trace_line(b"xyz t"), Err(TraceError::Malformed));
    assert_eq!(parse_trace_line(b"302d28 -"), Err(TraceError::Malformed));
}

#[test]
fn parse_passes_over_what_stands_around_the_event() {
    assert_eq!(parse_trace_line(b"302d28 t "), Ok((0x302d28, true)));
    assert_eq!(parse_trace_line(b"302d28 tn"), Ok((0x302d28, true)));
    assert_eq!(parse_trace_line(b"  302d28 n"), Ok((0x302d28, false)));
    assert_eq!(parse_trace_line(b"0x302d28 t"), Ok((0x302d28, true)));
    assert_eq!(parse_trace_line(b"xyz 302d28 n zzz"), Ok((0x302d28, false)));
    assert_eq!(parse_trace_line(b"g1 t"), Ok((1, true)));
    assert_eq!(parse_trace_line(b"-1 t"), Ok((1, true)));
    assert_eq!(parse_trace_line(b"12 34 t"), Ok((0x34, true)));
}

#[test]
fn parse_takes_the_first_event_on_the_line() {
    assert_eq!(parse_trace_line(b"1 t 2 n"), Ok((1, true)));
    assert_eq!(parse_trace_line(b"1 n 2 t"), Ok((1, false)));
    assert_eq!(parse_trace_line(b"1 x 2 t"), Err(TraceError::InvalidOutcome));
    assert_eq!(parse_trace_line(b"ab cd ef"), Err(TraceError::InvalidOutcome));
    assert_eq!(parse_trace_line(b"1  2 t"), Ok((2, true)));
}

#[test]
fn parse_weighs_the_address_before_the_letter() {
    let digits = "f".repeat(usize::BITS as usize / 4);
    let line = format!("{}f x", digits);
    assert_eq!(parse_trace_line(line.as_bytes()), Err(TraceError::AddressTooLarge));
    let line = format!("{} x", digits);
    assert_eq!(parse_trace_line(line.as_bytes()), Err(TraceError::InvalidOutcome));
}
