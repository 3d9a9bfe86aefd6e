use bp_emulator::trace::parse_trace_line;
use bp_emulator::TraceError;
use regex::Regex;

/// Reads a line by searching it for the pattern of an event.
fn by_pattern(pattern: &Regex, line: &str) -> Result<(usize, bool), TraceError> {
    let cap = match pattern.captures(line) {
        Some(cap) => cap,
        None => return Err(TraceError::Malformed),
    };
    let pc = match usize::from_str_radix(&cap[1], 16) {
        Ok(pc) => pc,
        Err(_) => return Err(TraceError::AddressTooLarge),
    };
    match &cap[2] {
        "t" => Ok((pc, true)),
        "n" => Ok((pc, false)),
        _ => Err(TraceError::InvalidOutcome),
    }
}

fn event_pattern() -> Regex {
    Regex::new(r"([0-9a-fA-F]+) ([a-zA-Z])").unwrap()
}

#[test]
fn parse_agrees_with_the_pattern_on_chosen_lines() {
    let pattern = event_pattern();
    let lines = [
        "",
        " ",
        "t",
        " t",
        "0 t",
        "302d28 n",
        "302d28 t",
        "302D28 T",
        "302d28 x",
        "302d28  t",
        "302d28 t ",
        "302d28 tn",
        "  302d28 n",
        "0x302d28 t",
        "xyz 302d28 n zzz",
        "g1 t",
        "-1 t",
        "12 34 t",
        "1 t 2 n",
        "1 x 2 t",
        "ab cd ef",
        "1  2 t",
        "302d28\tt",
        "302d28 1",
        "302d28 -",
        "ffffffffffffffff t",
        "ffffffffffffffffffffffff n",
        "10000000000000000 t",
        "00000000000000000000000000000001 n",
        "fffffffffffffffff x",
        "caf\u{e9} 12 t",
        "12 \u{e9}",
        "12 t\u{e9}",
        "\u{e9}12 n",
        "a b",
        "a  b",
        " a b",
        "z a b c",
    ];
    for line in lines {
        assert_eq!(parse_trace_line(line.as_bytes()), by_pattern(&pattern, line), "{:?}", line);
    }
}

#[test]
fn parse_agrees_with_the_pattern_on_many_lines() {
    let pattern = event_pattern();
    let alphabet: Vec<char> = "0123456789abcdefABCDEF gGtTnNxz  \t-".chars().collect();
    let mut state: u64 = 0x2545_f491_4f6c_dd1d;
    for _ in 0..20000 {
        state = state.wrapping_mul(6364136223846793005).wrapping_add(1442695040888963407);
        let length = ((state >> 59) as usize) % 24;
        let mut line = String::new();
        for _ in 0..length {
            state = state.wrapping_mul(6364136223846793005).wrapping_add(1442695040888963407);
            line.push(alphabet[((state >> 33) as usize) % alphabet.len()]);
        }
        assert_eq!(parse_trace_line(line.as_bytes()), by_pattern(&pattern, &line), "{:?}", line);
    }
}
