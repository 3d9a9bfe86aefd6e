//! One line of a branch trace: a hexadecimal address, one space, and the
//! letter `t` for a taken branch or `n` for one that was not taken.
//!
//! A line holds an event wherever one or more hexadecimal digits, a space
//! and a letter follow each other. The first such place counts, and what
//! stands before and after it on the line is passed over.

use vstd::prelude::*;

verus! {

/// The character `0`.
pub const DIGIT_0: u8 = 0x30;

/// The character `9`.
pub const DIGIT_9: u8 = 0x39;

/// The character `A`.
pub const UPPER_A: u8 = 0x41;

/// The character `F`.
pub const UPPER_F: u8 = 0x46;

/// The character `Z`.
pub const UPPER_Z: u8 = 0x5a;

/// The character `a`.
pub const LOWER_A: u8 = 0x61;

/// The character `f`.
pub const LOWER_F: u8 = 0x66;

/// The character `z`.
pub const LOWER_Z: u8 = 0x7a;

/// The space character.
pub const SPACE: u8 = 0x20;

/// The letter `t`, which marks a taken branch.
pub const TAKEN: u8 = 0x74;

/// The letter `n`, which marks a branch that was not taken.
pub const NOT_TAKEN: u8 = 0x6e;

/// Why a line of a trace is not a branch event.
#[derive(Clone, Copy, Debug, PartialEq, Eq, Structural)]
pub enum TraceError {
    /// Nowhere on the line do hexadecimal digits, a space and a letter
    /// follow each other.
    Malformed,
    /// The address does not fit in a machine word.
    AddressTooLarge,
    /// The letter is neither `t` nor `n`.
    InvalidOutcome,
}

/// Whether `c` is a hexadecimal digit, in either case.
pub open spec fn is_hex_digit(c: u8) -> bool {
    ||| DIGIT_0 <= c <= DIGIT_9
    ||| LOWER_A <= c <= LOWER_F
    ||| UPPER_A <= c <= UPPER_F
}

/// The value of the hexadecimal digit `c`.
pub open spec fn hex_digit_value(c: u8) -> nat {
    if DIGIT_0 <= c <= DIGIT_9 {
        (c - DIGIT_0) as nat
    } else if LOWER_A <= c <= LOWER_F {
        (c - LOWER_A + 10) as nat
    } else {
        (c - UPPER_A + 10) as nat
    }
}

/// The number that a sequence of hexadecimal digits writes, most significant
/// digit first.
pub open spec fn hex_value(digits: Seq<u8>) -> nat
    decreases digits.len(),
{
    if digits.len() == 0 {
        0
    } else {
        hex_value(digits.drop_last()) * 16 + hex_digit_value(digits.last())
    }
}

/// Whether `c` is a letter of the Latin alphabet, in either case.
pub open spec fn is_letter(c: u8) -> bool {
    ||| LOWER_A <= c <= LOWER_Z
    ||| UPPER_A <= c <= UPPER_Z
}

/// Whether the space of an event stands at position `at` of the line: a
/// space with a hexadecimal digit before it and a letter after it.
pub open spec fn is_event_space(line: Seq<u8>, at: int) -> bool {
    &&& 0 < at
    &&& at + 1 < line.len()
    &&& line[at] == SPACE
    &&& is_hex_digit(line[at - 1])
    &&& is_letter(line[at + 1])
}

/// The position of the first event space at or after `from`, if there is one.
pub open spec fn first_event_space(line: Seq<u8>, from: int) -> Option<int>
    decreases line.len() - from,
{
    if from >= line.len() {
        None
    } else if is_event_space(line, from) {
        Some(from)
    } else {
        first_event_space(line, from + 1)
    }
}

/// Where the unbroken run of hexadecimal digits that ends just before
/// position `end` begins; `end` itself where no digit stands before it.
pub open spec fn run_start(line: Seq<u8>, end: int) -> int
    decreases end,
{
    if 0 < end <= line.len() && is_hex_digit(line[end - 1]) {
        run_start(line, end - 1)
    } else {
        end
    }
}

/// What a line of a trace means: the address and the outcome of the first
/// event on it, or the first reason why it gives none. The address is the
/// whole run of digits before the event's space, the outcome the letter
/// after it. A line without an event is malformed; then the address is
/// weighed, and the letter last.
pub open spec fn spec_parse_trace_line(line: Seq<u8>) -> Result<(usize, bool), TraceError> {
    match first_event_space(line, 0) {
        None => Err(TraceError::Malformed),
        Some(space) => {
            let address = hex_value(line.subrange(run_start(line, space), space));
            let letter = line[space + 1];
            if address > usize::MAX {
                Err(TraceError::AddressTooLarge)
            } else if letter == TAKEN {
                Ok((address as usize, true))
            } else if letter == NOT_TAKEN {
                Ok((address as usize, false))
            } else {
                Err(TraceError::InvalidOutcome)
            }
        },
    }
}

/// The first event space lies inside the line, and none stands before it.
pub proof fn lemma_first_event_space(line: Seq<u8>, from: int)
    requires
        0 <= from,
    ensures
        first_event_space(line, from) matches Some(space) ==> from <= space && is_event_space(
            line,
            space,
        ) && forall|at: int| from <= at < space ==> !is_event_space(line, at),
        first_event_space(line, from) is None ==> forall|at: int|
            from <= at ==> !is_event_space(line, at),
    decreases line.len() - from,
{
    if from < line.len() && !is_event_space(line, from) {
        lemma_first_event_space(line, from + 1);
    }
}

/// The run before an event's space is not empty, lies inside the line, holds
/// hexadecimal digits only, and no digit stands before it.
pub proof fn lemma_run_start(line: Seq<u8>, end: int)
    requires
        0 <= end <= line.len(),
    ensures
        0 <= run_start(line, end) <= end,
        forall|at: int| run_start(line, end) <= at < end ==> is_hex_digit(#[trigger] line[at]),
        run_start(line, end) > 0 ==> !is_hex_digit(line[run_start(line, end) - 1]),
        end > 0 && is_hex_digit(line[end - 1]) ==> run_start(line, end) < end,
    decreases end,
{
    if 0 < end && is_hex_digit(line[end - 1]) {
        lemma_run_start(line, end - 1);
    }
}

/// The value of `c` as a hexadecimal digit, if it is one.
pub fn hex_digit(c: u8) -> (value: Option<u8>)
    ensures
        is_hex_digit(c) <==> value is Some,
        value matches Some(v) ==> v == hex_digit_value(c) && v < 16,
{
    if DIGIT_0 <= c && c <= DIGIT_9 {
        Some(c - DIGIT_0)
    } else if LOWER_A <= c && c <= LOWER_F {
        Some(c - LOWER_A + 10)
    } else if UPPER_A <= c && c <= UPPER_F {
        Some(c - UPPER_A + 10)
    } else {
        None
    }
}

/// Whether `c` is a letter of the Latin alphabet.
fn letter(c: u8) -> (yes: bool)
    ensures
        yes == is_letter(c),
{
    (LOWER_A <= c && c <= LOWER_Z) || (UPPER_A <= c && c <= UPPER_Z)
}

/// Finds the space of the first event on the line.
fn find_event_space(line: &[u8]) -> (found: Option<usize>)
    ensures
        found matches Some(space) ==> first_event_space(line@, 0) == Some(space as int)
            && is_event_space(line@, space as int) && space + 1 < line.len(),
        found is None ==> first_event_space(line@, 0) is None,
{
    let len = line.len();
    let mut at: usize = 1;
    assert(first_event_space(line@, 0) == first_event_space(line@, 1)) by {
        if len == 0 {
            assert(first_event_space(line@, 1) is None);
        }
    }
    while at < len
        invariant
            len == line@.len(),
            1 <= at,
            first_event_space(line@, 0) == first_event_space(line@, at as int),
        decreases len - at,
    {
        if at + 1 < len && line[at] == SPACE && hex_digit(line[at - 1]).is_some() && letter(
            line[at + 1],
        ) {
            return Some(at);
        }
        at = at + 1;
    }
    None
}

/// Finds where the run of digits that ends before `end` begins.
fn find_run_start(line: &[u8], end: usize) -> (start: usize)
    requires
        end <= line@.len(),
    ensures
        start == run_start(line@, end as int),
{
    let mut start = end;
    while start > 0 && hex_digit(line[start - 1]).is_some()
        invariant
            start <= end <= line@.len(),
            run_start(line@, end as int) == run_start(line@, start as int),
        decreases start,
    {
        start = start - 1;
    }
    start
}

/// Reads the hexadecimal digits of `line` from `start` up to `end` as a
/// number; `None` where it does not fit in a machine word.
fn read_address(line: &[u8], start: usize, end: usize) -> (address: Option<usize>)
    requires
        start <= end <= line@.len(),
        forall|at: int| start <= at < end ==> is_hex_digit(#[trigger] line@[at]),
    ensures
        address matches Some(value) ==> value == hex_value(
            line@.subrange(start as int, end as int),
        ),
        address is None ==> hex_value(line@.subrange(start as int, end as int)) > usize::MAX,
{
    let mut value: usize = 0;
    let mut too_large = false;
    let mut at: usize = start;
    while at < end
        invariant
            start <= at <= end <= line@.len(),
            forall|k: int| start <= k < end ==> is_hex_digit(#[trigger] line@[k]),
            too_large ==> hex_value(line@.subrange(start as int, at as int)) > usize::MAX,
            !too_large ==> value == hex_value(line@.subrange(start as int, at as int)),
        decreases end - at,
    {
        let found = hex_digit(line[at]);
        assert(is_hex_digit(line@[at as int]));
        let digit: usize = found.unwrap() as usize;
        proof {
            let next = line@.subrange(start as int, at + 1);
            assert(next.drop_last() =~= line@.subrange(start as int, at as int));
            assert(next.last() == line@[at as int]);
        }
        if too_large || value > (usize::MAX - digit) / 16 {
            too_large = true;
        } else {
            value = value * 16 + digit;
        }
        at = at + 1;
    }
    if too_large {
        None
    } else {
        Some(value)
    }
}

/// Reads one line of a trace, without its line break.
pub fn parse_trace_line(line: &[u8]) -> (event: Result<(usize, bool), TraceError>)
    ensures
        event == spec_parse_trace_line(line@),
{
    let found = find_event_space(line);
    if found.is_none() {
        return Err(TraceError::Malformed);
    }
    let space = found.unwrap();
    let start = find_run_start(line, space);
    proof {
        lemma_run_start(line@, space as int);
    }
    let outcome = line[space + 1];
    match read_address(line, start, space) {
        None => Err(TraceError::AddressTooLarge),
        Some(address) => {
            if outcome == TAKEN {
                Ok((address, true))
            } else if outcome == NOT_TAKEN {
                Ok((address, false))
            } else {
                Err(TraceError::InvalidOutcome)
            }
        },
    }
}

} // verus!
