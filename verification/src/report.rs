//! The text of the final report: decimal numbers, the misprediction rate,
//! the statistics section and the listing of every table slot.

use crate::table::{counter_at, BranchHistoryTable};
use vstd::arithmetic::power2::pow2;
use vstd::prelude::*;

verus! {

/// The character of the decimal digit `d`.
pub open spec fn digit_char(d: nat) -> char {
    (d + 48) as char
}

/// The decimal numeral of `n`, most significant digit first, without leading
/// zeros.
pub open spec fn decimal_digits(n: nat) -> Seq<char>
    decreases n,
{
    if n < 10 {
        seq![digit_char(n)]
    } else {
        decimal_digits(n / 10) + seq![digit_char(n % 10)]
    }
}

/// The share of mispredictions among all predictions in hundredths of a
/// percent, rounded to the nearest hundredth with halves going up. Meant for
/// `num > 0`.
pub open spec fn rate_hundredths(error: nat, num: nat) -> nat {
    (error * 20000 + num) / (2 * num)
}

/// The rate as the report shows it: `N/A` while nothing has been predicted,
/// and otherwise the percentage with exactly two decimals and a percent sign.
pub open spec fn rate_field(error: nat, num: nat) -> Seq<char> {
    if num == 0 {
        "N/A"@
    } else {
        let rate = rate_hundredths(error, num);
        decimal_digits(rate / 100) + "."@ + seq![digit_char(rate % 100 / 10)] + seq![
            digit_char(rate % 10),
        ] + "%"@
    }
}

/// The statistics section: its title and the three lines of totals.
pub open spec fn statistics_section(num: nat, error: nat) -> Seq<char> {
    "OUTPUT\n"@ + "number of predictions: "@ + decimal_digits(num) + "\n"@
        + "number of mispredictions: "@ + decimal_digits(error) + "\n"@ + "misprediction rate: "@
        + rate_field(error, num) + "\n"@
}

/// The line that lists one slot: its index, a space, its counter value.
pub open spec fn slot_line(index: nat, counter: nat) -> Seq<char> {
    decimal_digits(index) + " "@ + decimal_digits(counter) + "\n"@
}

/// The lines of the slots `0..count` of a table, in ascending order. A slot
/// that the table does not hold is listed with the default counter.
pub open spec fn contents_section(table: Map<usize, nat>, count: nat) -> Seq<char>
    decreases count,
{
    if count == 0 {
        Seq::empty()
    } else {
        contents_section(table, (count - 1) as nat) + slot_line(
            (count - 1) as nat,
            counter_at(table, (count - 1) as usize),
        )
    }
}

/// The whole report of a predictor over `2^bits` slots: the command section,
/// the statistics, the heading of the contents and one line per slot.
pub open spec fn report(
    command: Seq<char>,
    num: nat,
    error: nat,
    heading: Seq<char>,
    table: Map<usize, nat>,
    bits: nat,
) -> Seq<char> {
    command + statistics_section(num, error) + heading + contents_section(table, pow2(bits))
}

/// The decimal digit `d` as a text of one character.
fn digit_text(d: usize) -> (text: &'static str)
    requires
        d < 10,
    ensures
        text@ == seq![digit_char(d as nat)],
{
    proof {
        reveal_strlit("0");
        reveal_strlit("1");
        reveal_strlit("2");
        reveal_strlit("3");
        reveal_strlit("4");
        reveal_strlit("5");
        reveal_strlit("6");
        reveal_strlit("7");
        reveal_strlit("8");
        reveal_strlit("9");
    }
    let text = match d {
        0 => "0",
        1 => "1",
        2 => "2",
        3 => "3",
        4 => "4",
        5 => "5",
        6 => "6",
        7 => "7",
        8 => "8",
        _ => "9",
    };
    assert(text@ =~= seq![digit_char(d as nat)]);
    text
}

/// Writes `n` in decimal.
pub fn decimal_text(n: usize) -> (text: String)
    ensures
        text@ == decimal_digits(n as nat),
    decreases n,
{
    if n < 10 {
        String::from_str(digit_text(n))
    } else {
        let mut text = decimal_text(n / 10);
        text.append(digit_text(n % 10));
        text
    }
}

/// The misprediction rate in hundredths of a percent, rounded to the nearest
/// hundredth with halves going up; `None` while nothing has been predicted,
/// where no rate exists.
pub fn misprediction_rate(error: usize, num: usize) -> (rate: Option<usize>)
    requires
        error <= num,
    ensures
        num == 0 <==> rate is None,
        num > 0 ==> rate == Some(rate_hundredths(error as nat, num as nat) as usize),
        num > 0 ==> rate_hundredths(error as nat, num as nat) <= 10000,
{
    if num == 0 {
        None
    } else {
        let e: u128 = error as u128;
        let n: u128 = num as u128;
        let scaled: u128 = e * 20000 + n;
        let rate: u128 = scaled / (2 * n);
        assert(rate <= 10000) by (nonlinear_arith)
            requires
                rate == (e * 20000 + n) / (2 * n),
                e <= n,
                n > 0,
        ;
        Some(rate as usize)
    }
}

/// Writes the rate as the report shows it.
pub fn rate_text(error: usize, num: usize) -> (text: String)
    requires
        error <= num,
    ensures
        text@ == rate_field(error as nat, num as nat),
{
    match misprediction_rate(error, num) {
        None => String::from_str("N/A"),
        Some(rate) => {
            let mut text = decimal_text(rate / 100);
            text.append(".");
            text.append(digit_text(rate % 100 / 10));
            text.append(digit_text(rate % 10));
            text.append("%");
            text
        },
    }
}

/// Writes the statistics section.
pub fn statistics_text(num: usize, error: usize) -> (text: String)
    requires
        error <= num,
    ensures
        text@ == statistics_section(num as nat, error as nat),
{
    let mut text = String::from_str("OUTPUT\n");
    text.append("number of predictions: ");
    text.append(decimal_text(num).as_str());
    text.append("\n");
    text.append("number of mispredictions: ");
    text.append(decimal_text(error).as_str());
    text.append("\n");
    text.append("misprediction rate: ");
    text.append(rate_text(error, num).as_str());
    text.append("\n");
    text
}

/// Writes the line that lists one slot.
pub fn slot_text(index: usize, counter: u8) -> (text: String)
    ensures
        text@ == slot_line(index as nat, counter as nat),
{
    let mut text = decimal_text(index);
    text.append(" ");
    text.append(decimal_text(counter as usize).as_str());
    text.append("\n");
    text
}

/// Writes one line for every slot of a table of `2^bits` slots, in ascending
/// order. The table is only read: a slot that it does not hold is listed with
/// the default counter and stays absent.
pub fn contents_text(table: &BranchHistoryTable, bits: usize) -> (text: String)
    requires
        bits < usize::BITS,
    ensures
        text@ == contents_section(table@, pow2(bits as nat)),
{
    let slots = table.iterate_all(bits);
    let mut text = String::new();
    let mut done: usize = 0;
    while done < slots.len()
        invariant
            done <= slots@.len(),
            slots@.len() == pow2(bits as nat),
            forall|i: int|
                0 <= i < slots@.len() ==> (#[trigger] slots@[i]).0 == i && slots@[i].1@
                    == counter_at(table@, i as usize),
            text@ == contents_section(table@, done as nat),
        decreases slots@.len() - done,
    {
        let (index, counter) = slots[done];
        text.append(slot_text(index, counter.value()).as_str());
        done = done + 1;
    }
    text
}

} // verus!
