//! Text formatting and counting helpers for presenting records.

use vstd::prelude::*;
use crate::run::{RunTime, NANOS_PER_SEC};

verus! {

/// The decimal digit character for `d`.
pub open spec fn digit_char(d: nat) -> char {
    if d == 0 {
        '0'
    } else if d == 1 {
        '1'
    } else if d == 2 {
        '2'
    } else if d == 3 {
        '3'
    } else if d == 4 {
        '4'
    } else if d == 5 {
        '5'
    } else if d == 6 {
        '6'
    } else if d == 7 {
        '7'
    } else if d == 8 {
        '8'
    } else {
        '9'
    }
}

/// The decimal digits of `n`, most significant first.
pub open spec fn dec_digits(n: nat) -> Seq<char>
    decreases n,
{
    if n < 10 {
        seq![digit_char(n)]
    } else {
        dec_digits(n / 10).push(digit_char(n % 10))
    }
}

/// `n` in decimal, zero-padded to two places.
pub open spec fn pad2(n: nat) -> Seq<char> {
    if n < 10 {
        seq!['0'] + dec_digits(n)
    } else {
        dec_digits(n)
    }
}

/// `n` in decimal, zero-padded to three places.
pub open spec fn pad3(n: nat) -> Seq<char> {
    if n < 100 {
        seq!['0'] + pad2(n)
    } else {
        dec_digits(n)
    }
}

/// `n` in decimal, zero-padded to six places.
pub open spec fn pad6(n: nat) -> Seq<char> {
    if n < 1000 {
        seq!['0', '0', '0'] + pad3(n)
    } else if n < 10_000 {
        seq!['0', '0'] + dec_digits(n)
    } else if n < 100_000 {
        seq!['0'] + dec_digits(n)
    } else {
        dec_digits(n)
    }
}

/// `n` in decimal, zero-padded to nine places.
pub open spec fn pad9(n: nat) -> Seq<char> {
    if n < 1_000_000 {
        seq!['0', '0', '0'] + pad6(n)
    } else if n < 10_000_000 {
        seq!['0', '0'] + dec_digits(n)
    } else if n < 100_000_000 {
        seq!['0'] + dec_digits(n)
    } else {
        dec_digits(n)
    }
}

/// The whole-second part of a formatted duration: hours, minutes and seconds
/// with their units once the duration is long enough, bare seconds below one
/// minute.
pub open spec fn sec_text(secs: nat) -> Seq<char> {
    if secs >= 3600 {
        dec_digits(secs / 3600) + seq!['h', ' '] + pad2((secs % 3600) / 60) + seq!['m', ' ']
            + pad2(secs % 60)
    } else if secs >= 60 {
        dec_digits(secs / 60) + seq!['m', ' '] + pad2(secs % 60)
    } else {
        dec_digits(secs)
    }
}

/// The sub-second part: the shortest of milli-, micro- or nanosecond
/// precision that loses nothing, empty for a whole number of seconds.
pub open spec fn frac_text(nanos: nat) -> Seq<char> {
    if nanos == 0 {
        Seq::empty()
    } else if nanos % 1_000_000 == 0 {
        seq!['.'] + pad3(nanos / 1_000_000)
    } else if nanos % 1000 == 0 {
        seq!['.'] + pad6(nanos / 1000)
    } else {
        seq!['.'] + pad9(nanos)
    }
}

/// The full text of a duration, `0s` for the zero duration.
pub open spec fn duration_text(secs: nat, nanos: nat) -> Seq<char> {
    if secs == 0 && nanos == 0 {
        seq!['0', 's']
    } else {
        sec_text(secs) + frac_text(nanos) + seq!['s']
    }
}

/// Append one decimal digit.
fn push_digit(out: &mut String, d: u64)
    requires
        d < 10,
    ensures
        final(out)@ == old(out)@ + seq![digit_char(d as nat)],
{
    proof {
        reveal_strlit("0");
        reveal_strlit("1");
        reveal_strlit("2");
        reveal_strlit("3");
        reveal_strlit("4");
        reveal_strlit("5");
        reveal_strlit("6");
        reveal_strlit("7");
        reveal_strlit("8");
        reveal_strlit("9");
    }
    if d == 0 {
        out.append("0");
    } else if d == 1 {
        out.append("1");
    } else if d == 2 {
        out.append("2");
    } else if d == 3 {
        out.append("3");
    } else if d == 4 {
        out.append("4");
    } else if d == 5 {
        out.append("5");
    } else if d == 6 {
        out.append("6");
    } else if d == 7 {
        out.append("7");
    } else if d == 8 {
        out.append("8");
    } else {
        out.append("9");
    }
    proof {
        assert(final(out)@ =~= old(out)@ + seq![digit_char(d as nat)]);
    }
}

/// Append `n` in decimal.
fn push_number(out: &mut String, n: u64)
    ensures
        final(out)@ == old(out)@ + dec_digits(n as nat),
    decreases n,
{
    if n >= 10 {
        push_number(out, n / 10);
    }
    push_digit(out, n % 10);
    proof {
        if n >= 10 {
            assert(final(out)@ =~= old(out)@ + dec_digits(n as nat));
        } else {
            assert(final(out)@ =~= old(out)@ + dec_digits(n as nat));
        }
    }
}

/// Append `n` zero-padded to two places.
fn push_pad2(out: &mut String, n: u64)
    requires
        n < 100,
    ensures
        final(out)@ == old(out)@ + pad2(n as nat),
{
    proof {
        reveal_strlit("0");
    }
    if n < 10 {
        out.append("0");
    }
    push_number(out, n);
    proof {
        assert(final(out)@ =~= old(out)@ + pad2(n as nat));
    }
}

/// Append `n` zero-padded to three places.
fn push_pad3(out: &mut String, n: u64)
    requires
        n < 1000,
    ensures
        final(out)@ == old(out)@ + pad3(n as nat),
{
    proof {
        reveal_strlit("0");
    }
    if n < 100 {
        out.append("0");
        push_pad2(out, n);
    } else {
        push_number(out, n);
    }
    proof {
        assert(final(out)@ =~= old(out)@ + pad3(n as nat));
    }
}

/// Append `n` zero-padded to six places.
fn push_pad6(out: &mut String, n: u64)
    requires
        n < 1_000_000,
    ensures
        final(out)@ == old(out)@ + pad6(n as nat),
{
    proof {
        reveal_strlit("000");
        reveal_strlit("00");
        reveal_strlit("0");
    }
    if n < 1000 {
        out.append("000");
        push_pad3(out, n);
    } else if n < 10_000 {
        out.append("00");
        push_number(out, n);
    } else if n < 100_000 {
        out.append("0");
        push_number(out, n);
    } else {
        push_number(out, n);
    }
    proof {
        assert(final(out)@ =~= old(out)@ + pad6(n as nat));
    }
}

/// Append `n` zero-padded to nine places.
fn push_pad9(out: &mut String, n: u64)
    requires
        n < NANOS_PER_SEC,
    ensures
        final(out)@ == old(out)@ + pad9(n as nat),
{
    proof {
        reveal_strlit("00");
        reveal_strlit("0");
    }
    if n < 1_000_000 {
        push_pad6_prefixed(out, n);
    } else if n < 10_000_000 {
        out.append("00");
        push_number(out, n);
    } else if n < 100_000_000 {
        out.append("0");
        push_number(out, n);
    } else {
        push_number(out, n);
    }
    proof {
        assert(final(out)@ =~= old(out)@ + pad9(n as nat));
    }
}

/// Append three zeros and then `n` zero-padded to six places.
fn push_pad6_prefixed(out: &mut String, n: u64)
    requires
        n < 1_000_000,
    ensures
        final(out)@ == old(out)@ + seq!['0', '0', '0'] + pad6(n as nat),
{
    proof {
        reveal_strlit("000");
    }
    out.append("000");
    push_pad6(out, n);
    proof {
        assert(final(out)@ =~= old(out)@ + seq!['0', '0', '0'] + pad6(n as nat));
    }
}

/// Format a duration the way the menu shows it: `0s` for zero, hours and
/// minutes with two-digit fields once they appear, and the shortest
/// lossless sub-second precision (`1h 02m 03s`, `2m 05s`, `45.123s`).
pub fn format_duration(duration: RunTime) -> (r: String)
    requires
        duration.wf(),
    ensures
        r@ == duration_text(duration.secs as nat, duration.nanos as nat),
{
    proof {
        reveal_strlit("0s");
        reveal_strlit("h ");
        reveal_strlit("m ");
        reveal_strlit(".");
        reveal_strlit("s");
    }
    let mut out = String::new();
    if duration.secs == 0 && duration.nanos == 0 {
        out.append("0s");
        proof {
            assert(out@ =~= duration_text(0, 0));
        }
        return out;
    }
    let secs = duration.secs;
    if secs >= 3600 {
        push_number(&mut out, secs / 3600);
        out.append("h ");
        push_pad2(&mut out, (secs % 3600) / 60);
        out.append("m ");
        push_pad2(&mut out, secs % 60);
    } else if secs >= 60 {
        push_number(&mut out, secs / 60);
        out.append("m ");
        push_pad2(&mut out, secs % 60);
    } else {
        push_number(&mut out, secs);
    }
    proof {
        assert(out@ =~= sec_text(secs as nat));
    }
    let nanos = duration.nanos as u64;
    if nanos > 0 {
        if nanos % 1_000_000 == 0 {
            out.append(".");
            push_pad3(&mut out, nanos / 1_000_000);
        } else if nanos % 1000 == 0 {
            out.append(".");
            push_pad6(&mut out, nanos / 1000);
        } else {
            out.append(".");
            push_pad9(&mut out, nanos);
        }
    }
    proof {
        assert(out@ =~= sec_text(secs as nat) + frac_text(duration.nanos as nat));
    }
    out.append("s");
    proof {
        assert(out@ =~= duration_text(duration.secs as nat, duration.nanos as nat));
    }
    out
}

/// The items joined with commas, `item0, item1, …, itemN`.
pub open spec fn comma_join(items: Seq<Seq<char>>) -> Seq<char>
    decreases items.len(),
{
    if items.len() <= 1 {
        if items.len() == 0 {
            Seq::empty()
        } else {
            items[0]
        }
    } else {
        comma_join(items.drop_last()) + seq![',', ' '] + items.last()
    }
}

/// The items joined as natural-language prose: nothing for no items, the
/// item alone for one, `a and b` for two, `a, b, and c` beyond.
pub open spec fn natjoin_text(items: Seq<Seq<char>>) -> Option<Seq<char>> {
    if items.len() == 0 {
        None
    } else if items.len() == 1 {
        Some(items[0])
    } else if items.len() == 2 {
        Some(items[0] + seq![' ', 'a', 'n', 'd', ' '] + items[1])
    } else {
        Some(comma_join(items.drop_last()) + seq![',', ' ', 'a', 'n', 'd', ' '] + items.last())
    }
}

/// Join items as natural-language prose; see [`natjoin_text`].
pub fn natjoin(items: &Vec<String>) -> (r: Option<String>)
    ensures
        match r {
            Some(s) => natjoin_text(items@.map_values(|s: String| s@)) == Some(s@),
            None => natjoin_text(items@.map_values(|s: String| s@)) is None,
        },
{
    proof {
        reveal_strlit(" and ");
        reveal_strlit(", and ");
        reveal_strlit(", ");
    }
    let ghost iv = items@.map_values(|s: String| s@);
    if items.len() == 0 {
        return None;
    }
    if items.len() == 1 {
        let mut out = String::new();
        out.append(items[0].as_str());
        proof {
            assert(out@ =~= iv[0]);
        }
        return Some(out);
    }
    if items.len() == 2 {
        let mut out = String::new();
        out.append(items[0].as_str());
        out.append(" and ");
        out.append(items[1].as_str());
        proof {
            assert(out@ =~= iv[0] + seq![' ', 'a', 'n', 'd', ' '] + iv[1]);
        }
        return Some(out);
    }
    let mut out = String::new();
    out.append(items[0].as_str());
    proof {
        assert(out@ =~= comma_join(iv.take(1)));
    }
    let mut i: usize = 1;
    while i < items.len() - 1
        invariant
            1 <= i <= items.len() - 1,
            items.len() >= 3,
            out@ == comma_join(iv.take(i as int)),
        decreases items.len() - i,
    {
        out.append(", ");
        out.append(items[i].as_str());
        proof {
            assert(iv.take(i + 1 as int).drop_last() =~= iv.take(i as int));
            assert(iv.take(i + 1 as int).last() == iv[i as int]);
            assert(out@ =~= comma_join(iv.take(i + 1 as int)));
        }
        i = i + 1;
    }
    out.append(", and ");
    out.append(items[items.len() - 1].as_str());
    proof {
        assert(iv.take(iv.len() - 1) =~= iv.drop_last());
        assert(out@ =~= comma_join(iv.drop_last()) + seq![',', ' ', 'a', 'n', 'd', ' ']
            + iv.last());
    }
    Some(out)
}

/// Join items as prose, or fall back to the given text when there are none.
pub fn natjoin_fallback(items: &Vec<String>, fallback: &str) -> (r: String)
    ensures
        match natjoin_text(items@.map_values(|s: String| s@)) {
            Some(t) => r@ == t,
            None => r@ == fallback@,
        },
{
    match natjoin(items) {
        Some(s) => s,
        None => {
            let mut out = String::new();
            out.append(fallback);
            proof {
                assert(out@ =~= fallback@);
            }
            out
        },
    }
}

/// Add two optional counts; an unknown on either side makes the total
/// unknown.
pub fn incr_by(value: Option<usize>, amount: Option<usize>) -> (r: Option<usize>)
    requires
        value matches Some(v) && amount matches Some(a) ==> v + a <= usize::MAX,
    ensures
        match value {
            Some(v) => match amount {
                Some(a) => r == Some((v + a) as usize),
                None => r is None,
            },
            None => r is None,
        },
{
    match (value, amount) {
        (Some(v), Some(a)) => Some(v + a),
        _ => None,
    }
}

/// Count one more item; an unknown count stays unknown.
pub fn incr(value: Option<usize>) -> (r: Option<usize>)
    requires
        value matches Some(v) ==> v < usize::MAX,
    ensures
        match value {
            Some(v) => r == Some((v + 1) as usize),
            None => r is None,
        },
{
    match value {
        Some(v) => Some(v + 1),
        None => None,
    }
}

} // verus!
