use crate::shared::DAY_SECS;
use vstd::prelude::*;
use vstd::string::StringSliceAdditionalSpecFns;

verus! {

/// Seconds since midnight at `hour:min:sec` on the clock, counted modulo
/// the day.
pub open spec fn clock_seconds(hour: int, min: int, sec: int) -> int {
    (hour * 3600 + min * 60 + sec) % (DAY_SECS as int)
}

/// Computes the seconds since midnight at `hour:min:sec` on the clock,
/// counted modulo the day, whatever the size of the three numbers.
pub fn day_seconds(hour: usize, min: usize, sec: usize) -> (t: usize)
    ensures
        t == clock_seconds(hour as int, min as int, sec as int),
        t < DAY_SECS,
{
    let total: u128 = (hour as u128) * 3600 + (min as u128) * 60 + (sec as u128);
    (total % 86400) as usize
}

/// Whether `b` is an ASCII digit.
pub open spec fn is_digit(b: u8) -> bool {
    48 <= b <= 57
}

/// The number that a run of ASCII digits writes in base ten.
pub open spec fn digits_value(s: Seq<u8>) -> nat
    decreases s.len(),
{
    if s.len() == 0 {
        0
    } else {
        digits_value(s.drop_last()) * 10 + (s.last() - 48) as nat
    }
}

/// The digits of a written number: the text without a leading plus sign.
pub open spec fn digits_of(s: Seq<u8>) -> Seq<u8> {
    if s.len() > 0 && s[0] == 43 {
        s.subrange(1, s.len() as int)
    } else {
        s
    }
}

/// The number that `s` writes, if it writes one: an optional plus sign and
/// then at least one ASCII digit and nothing else, with a value that a
/// `usize` holds.
pub open spec fn number_of(s: Seq<u8>) -> Option<usize> {
    let d = digits_of(s);
    if d.len() > 0 && (forall|i: int| 0 <= i < d.len() ==> is_digit(#[trigger] d[i]))
        && digits_value(d) <= usize::MAX {
        Some(digits_value(d) as usize)
    } else {
        None
    }
}

/// Whether the only colon of `s` stands at place `k`.
pub open spec fn only_colon_at(s: Seq<u8>, k: int) -> bool {
    &&& 0 <= k < s.len()
    &&& s[k] == 58
    &&& forall|j: int| 0 <= j < s.len() && j != k ==> #[trigger] s[j] != 58
}

/// The time of day that `s` writes as hours and minutes around a single
/// colon, in seconds since midnight and counted modulo the day; none if `s`
/// is not of that form.
pub open spec fn time_of_text(s: Seq<u8>) -> Option<usize> {
    if exists|k: int| only_colon_at(s, k) {
        let k = choose|k: int| only_colon_at(s, k);
        match (number_of(s.subrange(0, k)), number_of(s.subrange(k + 1, s.len() as int))) {
            (Some(hour), Some(min)) => Some(clock_seconds(hour as int, min as int, 0) as usize),
            _ => None,
        }
    } else {
        None
    }
}

/// A run of digits is worth at least as much as any of its beginnings.
proof fn lemma_digits_value_grows(s: Seq<u8>, k: int)
    requires
        0 <= k <= s.len(),
        forall|i: int| 0 <= i < s.len() ==> is_digit(#[trigger] s[i]),
    ensures
        digits_value(s.take(k)) <= digits_value(s),
    decreases s.len() - k,
{
    if k == s.len() {
        assert(s.take(k) =~= s);
    } else {
        lemma_digits_value_grows(s, k + 1);
        let longer = s.take(k + 1);
        assert(longer.drop_last() =~= s.take(k));
        assert(is_digit(s[k]));
        assert(longer.last() == s[k]);
    }
}

/// Reads the number that the bytes `from..to` of `text` write.
fn read_number(text: &[u8], from: usize, to: usize) -> (number: Option<usize>)
    requires
        from <= to <= text@.len(),
    ensures
        number == number_of(text@.subrange(from as int, to as int)),
{
    let ghost whole = text@.subrange(from as int, to as int);
    let start: usize = if from < to && text[from] == 43 {
        from + 1
    } else {
        from
    };
    let ghost digits = text@.subrange(start as int, to as int);
    assert(digits =~= digits_of(whole));
    if start == to {
        return None;
    }
    let mut value: usize = 0;
    let mut k: usize = start;
    assert(digits.take(0) =~= Seq::<u8>::empty());
    while k < to
        invariant
            from <= start <= k <= to <= text@.len(),
            digits == text@.subrange(start as int, to as int),
            digits == digits_of(text@.subrange(from as int, to as int)),
            forall|i: int| 0 <= i < k - start ==> is_digit(#[trigger] digits[i]),
            value == digits_value(digits.take(k - start)),
        decreases to - k,
    {
        let b = text[k];
        assert(digits[k - start] == b);
        if b < 48 || b > 57 {
            return None;
        }
        let digit: usize = (b - 48) as usize;
        proof {
            assert(digits.take(k - start + 1).drop_last() =~= digits.take(k - start));
            assert(digits.take(k - start + 1).last() == b);
        }
        if value > (usize::MAX - digit) / 10 {
            proof {
                assert(digits_value(digits.take(k - start + 1)) == value * 10 + digit);
                assert(value * 10 + digit > usize::MAX);
                if forall|i: int| 0 <= i < digits.len() ==> is_digit(#[trigger] digits[i]) {
                    lemma_digits_value_grows(digits, k - start + 1);
                }
            }
            return None;
        }
        value = value * 10 + digit;
        k += 1;
    }
    assert(digits.take(to - start) =~= digits);
    Some(value)
}

/// Reads the number that `t` writes in base ten, as the markers of a
/// timeline are written: an optional plus sign, then digits. Gives nothing
/// if `t` is of another form or the number is too large for a `usize`.
pub fn parse_number(t: &str) -> (number: Option<usize>)
    ensures
        number == number_of(t.spec_bytes()),
{
    let text = t.as_bytes();
    assert(text@.subrange(0, text@.len() as int) =~= text@);
    read_number(text, 0, text.len())
}

/// Reads a time of day written as hours and minutes around a single colon,
/// each an optional plus sign and decimal digits. Gives the seconds since
/// midnight, counted modulo the day, or nothing if the text is of another
/// form.
pub fn parse_time(t: &str) -> (time: Option<usize>)
    ensures
        time == time_of_text(t.spec_bytes()),
{
    let text = t.as_bytes();
    let mut colon: Option<usize> = None;
    let mut k: usize = 0;
    while k < text.len()
        invariant
            k <= text@.len(),
            text@ == t.spec_bytes(),
            colon matches Some(c) ==> only_colon_at(text@.take(k as int), c as int),
            colon is None ==> forall|j: int| 0 <= j < k ==> #[trigger] text@[j] != 58,
        decreases text@.len() - k,
    {
        if text[k] == 58 {
            if colon.is_some() {
                assert forall|c: int| !only_colon_at(text@, c) by {
                    let first = colon.unwrap() as int;
                    if only_colon_at(text@, c) {
                        if c != first {
                            assert(text@.take(k as int)[first] == 58);
                            assert(text@[first] != 58);
                        } else {
                            assert(text@[k as int] != 58);
                        }
                    }
                }
                return None;
            }
            colon = Some(k);
        }
        k += 1;
    }
    assert(text@.take(text@.len() as int) =~= text@);
    match colon {
        None => {
            assert forall|c: int| !only_colon_at(text@, c) by {}
            None
        },
        Some(c) => {
            proof {
                let chosen = choose|j: int| only_colon_at(text@, j);
                assert(only_colon_at(text@, c as int));
                assert(chosen == c);
            }
            match (read_number(text, 0, c), read_number(text, c + 1, text.len())) {
                (Some(hour), Some(min)) => Some(day_seconds(hour, min, 0)),
                _ => None,
            }
        },
    }
}

} // verus!
