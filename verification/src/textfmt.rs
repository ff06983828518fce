//! Decimal text formatting used by the segment encoders: plain decimals,
//! zero-padded fields, and the `HH:MM:SS.mmm` timestamp of WebVTT cues.
//!
//! Text is built in `Vec<char>` buffers; `chars_to_string` turns a finished
//! buffer into a `String`.

use vstd::prelude::*;

verus! {

/// The decimal digit character for `d` (which must be below ten).
pub open spec fn spec_digit(d: int) -> char {
    if d == 0 {
        '0'
    } else if d == 1 {
        '1'
    } else if d == 2 {
        '2'
    } else if d == 3 {
        '3'
    } else if d == 4 {
        '4'
    } else if d == 5 {
        '5'
    } else if d == 6 {
        '6'
    } else if d == 7 {
        '7'
    } else if d == 8 {
        '8'
    } else {
        '9'
    }
}

/// The usual decimal rendering of `n`, without padding or sign.
pub open spec fn spec_decimal(n: int) -> Seq<char>
    decreases n,
{
    if n < 10 {
        seq![spec_digit(n)]
    } else {
        spec_decimal(n / 10) + seq![spec_digit(n % 10)]
    }
}

/// `n` rendered with at least two digits, as `{:02}` formatting does.
pub open spec fn spec_pad2(n: int) -> Seq<char> {
    if n < 10 {
        seq!['0'] + spec_decimal(n)
    } else {
        spec_decimal(n)
    }
}

/// `n` (below 1000) rendered with exactly three digits.
pub open spec fn spec_pad3(n: int) -> Seq<char> {
    seq![spec_digit(n / 100), spec_digit((n / 10) % 10), spec_digit(n % 10)]
}

/// A duration of `ms` milliseconds as a WebVTT timestamp `HH:MM:SS.mmm`,
/// with hours growing past two digits when needed.
pub open spec fn spec_timestamp(ms: int) -> Seq<char> {
    spec_pad2(ms / 3600000) + seq![':'] + spec_pad2((ms / 60000) % 60) + seq![':'] + spec_pad2(
        (ms / 1000) % 60,
    ) + seq!['.'] + spec_pad3(ms % 1000)
}

/// Whether `c` is a decimal digit character.
pub open spec fn spec_is_digit(c: char) -> bool {
    c == '0' || c == '1' || c == '2' || c == '3' || c == '4' || c == '5' || c == '6' || c == '7'
        || c == '8' || c == '9'
}

/// Whether `c` can appear in a timestamp: a digit, `:` or `.`.
pub open spec fn spec_is_time_char(c: char) -> bool {
    spec_is_digit(c) || c == ':' || c == '.'
}

/// Every character of a decimal rendering is a digit.
pub proof fn lemma_decimal_digits(n: int)
    ensures
        spec_decimal(n).len() >= 1,
        forall|j: int|
            0 <= j < spec_decimal(n).len() ==> spec_is_digit(#[trigger] spec_decimal(n)[j]),
    decreases n,
{
    if n >= 10 {
        lemma_decimal_digits(n / 10);
    }
}

/// Every character of a padded field is a digit.
pub proof fn lemma_pad2_digits(n: int)
    ensures
        spec_pad2(n).len() >= 2,
        forall|j: int| 0 <= j < spec_pad2(n).len() ==> spec_is_digit(#[trigger] spec_pad2(n)[j]),
{
    lemma_decimal_digits(n);
    if n >= 10 {
        lemma_decimal_digits(n / 10);
        assert(spec_decimal(n) == spec_decimal(n / 10) + seq![spec_digit(n % 10)]);
    }
}

/// Every character of a timestamp is a digit, `:` or `.`, and a timestamp
/// is never empty.
pub proof fn lemma_timestamp_chars(ms: int)
    ensures
        spec_timestamp(ms).len() >= 12,
        forall|j: int|
            0 <= j < spec_timestamp(ms).len() ==> spec_is_time_char(#[trigger] spec_timestamp(ms)[j]),
{
    lemma_pad2_digits(ms / 3600000);
    lemma_pad2_digits((ms / 60000) % 60);
    lemma_pad2_digits((ms / 1000) % 60);
    assert(spec_pad3(ms % 1000).len() == 3);
    assert forall|j: int| 0 <= j < spec_timestamp(ms).len() implies spec_is_time_char(
        #[trigger] spec_timestamp(ms)[j],
    ) by {
        let h = spec_pad2(ms / 3600000);
        let m = spec_pad2((ms / 60000) % 60);
        let s = spec_pad2((ms / 1000) % 60);
        let f = spec_pad3(ms % 1000);
        assert(spec_timestamp(ms) == h + seq![':'] + m + seq![':'] + s + seq!['.'] + f);
    }
}

/// Append the digit character for `d`.
pub fn push_digit(out: &mut Vec<char>, d: u64)
    requires
        d < 10,
    ensures
        final(out)@ == old(out)@ + seq![spec_digit(d as int)],
{
    let c: char = if d == 0 {
        '0'
    } else if d == 1 {
        '1'
    } else if d == 2 {
        '2'
    } else if d == 3 {
        '3'
    } else if d == 4 {
        '4'
    } else if d == 5 {
        '5'
    } else if d == 6 {
        '6'
    } else if d == 7 {
        '7'
    } else if d == 8 {
        '8'
    } else {
        '9'
    };
    out.push(c);
    proof {
        assert(final(out)@ =~= old(out)@ + seq![spec_digit(d as int)]);
    }
}

/// Append the decimal rendering of `n`.
pub fn push_decimal(out: &mut Vec<char>, n: u64)
    ensures
        final(out)@ == old(out)@ + spec_decimal(n as int),
    decreases n,
{
    if n >= 10 {
        push_decimal(out, n / 10);
    }
    push_digit(out, n % 10);
    proof {
        if n < 10 {
            assert(spec_decimal(n as int) == seq![spec_digit(n as int)]);
        }
        assert(final(out)@ =~= old(out)@ + spec_decimal(n as int));
    }
}

/// Append `n` with at least two digits.
pub fn push_pad2(out: &mut Vec<char>, n: u64)
    ensures
        final(out)@ == old(out)@ + spec_pad2(n as int),
{
    if n < 10 {
        out.push('0');
    }
    push_decimal(out, n);
    proof {
        assert(final(out)@ =~= old(out)@ + spec_pad2(n as int));
    }
}

/// Append `n` (below 1000) as exactly three digits.
pub fn push_pad3(out: &mut Vec<char>, n: u64)
    requires
        n < 1000,
    ensures
        final(out)@ == old(out)@ + spec_pad3(n as int),
{
    push_digit(out, n / 100);
    push_digit(out, (n / 10) % 10);
    push_digit(out, n % 10);
    proof {
        assert(final(out)@ =~= old(out)@ + spec_pad3(n as int));
    }
}

/// Append the WebVTT timestamp for a duration of `ms` milliseconds.
pub fn push_timestamp(out: &mut Vec<char>, ms: u64)
    ensures
        final(out)@ == old(out)@ + spec_timestamp(ms as int),
{
    push_pad2(out, ms / 3600000);
    out.push(':');
    push_pad2(out, (ms / 60000) % 60);
    out.push(':');
    push_pad2(out, (ms / 1000) % 60);
    out.push('.');
    push_pad3(out, ms % 1000);
    proof {
        assert(final(out)@ =~= old(out)@ + spec_timestamp(ms as int));
    }
}

/// A duration of `ms` milliseconds as a `HH:MM:SS.mmm` string.
pub fn get_formatted_timestamp(ms: u64) -> (r: String)
    ensures
        r@ == spec_timestamp(ms as int),
{
    let mut out: Vec<char> = Vec::new();
    push_timestamp(&mut out, ms);
    proof {
        assert(out@ =~= spec_timestamp(ms as int));
    }
    chars_to_string(&out)
}

/// Append every character of `s`.
pub fn push_str_chars(out: &mut Vec<char>, s: &str)
    ensures
        final(out)@ == old(out)@ + s@,
{
    let n: usize = s.unicode_len();
    let mut i: usize = 0;
    while i < n
        invariant
            n == s@.len(),
            0 <= i <= n,
            out@ == old(out)@ + s@.subrange(0, i as int),
        decreases n - i,
    {
        out.push(s.get_char(i));
        proof {
            assert(old(out)@ + s@.subrange(0, i + 1) =~= (old(out)@ + s@.subrange(0, i as int)).push(
                s@[i as int],
            ));
        }
        i = i + 1;
    }
    proof {
        assert(s@.subrange(0, n as int) =~= s@);
    }
}

/// Relies on `String`'s `FromIterator<char>`: collecting characters yields
/// the string of exactly those characters, in order.
#[verifier::external_body]
pub fn chars_to_string(chars: &Vec<char>) -> (r: String)
    ensures
        r@ == chars@,
{
    chars.iter().collect()
}

} // verus!
