//! Decimal numbers in text: reading them as `i16::from_str` does, and writing them.
use vstd::prelude::*;
use vstd::string::StrSliceExecFns;

verus! {

pub open spec fn is_digit(c: char) -> bool {
    '0' <= c && c <= '9'
}

pub open spec fn digit_value(c: char) -> int {
    c as int - '0' as int
}

pub open spec fn all_digits(s: Seq<char>) -> bool {
    forall|i: int| 0 <= i < s.len() ==> is_digit(#[trigger] s[i])
}

/// The value of a run of decimal digits.
pub open spec fn digits_value(s: Seq<char>) -> int
    decreases s.len(),
{
    if s.len() == 0 {
        0
    } else {
        10 * digits_value(s.drop_last()) + digit_value(s.last())
    }
}

/// What `i16::from_str` accepts: an optional `+` or `-` followed by at least
/// one decimal digit, with a value in the `i16` range.
pub open spec fn parse_i16_spec(s: Seq<char>) -> Option<int> {
    let signed = s.len() > 0 && (s[0] == '-' || s[0] == '+');
    let body = if signed {
        s.subrange(1, s.len() as int)
    } else {
        s
    };
    let v = if s.len() > 0 && s[0] == '-' {
        -digits_value(body)
    } else {
        digits_value(body)
    };
    if body.len() > 0 && all_digits(body) && -0x8000 <= v < 0x8000 {
        Some(v)
    } else {
        None
    }
}

proof fn lemma_digits_bound(s: Seq<char>)
    requires
        all_digits(s),
    ensures
        0 <= digits_value(s),
        s.len() <= 1 ==> digits_value(s) < 10,
        s.len() <= 2 ==> digits_value(s) < 100,
        s.len() <= 3 ==> digits_value(s) < 1000,
        s.len() <= 4 ==> digits_value(s) < 10000,
    decreases s.len(),
{
    if s.len() > 0 {
        lemma_digits_bound(s.drop_last());
        assert(is_digit(s[s.len() - 1]));
    }
}

/// A number read from at most four characters has at most four digits.
pub proof fn lemma_short_parse_bound(s: Seq<char>)
    requires
        s.len() <= 4,
    ensures
        parse_i16_spec(s) matches Some(v) ==> -10000 < v < 10000,
{
    let signed = s.len() > 0 && (s[0] == '-' || s[0] == '+');
    let body = if signed {
        s.subrange(1, s.len() as int)
    } else {
        s
    };
    if body.len() > 0 && all_digits(body) {
        lemma_digits_bound(body);
    }
}

/// Reads characters `from .. to` of `s` (at most four) as a signed decimal, the
/// way `i16::from_str` does.
pub fn parse_i16_in(s: &str, from: usize, to: usize) -> (r: Option<i16>)
    requires
        from <= to <= s@.len(),
        to - from <= 4,
    ensures
        match parse_i16_spec(s@.subrange(from as int, to as int)) {
            Some(v) => r == Some(v as i16),
            None => r is None,
        },
{
    let ghost t = s@.subrange(from as int, to as int);
    if from == to {
        return None;
    }
    let first = s.get_char(from);
    assert(t[0] == first);
    let negative = first == '-';
    let start = if first == '-' || first == '+' {
        from + 1
    } else {
        from
    };
    let ghost body = s@.subrange(start as int, to as int);
    proof {
        if first == '-' || first == '+' {
            assert(body =~= t.subrange(1, t.len() as int));
        } else {
            assert(body =~= t);
        }
    }
    if start == to {
        return None;
    }
    let mut value: i32 = 0;
    let mut i = start;
    while i < to
        invariant
            start <= i <= to <= s@.len(),
            to - start <= 4,
            body == s@.subrange(start as int, to as int),
            t == s@.subrange(from as int, to as int),
            t.len() > 0,
            t[0] == first,
            negative == (first == '-'),
            body == (if t[0] == '-' || t[0] == '+' {
                t.subrange(1, t.len() as int)
            } else {
                t
            }),
            body.len() > 0,
            all_digits(s@.subrange(start as int, i as int)),
            value == digits_value(s@.subrange(start as int, i as int)),
            0 <= value < 10000,
        decreases to - i,
    {
        let c = s.get_char(i);
        if !('0' <= c && c <= '9') {
            proof {
                assert(body[i - start] == c);
                assert(!is_digit(c));
                assert(!all_digits(body));
            }
            return None;
        }
        proof {
            let prefix = s@.subrange(start as int, i + 1);
            assert(prefix.drop_last() =~= s@.subrange(start as int, i as int));
            assert(all_digits(prefix));
            lemma_digits_bound(prefix);
        }
        value = value * 10 + (c as u32 - '0' as u32) as i32;
        i += 1;
    }
    proof {
        assert(s@.subrange(start as int, to as int) =~= body);
    }
    if negative {
        Some((-value) as i16)
    } else {
        Some(value as i16)
    }
}

/// The character of decimal digit `d`.
pub open spec fn digit_char(d: int) -> char {
    seq!['0', '1', '2', '3', '4', '5', '6', '7', '8', '9'][d]
}

/// The decimal digits of `n`, without leading zeros.
pub open spec fn decimal(n: nat) -> Seq<char>
    decreases n,
{
    if n < 10 {
        seq![digit_char(n as int)]
    } else {
        decimal(n / 10).push(digit_char((n % 10) as int))
    }
}

/// Appends the decimal digits of `n`.
pub fn push_decimal(out: &mut Vec<char>, n: u32)
    ensures
        final(out)@ == old(out)@ + decimal(n as nat),
    decreases n,
{
    if n >= 10 {
        push_decimal(out, n / 10);
    }
    let d = n % 10;
    let c = if d == 0 {
        '0'
    } else if d == 1 {
        '1'
    } else if d == 2 {
        '2'
    } else if d == 3 {
        '3'
    } else if d == 4 {
        '4'
    } else if d == 5 {
        '5'
    } else if d == 6 {
        '6'
    } else if d == 7 {
        '7'
    } else if d == 8 {
        '8'
    } else {
        '9'
    };
    out.push(c);
    proof {
        if n >= 10 {
            assert(final(out)@ =~= old(out)@ + decimal(n as nat));
        } else {
            assert(final(out)@ =~= old(out)@ + decimal(n as nat));
        }
    }
}

/// Relies on std's `FromIterator<char>` for `String`: the string holds the
/// given characters in order.
#[verifier::external_body]
pub(crate) fn string_from_chars(chars: &Vec<char>) -> (r: String)
    ensures
        r@ == chars@,
{
    chars.iter().collect()
}

} // verus!
