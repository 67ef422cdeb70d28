//! Decimal integer syntax: an optional `+` or `-` sign followed by one or
//! more ASCII digits, whose value must fit in an `i64`.
use vstd::prelude::*;

verus! {

/// `c` is one of the ASCII digits `0` to `9`.
pub open spec fn is_decimal_digit(c: char) -> bool {
    '0' <= c && c <= '9'
}

/// The value of a run of decimal digits, most significant first.
pub open spec fn digit_run_value(s: Seq<char>) -> int
    decreases s.len(),
{
    if s.len() == 0 {
        0
    } else {
        digit_run_value(s.drop_last()) * 10 + (s.last() as int - '0' as int)
    }
}

/// The characters after the sign, if any.
pub open spec fn unsigned_part(s: Seq<char>) -> Seq<char> {
    if s.len() > 0 && (s[0] == '-' || s[0] == '+') {
        s.skip(1)
    } else {
        s
    }
}

/// What reading `s` as a decimal `i64` gives: `None` when `s` is not an
/// optionally signed non-empty run of digits, or when its value does not fit.
pub open spec fn spec_parse_i64(s: Seq<char>) -> Option<i64> {
    let body = unsigned_part(s);
    if body.len() > 0 && (forall|i: int| 0 <= i < body.len() ==> #[trigger] is_decimal_digit(body[i])) {
        let v = if s[0] == '-' {
            -digit_run_value(body)
        } else {
            digit_run_value(body)
        };
        if i64::MIN <= v <= i64::MAX {
            Some(v as i64)
        } else {
            None
        }
    } else {
        None
    }
}

/// A run of digits is worth at least as much as any of its prefixes.
proof fn lemma_prefix_value_le(s: Seq<char>, k: int)
    requires
        0 <= k <= s.len(),
        forall|i: int| 0 <= i < s.len() ==> #[trigger] is_decimal_digit(s[i]),
    ensures
        digit_run_value(s.take(k)) <= digit_run_value(s),
        0 <= digit_run_value(s),
    decreases s.len(),
{
    if s.len() == 0 {
        assert(s.take(k) =~= s);
    } else {
        let t = s.drop_last();
        assert forall|i: int| 0 <= i < t.len() implies #[trigger] is_decimal_digit(t[i]) by {
            assert(t[i] == s[i]);
        }
        assert(is_decimal_digit(s[s.len() - 1]));
        if k == s.len() {
            assert(s.take(k) =~= s);
            lemma_prefix_value_le(t, 0);
        } else {
            assert(t.take(k) =~= s.take(k));
            lemma_prefix_value_le(t, k);
        }
    }
}

/// Reads a decimal `i64` the way `str::parse::<i64>` documents it: an optional
/// sign, then one or more ASCII digits, in range.
pub fn parse_i64(s: &str) -> (r: Option<i64>)
    ensures
        r == spec_parse_i64(s@),
{
    let n = s.unicode_len();
    if n == 0 {
        return None;
    }
    let c0 = s.get_char(0);
    let start: usize = if c0 == '-' || c0 == '+' {
        1
    } else {
        0
    };
    let ghost body = unsigned_part(s@);
    assert(body =~= s@.subrange(start as int, n as int));
    if start == n {
        return None;
    }
    // magnitude of the digits read so far; never above 2^63
    let mut acc: u64 = 0;
    let mut i: usize = start;
    while i < n
        invariant
            start <= i <= n,
            n == s@.len(),
            start < n,
            body == s@.subrange(start as int, n as int),
            body == unsigned_part(s@),
            forall|j: int| start <= j < i ==> #[trigger] is_decimal_digit(s@[j]),
            acc == digit_run_value(s@.subrange(start as int, i as int)),
            acc <= 9223372036854775808u64,
        decreases n - i,
    {
        let c = s.get_char(i);
        assert(body[i - start] == s@[i as int]);
        if !('0' <= c && c <= '9') {
            assert(!is_decimal_digit(body[i - start]));
            return None;
        }
        let d: u64 = (c as u32 - '0' as u32) as u64;
        let ghost prefix = s@.subrange(start as int, i + 1);
        assert(prefix.drop_last() =~= s@.subrange(start as int, i as int));
        assert(prefix.last() == c);
        assert(d == c as int - '0' as int);
        assert(digit_run_value(prefix) == acc * 10 + d);
        if acc > 922337203685477580u64 || (acc == 922337203685477580u64 && d > 8) {
            proof {
                if forall|j: int| 0 <= j < body.len() ==> #[trigger] is_decimal_digit(body[j]) {
                    assert(body.take(i + 1 - start) =~= prefix);
                    lemma_prefix_value_le(body, i + 1 - start);
                    assert(digit_run_value(body) > 9223372036854775808);
                }
            }
            return None;
        }
        acc = acc * 10 + d;
        i = i + 1;
    }
    assert(s@.subrange(start as int, n as int) =~= body);
    assert forall|j: int| 0 <= j < body.len() implies #[trigger] is_decimal_digit(body[j]) by {
        assert(body[j] == s@[start + j]);
    }
    if c0 == '-' {
        if acc == 9223372036854775808u64 {
            Some(i64::MIN)
        } else {
            Some(-(acc as i64))
        }
    } else if acc > 9223372036854775807u64 {
        None
    } else {
        Some(acc as i64)
    }
}

/// A non-empty run of digits reads as its value, and with a leading `-` as
/// the negated value, or with a leading `+` as the value itself, whenever that
/// value fits in an `i64`; a word with any other character after its sign, or
/// with nothing after it, does not read as a number.
pub proof fn law_decimal_words(s: Seq<char>)
    ensures
        s.len() > 0 && (forall|i: int| 0 <= i < s.len() ==> #[trigger] is_decimal_digit(s[i])) ==> {
            &&& digit_run_value(s) <= i64::MAX ==> spec_parse_i64(s) == Some(digit_run_value(s) as i64)
            &&& digit_run_value(s) <= i64::MAX ==> spec_parse_i64(seq!['+'] + s) == Some(
                digit_run_value(s) as i64,
            )
            &&& -digit_run_value(s) >= i64::MIN ==> spec_parse_i64(seq!['-'] + s) == Some(
                (-digit_run_value(s)) as i64,
            )
            &&& digit_run_value(s) > i64::MAX ==> spec_parse_i64(s) is None
        },
        (exists|i: int| 0 <= i < unsigned_part(s).len() && !is_decimal_digit(#[trigger] unsigned_part(s)[i]))
            ==> spec_parse_i64(s) is None,
        unsigned_part(s).len() == 0 ==> spec_parse_i64(s) is None,
{
    if s.len() > 0 && (forall|i: int| 0 <= i < s.len() ==> #[trigger] is_decimal_digit(s[i])) {
        assert(!is_decimal_digit('-') && !is_decimal_digit('+'));
        assert(s[0] != '-' && s[0] != '+') by {
            assert(is_decimal_digit(s[0]));
        }
        assert(unsigned_part(s) == s);
        assert((seq!['+'] + s).skip(1) =~= s);
        assert((seq!['-'] + s).skip(1) =~= s);
        assert((seq!['+'] + s)[0] == '+');
        assert((seq!['-'] + s)[0] == '-');
        lemma_prefix_value_le(s, 0);
    }
}

} // verus!
