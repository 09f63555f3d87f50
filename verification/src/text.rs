//! Text helpers: decimal and hexadecimal formatting, and character classes.
use vstd::prelude::*;
use vstd::string::StrSliceExecFns;

verus! {

/// `String::push`: appends one character.
#[verifier::external_body]
pub(crate) fn push_char(s: &mut String, c: char)
    ensures
        final(s)@ == old(s)@.push(c),
{
    s.push(c)
}

/// Unicode "alphanumeric" class of `char::is_alphanumeric` (alphabetic or numeric).
pub uninterp spec fn unicode_alphanumeric(c: char) -> bool;

/// ASCII letters and digits.
pub open spec fn ascii_alphanumeric(c: char) -> bool {
    ('a' <= c && c <= 'z') || ('A' <= c && c <= 'Z') || ('0' <= c && c <= '9')
}

/// `char::is_alphanumeric`: whether the character is alphabetic or numeric in Unicode.
/// Among ASCII characters exactly the letters and digits are.
#[verifier::external_body]
pub(crate) fn char_is_alphanumeric(c: char) -> (r: bool)
    ensures
        r == unicode_alphanumeric(c),
        (c as u32) < 128 ==> (r <==> ascii_alphanumeric(c)),
{
    c.is_alphanumeric()
}

/// The decimal digit character for `d < 10`.
pub open spec fn digit_char(d: nat) -> char {
    (48 + d) as char
}

/// The decimal digits of a natural number, most significant first, without leading zeros.
pub open spec fn decimal_digits(n: nat) -> Seq<char>
    decreases n,
{
    if n < 10 {
        seq![digit_char(n)]
    } else {
        decimal_digits(n / 10).push(digit_char(n % 10))
    }
}

/// The decimal representation of an integer (a minus sign in front of negative ones).
pub open spec fn decimal(v: int) -> Seq<char> {
    if v < 0 {
        seq!['-'] + decimal_digits((-v) as nat)
    } else {
        decimal_digits(v as nat)
    }
}

fn digit(d: u64) -> (c: char)
    requires
        d < 10,
    ensures
        c == digit_char(d as nat),
{
    let b: u8 = 48 + (d as u8);
    b as char
}

fn push_digits(s: &mut String, n: u64)
    ensures
        final(s)@ == old(s)@ + decimal_digits(n as nat),
    decreases n,
{
    if n >= 10 {
        push_digits(s, n / 10);
    }
    push_char(s, digit(n % 10));
    proof {
        if n >= 10 {
            assert(final(s)@ =~= old(s)@ + decimal_digits(n as nat));
        } else {
            assert(final(s)@ =~= old(s)@ + decimal_digits(n as nat));
        }
    }
}

/// Appends the decimal representation of `v`.
pub fn push_decimal(s: &mut String, v: i64)
    ensures
        final(s)@ == old(s)@ + decimal(v as int),
{
    if v < 0 {
        push_char(s, '-');
        let magnitude: u64 = (0i128 - v as i128) as u64;
        push_digits(s, magnitude);
        proof {
            assert(final(s)@ =~= old(s)@ + decimal(v as int));
        }
    } else {
        push_digits(s, v as u64);
    }
}

/// The decimal representation of `v` (what `to_string` gives for an integer).
pub fn decimal_string(v: i64) -> (s: String)
    ensures
        s@ == decimal(v as int),
{
    let mut s = String::new();
    push_decimal(&mut s, v);
    proof {
        assert(s@ =~= decimal(v as int));
    }
    s
}

/// Upper-case hexadecimal digit for `d < 16`.
pub open spec fn hex_char(d: nat) -> char {
    if d < 10 {
        (48 + d) as char
    } else {
        (55 + d) as char
    }
}

/// A byte as two upper-case hexadecimal digits.
pub open spec fn hex_byte(b: u8) -> Seq<char> {
    seq![hex_char((b / 16) as nat), hex_char((b % 16) as nat)]
}

fn hex_digit(d: u8) -> (c: char)
    requires
        d < 16,
    ensures
        c == hex_char(d as nat),
{
    if d < 10 {
        (48 + d) as char
    } else {
        (55 + d) as char
    }
}

/// Appends a byte as two upper-case hexadecimal digits.
pub fn push_hex_byte(s: &mut String, b: u8)
    ensures
        final(s)@ == old(s)@ + hex_byte(b),
{
    push_char(s, hex_digit(b / 16));
    push_char(s, hex_digit(b % 16));
    proof {
        assert(final(s)@ =~= old(s)@ + hex_byte(b));
    }
}

/// Every character is an ASCII decimal digit.
pub open spec fn all_digits(s: Seq<char>) -> bool {
    forall|i: int| 0 <= i < s.len() ==> '0' <= #[trigger] s[i] && s[i] <= '9'
}

/// The value of a string of decimal digits.
pub open spec fn digits_value(s: Seq<char>) -> int
    decreases s.len(),
{
    if s.len() == 0 {
        0
    } else {
        digits_value(s.drop_last()) * 10 + (s.last() as int - 48)
    }
}

/// What `str::parse::<i32>` gives: an optional sign (`+` or `-`) and at least
/// one decimal digit, whose value must fit an `i32`.
pub open spec fn spec_parse_i32(s: Seq<char>) -> Option<i32> {
    let negative = s.len() > 0 && s[0] == '-';
    let digits = if s.len() > 0 && (s[0] == '-' || s[0] == '+') {
        s.drop_first()
    } else {
        s
    };
    let value = if negative {
        -digits_value(digits)
    } else {
        digits_value(digits)
    };
    if digits.len() == 0 || !all_digits(digits) || value < i32::MIN || value > i32::MAX {
        None
    } else {
        Some(value as i32)
    }
}

proof fn lemma_digits_value_nonneg(s: Seq<char>)
    requires
        all_digits(s),
    ensures
        digits_value(s) >= 0,
    decreases s.len(),
{
    if s.len() > 0 {
        assert(all_digits(s.drop_last())) by {
            assert forall|i: int| 0 <= i < s.drop_last().len() implies '0' <= #[trigger] s.drop_last()[i]
                && s.drop_last()[i] <= '9' by {
                assert(s.drop_last()[i] == s[i]);
            }
        }
        lemma_digits_value_nonneg(s.drop_last());
        assert(s[s.len() - 1] == s.last());
    }
}

proof fn lemma_digits_value_grows(s: Seq<char>)
    requires
        all_digits(s),
        s.len() > 0,
    ensures
        digits_value(s) >= digits_value(s.drop_last()),
        all_digits(s.drop_last()),
{
    assert forall|i: int| 0 <= i < s.drop_last().len() implies '0' <= #[trigger] s.drop_last()[i]
        && s.drop_last()[i] <= '9' by {
        assert(s.drop_last()[i] == s[i]);
    }
    lemma_digits_value_nonneg(s.drop_last());
    assert(s[s.len() - 1] == s.last());
}

/// Parses a decimal `i32` (what `str::parse::<i32>` accepts).
pub fn parse_i32(text: &str) -> (value: Option<i32>)
    ensures
        value == spec_parse_i32(text@),
{
    let ghost s = text@;
    let n = text.unicode_len();
    if n == 0 {
        return None;
    }
    let first = text.get_char(0);
    let negative = first == '-';
    let start: usize = if first == '-' || first == '+' {
        1
    } else {
        0
    };
    let ghost digits = if s.len() > 0 && (s[0] == '-' || s[0] == '+') {
        s.drop_first()
    } else {
        s
    };
    if start == n {
        proof {
            assert(digits.len() == 0);
        }
        return None;
    }
    proof {
        assert(digits =~= s.subrange(start as int, n as int));
        assert(s.subrange(start as int, start as int).len() == 0);
    }
    let mut value: i64 = 0;
    let mut i: usize = start;
    while i < n
        invariant
            s == text@,
            n == s.len(),
            start <= i <= n,
            negative == (s.len() > 0 && s[0] == '-'),
            start < n,
            digits == s.subrange(start as int, n as int),
            digits == (if s.len() > 0 && (s[0] == '-' || s[0] == '+') {
                s.drop_first()
            } else {
                s
            }),
            all_digits(s.subrange(start as int, i as int)),
            value == digits_value(s.subrange(start as int, i as int)),
            0 <= value <= 2147483648,
        decreases n - i,
    {
        let c = text.get_char(i);
        if c < '0' || c > '9' {
            proof {
                assert(digits[i - start] == c);
                assert(!all_digits(digits));
            }
            return None;
        }
        let d = (c as u32 - 48) as i64;
        proof {
            assert(s.subrange(start as int, i + 1).drop_last() =~= s.subrange(start as int, i as int));
            assert(s.subrange(start as int, i + 1).last() == c);
            assert(all_digits(s.subrange(start as int, i + 1)));
        }
        let next = value * 10 + d;
        proof {
            assert(digits_value(s.subrange(start as int, i + 1)) == next);
        }
        if next > 2147483648 {
            proof {
                lemma_digits_bound(s.subrange(start as int, n as int), (i + 1 - start) as int);
                assert(s.subrange(start as int, n as int).take((i + 1 - start) as int) =~= s.subrange(start as int, i + 1));
                if all_digits(digits) {
                    assert(digits_value(digits) > 2147483648);
                }
            }
            return None;
        }
        value = next;
        i += 1;
    }
    proof {
        assert(s.subrange(start as int, n as int) =~= digits);
    }
    if negative {
        Some((0 - value) as i32)
    } else if value > 2147483647 {
        None
    } else {
        Some(value as i32)
    }
}

proof fn lemma_digits_bound(s: Seq<char>, k: int)
    requires
        0 <= k <= s.len(),
        all_digits(s.take(k)),
    ensures
        all_digits(s) ==> digits_value(s) >= digits_value(s.take(k)),
    decreases s.len() - k,
{
    if k < s.len() && all_digits(s) {
        assert(all_digits(s.take(k + 1))) by {
            assert forall|i: int| 0 <= i < s.take(k + 1).len() implies '0' <= #[trigger] s.take(
                k + 1,
            )[i] && s.take(k + 1)[i] <= '9' by {
                assert(s.take(k + 1)[i] == s[i]);
            }
        }
        lemma_digits_bound(s, k + 1);
        lemma_digits_value_grows(s.take(k + 1));
        assert(s.take(k + 1).drop_last() =~= s.take(k));
    } else if k == s.len() {
        assert(s.take(k) =~= s);
    }
}

/// What `str::parse::<u8>` gives: an optional `+` and at least one decimal
/// digit, whose value must be at most 255.
pub open spec fn spec_parse_u8(s: Seq<char>) -> Option<u8> {
    let digits = if s.len() > 0 && s[0] == '+' {
        s.drop_first()
    } else {
        s
    };
    if digits.len() == 0 || !all_digits(digits) || digits_value(digits) > 255 {
        None
    } else {
        Some(digits_value(digits) as u8)
    }
}

/// Parses a decimal `u8` (what `str::parse::<u8>` accepts).
pub fn parse_u8(text: &str) -> (value: Option<u8>)
    ensures
        value == spec_parse_u8(text@),
{
    let ghost s = text@;
    let n = text.unicode_len();
    if n == 0 {
        return None;
    }
    let start: usize = if text.get_char(0) == '+' {
        1
    } else {
        0
    };
    let ghost digits = if s.len() > 0 && s[0] == '+' {
        s.drop_first()
    } else {
        s
    };
    if start == n {
        proof {
            assert(digits.len() == 0);
        }
        return None;
    }
    proof {
        assert(digits =~= s.subrange(start as int, n as int));
        assert(s.subrange(start as int, start as int).len() == 0);
    }
    let mut value: u32 = 0;
    let mut i: usize = start;
    while i < n
        invariant
            s == text@,
            n == s.len(),
            start <= i <= n,
            start < n,
            digits == s.subrange(start as int, n as int),
            digits == (if s.len() > 0 && s[0] == '+' {
                s.drop_first()
            } else {
                s
            }),
            all_digits(s.subrange(start as int, i as int)),
            value == digits_value(s.subrange(start as int, i as int)),
            value <= 255,
        decreases n - i,
    {
        let c = text.get_char(i);
        if c < '0' || c > '9' {
            proof {
                assert(digits[i - start] == c);
                assert(!all_digits(digits));
            }
            return None;
        }
        let d = c as u32 - 48;
        proof {
            assert(s.subrange(start as int, i + 1).drop_last() =~= s.subrange(start as int, i as int));
            assert(s.subrange(start as int, i + 1).last() == c);
            assert(all_digits(s.subrange(start as int, i + 1)));
        }
        let next = value * 10 + d;
        proof {
            assert(digits_value(s.subrange(start as int, i + 1)) == next);
        }
        if next > 255 {
            proof {
                lemma_digits_bound(s.subrange(start as int, n as int), (i + 1 - start) as int);
                assert(s.subrange(start as int, n as int).take((i + 1 - start) as int) =~= s.subrange(
                    start as int,
                    i + 1,
                ));
                if all_digits(digits) {
                    assert(digits_value(digits) > 255);
                }
            }
            return None;
        }
        value = next;
        i += 1;
    }
    proof {
        assert(s.subrange(start as int, n as int) =~= digits);
    }
    Some(value as u8)
}

/// The parts of a text between its dots, in order (what `str::split('.')`
/// gives: one more part than there are dots, empty parts included).
pub open spec fn dot_parts(s: Seq<char>) -> Seq<Seq<char>>
    decreases s.len(),
{
    if s.len() == 0 {
        seq![Seq::empty()]
    } else {
        let parts = dot_parts(s.drop_last());
        if s.last() == '.' {
            parts.push(Seq::empty())
        } else {
            parts.update(parts.len() - 1, parts.last().push(s.last()))
        }
    }
}

proof fn lemma_dot_parts_nonempty(s: Seq<char>)
    ensures
        dot_parts(s).len() >= 1,
    decreases s.len(),
{
    if s.len() > 0 {
        lemma_dot_parts_nonempty(s.drop_last());
    }
}

/// Splits a text at its dots.
pub fn split_dots(text: &str) -> (parts: Vec<String>)
    ensures
        parts@.len() == dot_parts(text@).len(),
        forall|i: int| 0 <= i < parts@.len() ==> #[trigger] parts@[i]@ == dot_parts(text@)[i],
{
    let ghost s = text@;
    let n = text.unicode_len();
    let mut parts: Vec<String> = Vec::new();
    let mut current = String::new();
    let mut i: usize = 0;
    proof {
        assert(s.take(0) =~= Seq::<char>::empty());
    }
    while i < n
        invariant
            s == text@,
            n == s.len(),
            i <= n,
            parts@.len() + 1 == dot_parts(s.take(i as int)).len(),
            forall|k: int| 0 <= k < parts@.len() ==> #[trigger] parts@[k]@ == dot_parts(s.take(i as int))[k],
            current@ == dot_parts(s.take(i as int)).last(),
        decreases n - i,
    {
        let c = text.get_char(i);
        proof {
            assert(s.take(i + 1).drop_last() =~= s.take(i as int));
            assert(s.take(i + 1).last() == c);
            lemma_dot_parts_nonempty(s.take(i as int));
        }
        if c == '.' {
            let ghost before = parts@;
            parts.push(current);
            current = String::new();
            proof {
                assert forall|k: int| 0 <= k < parts@.len() implies #[trigger] parts@[k]@ == dot_parts(
                    s.take(i + 1),
                )[k] by {
                    if k < before.len() {
                        assert(parts@[k] == before[k]);
                    }
                }
            }
        } else {
            push_char(&mut current, c);
        }
        i += 1;
    }
    proof {
        assert(s.take(n as int) =~= s);
        lemma_dot_parts_nonempty(s);
    }
    let ghost before = parts@;
    parts.push(current);
    proof {
        assert forall|k: int| 0 <= k < parts@.len() implies #[trigger] parts@[k]@ == dot_parts(s)[k] by {
            if k < before.len() {
                assert(parts@[k] == before[k]);
            }
        }
    }
    parts
}

} // verus!
