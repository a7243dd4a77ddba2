//! Decimal numerals: formatting integers as text and reading them back, as
//! Rust's `Display` and `FromStr` for `i64` define them.
use vstd::prelude::*;
use vstd::string::StrSliceExecFns;

verus! {

/// The character for decimal digit `d`.
pub open spec fn digit_char(d: int) -> char {
    (48 + d) as char
}

pub open spec fn is_digit(c: char) -> bool {
    '0' <= c <= '9'
}

pub open spec fn digit_value(c: char) -> int {
    c as int - 48
}

/// The digits of a natural number, most significant first, without leading zeros.
pub open spec fn digits_of(n: nat) -> Seq<char>
    decreases n,
{
    if n < 10 {
        seq![digit_char(n as int)]
    } else {
        digits_of(n / 10).push(digit_char((n % 10) as int))
    }
}

/// An integer as `Display` writes it: a minus sign for negatives, then digits.
pub open spec fn decimal(v: int) -> Seq<char> {
    if v < 0 {
        seq!['-'] + digits_of((-v) as nat)
    } else {
        digits_of(v as nat)
    }
}

/// `s` padded on the left with `fill` to at least `width` characters.
pub open spec fn pad_left(s: Seq<char>, width: nat, fill: char) -> Seq<char> {
    if s.len() >= width {
        s
    } else {
        Seq::new((width - s.len()) as nat, |_i: int| fill) + s
    }
}

pub open spec fn all_digits(s: Seq<char>) -> bool {
    forall|i: int| 0 <= i < s.len() ==> is_digit(#[trigger] s[i])
}

/// The value of a run of decimal digits.
pub open spec fn digits_value(s: Seq<char>) -> int
    decreases s.len(),
{
    if s.len() == 0 {
        0
    } else {
        digits_value(s.drop_last()) * 10 + digit_value(s.last())
    }
}

/// What an integer literal denotes, if it is one: an optional sign, then one or
/// more ASCII digits.
pub open spec fn integer_value(s: Seq<char>) -> Option<int> {
    let negative = s.len() > 0 && s[0] == '-';
    let signed = s.len() > 0 && (s[0] == '-' || s[0] == '+');
    let body = if signed {
        s.skip(1)
    } else {
        s
    };
    if body.len() > 0 && all_digits(body) {
        Some(
            if negative {
                -digits_value(body)
            } else {
                digits_value(body)
            },
        )
    } else {
        None
    }
}

/// What parsing `s` as an `i64` yields: its value when it is a literal in range.
pub open spec fn parsed_i64(s: Seq<char>) -> Option<i64> {
    match integer_value(s) {
        Some(v) => if i64::MIN <= v <= i64::MAX {
            Some(v as i64)
        } else {
            None
        },
        None => None,
    }
}

/// Append one character to a `String`, by `String::push`. Trusted: the
/// contract claims the string's characters afterwards are the old ones with
/// `c` appended, as the standard library documents.
#[verifier::external_body]
pub(crate) fn push_char(s: &mut String, c: char)
    ensures
        final(s)@ == old(s)@.push(c),
{
    s.push(c);
}

proof fn lemma_digits_nonempty(n: nat)
    ensures
        digits_of(n).len() >= 1,
    decreases n,
{
    if n >= 10 {
        lemma_digits_nonempty(n / 10);
    }
}

/// The decimal text of `v`, exactly as `v.to_string()` gives it.
pub fn decimal_text(v: i64) -> (r: String)
    ensures
        r@ == decimal(v as int),
{
    let negative = v < 0;
    let magnitude: u64 = if negative {
        ((0i128 - v as i128) as u64)
    } else {
        v as u64
    };
    let ghost m = magnitude as nat;
    // Least significant digit first.
    let mut low_first: Vec<char> = Vec::new();
    let mut cur: u64 = magnitude;
    while cur >= 10
        invariant
            digits_of(m) == digits_of(cur as nat) + low_first@.reverse(),
        decreases cur,
    {
        let d = (cur % 10) as u8;
        let c = (48u8 + d) as char;
        proof {
            assert(digits_of(cur as nat) == digits_of((cur / 10) as nat).push(
                digit_char((cur % 10) as int),
            ));
            assert(low_first@.push(c).reverse() =~= seq![c] + low_first@.reverse());
        }
        low_first.push(c);
        cur = cur / 10;
    }
    let c = (48u8 + cur as u8) as char;
    proof {
        assert(low_first@.push(c).reverse() =~= seq![c] + low_first@.reverse());
    }
    low_first.push(c);
    let mut out = String::new();
    if negative {
        push_char(&mut out, '-');
    }
    let ghost prefix = out@;
    let n = low_first.len();
    let mut k: usize = 0;
    while k < n
        invariant
            0 <= k <= n,
            n == low_first@.len(),
            out@ == prefix + low_first@.reverse().take(k as int),
        decreases n - k,
    {
        proof {
            assert(low_first@.reverse().take(k + 1) =~= low_first@.reverse().take(k as int).push(
                low_first@[n - 1 - k],
            ));
        }
        push_char(&mut out, low_first[n - 1 - k]);
        k += 1;
    }
    proof {
        assert(low_first@.reverse().take(n as int) =~= low_first@.reverse());
        assert(digits_of(m) =~= low_first@.reverse());
        if negative {
            assert(prefix =~= seq!['-']);
        } else {
            assert(prefix =~= Seq::<char>::empty());
            assert(out@ =~= low_first@.reverse());
        }
    }
    out
}

/// `text` padded on the left with `fill` to at least `width` characters.
pub fn pad_text_left(text: &str, width: usize, fill: char) -> (r: String)
    ensures
        r@ == pad_left(text@, width as nat, fill),
{
    let len = text.unicode_len();
    let mut out = String::new();
    let mut k: usize = len;
    while k < width
        invariant
            len == text@.len(),
            len <= k <= width || (k == len && len >= width),
            out@ == Seq::new((k - len) as nat, |_i: int| fill),
        decreases width - k,
    {
        push_char(&mut out, fill);
        proof {
            assert(out@ =~= Seq::new((k + 1 - len) as nat, |_i: int| fill));
        }
        k += 1;
    }
    let ghost padding = out@;
    let mut i: usize = 0;
    while i < len
        invariant
            0 <= i <= len,
            len == text@.len(),
            out@ == padding + text@.take(i as int),
        decreases len - i,
    {
        let c = text.get_char(i);
        proof {
            assert(text@.take(i + 1) =~= text@.take(i as int).push(c));
        }
        push_char(&mut out, c);
        i += 1;
    }
    proof {
        assert(text@.take(len as int) =~= text@);
        if len >= width {
            assert(padding =~= Seq::<char>::empty());
            assert(out@ =~= text@);
        } else {
            assert(padding =~= Seq::new((width - len) as nat, |_i: int| fill));
        }
    }
    out
}

proof fn lemma_digits_value_prefix(s: Seq<char>, i: int)
    requires
        all_digits(s),
        0 <= i <= s.len(),
    ensures
        0 <= digits_value(s.take(i)) <= digits_value(s),
    decreases s.len(),
{
    if s.len() > 0 {
        let p = s.drop_last();
        assert forall|k: int| 0 <= k < p.len() implies is_digit(#[trigger] p[k]) by {
            assert(p[k] == s[k]);
        }
        assert(is_digit(s[s.len() - 1]));
        if i == s.len() {
            assert(s.take(i) =~= s);
            lemma_digits_value_prefix(p, p.len() as int);
            assert(p.take(p.len() as int) =~= p);
        } else {
            assert(s.take(i) =~= p.take(i));
            lemma_digits_value_prefix(p, i);
            lemma_digits_value_prefix(p, p.len() as int);
            assert(p.take(p.len() as int) =~= p);
        }
    }
}

/// Parse `text` as an `i64`, as `str::parse::<i64>` does: an optional sign,
/// then one or more ASCII digits, in range.
pub fn parse_i64(text: &str) -> (r: Option<i64>)
    ensures
        r == parsed_i64(text@),
{
    let len = text.unicode_len();
    let ghost s = text@;
    if len == 0 {
        return None;
    }
    let first = text.get_char(0);
    let negative = first == '-';
    let start: usize = if first == '-' || first == '+' {
        1
    } else {
        0
    };
    let ghost body = s.skip(start as int);
    proof {
        assert(first == s[0]);
        let signed = s.len() > 0 && (s[0] == '-' || s[0] == '+');
        assert(body == (if signed { s.skip(1) } else { s }));
        assert(negative == (s.len() > 0 && s[0] == '-'));
    }
    if start == len {
        proof {
            assert(body.len() == 0);
        }
        return None;
    }
    // 2^63: the largest magnitude an i64 can hold, reached only by a negative.
    let limit: u128 = 0x8000_0000_0000_0000;
    let mut acc: u128 = 0;
    let mut overflow = false;
    let mut i: usize = start;
    while i < len
        invariant
            start <= i <= len,
            len == s.len(),
            s == text@,
            body == s.skip(start as int),
            s.len() > 0,
            body == (if s[0] == '-' || s[0] == '+' { s.skip(1) } else { s }),
            negative == (s[0] == '-'),
            all_digits(body.take(i - start)),
            !overflow ==> acc == digits_value(body.take(i - start)) && acc <= limit,
            overflow ==> digits_value(body.take(i - start)) > limit,
            limit == 0x8000_0000_0000_0000u128,
        decreases len - i,
    {
        let c = text.get_char(i);
        proof {
            assert(body.take(i + 1 - start) =~= body.take(i - start).push(c));
            assert(body.take(i + 1 - start).drop_last() =~= body.take(i - start));
        }
        if !('0' <= c && c <= '9') {
            proof {
                assert(body[i - start] == c);
                assert(!is_digit(body[i - start]));
                assert(!all_digits(body));
                let signed = s.len() > 0 && (s[0] == '-' || s[0] == '+');
                assert(body == (if signed { s.skip(1) } else { s }));
                assert(integer_value(s) is None);
            }
            return None;
        }
        proof {
            assert forall|k: int| 0 <= k < i + 1 - start implies is_digit(
                #[trigger] body.take(i + 1 - start)[k],
            ) by {
                if k < i - start {
                    assert(body.take(i + 1 - start)[k] == body.take(i - start)[k]);
                }
            }
            lemma_digits_value_prefix(body.take(i - start), 0);
        }
        if !overflow {
            let d = (c as u32 - 48) as u128;
            let next = acc * 10 + d;
            if next > limit {
                overflow = true;
            } else {
                acc = next;
            }
        } else {
            proof {
                assert(digits_value(body.take(i + 1 - start)) >= digits_value(body.take(i - start)));
            }
        }
        i += 1;
    }
    proof {
        assert(body.take(len - start) =~= body);
        assert(integer_value(s) == Some(if negative { -digits_value(body) } else { digits_value(body) }));
    }
    if overflow {
        return None;
    }
    if negative {
        Some((0i128 - acc as i128) as i64)
    } else if acc <= 0x7fff_ffff_ffff_ffff {
        Some(acc as i64)
    } else {
        None
    }
}

/// The digits of `n` are digits, and read back as `n`.
proof fn lemma_digits_read_back(n: nat)
    ensures
        all_digits(digits_of(n)),
        digits_value(digits_of(n)) == n,
        digits_of(n).len() >= 1,
    decreases n,
{
    let s = digits_of(n);
    if n < 10 {
        let c = digit_char(n as int);
        assert(c as int == 48 + n);
        assert(s.drop_last() =~= Seq::<char>::empty());
        assert(s.last() == c);
        assert(digits_value(s.drop_last()) == 0);
        assert(digit_value(c) == n);
        assert(digits_value(s) == digits_value(s.drop_last()) * 10 + digit_value(s.last()));
    } else {
        lemma_digits_read_back(n / 10);
        let p = digits_of(n / 10);
        let c = digit_char((n % 10) as int);
        assert(c as int == 48 + n % 10);
        assert(s == p.push(c));
        assert(s.drop_last() =~= p);
        assert(s.last() == c);
        assert forall|k: int| 0 <= k < s.len() implies is_digit(#[trigger] s[k]) by {
            if k < p.len() {
                assert(s[k] == p[k]);
            }
        }
        assert(digit_value(c) == n % 10);
        assert(digits_value(s) == digits_value(s.drop_last()) * 10 + digit_value(s.last()));
        assert(n == (n / 10) * 10 + n % 10);
    }
}

/// Reading back what was written gives the number: parsing the decimal text
/// of any `i64` yields that `i64` again.
pub proof fn lemma_parse_reads_back_decimal(v: i64)
    ensures
        parsed_i64(decimal(v as int)) == Some(v),
{
    let s = decimal(v as int);
    if v < 0 {
        let m = (-(v as int)) as nat;
        lemma_digits_read_back(m);
        let d = digits_of(m);
        assert(s == seq!['-'] + d);
        assert(s[0] == '-');
        assert(s.skip(1) =~= d);
        assert(integer_value(s) == Some(-digits_value(d)));
    } else {
        let m = v as nat;
        lemma_digits_read_back(m);
        assert(s == digits_of(m));
        assert(is_digit(s[0]));
        assert(s[0] != '-' && s[0] != '+');
        assert(integer_value(s) == Some(digits_value(s)));
    }
}

/// A run of zeros reads as nothing.
proof fn lemma_zeros_read_as_nothing(n: nat)
    ensures
        digits_value(Seq::new(n, |_i: int| '0')) == 0,
        all_digits(Seq::new(n, |_i: int| '0')),
    decreases n,
{
    let z = Seq::new(n, |_i: int| '0');
    if n > 0 {
        lemma_zeros_read_as_nothing((n - 1) as nat);
        assert(z.drop_last() =~= Seq::new((n - 1) as nat, |_i: int| '0'));
        assert(digit_value(z.last()) == 0);
    }
}

/// Digits read left to right: a prefix counts in units of the rest's length.
proof fn lemma_digits_concat(a: Seq<char>, b: Seq<char>)
    ensures
        digits_value(a + b) == digits_value(a) * vstd::arithmetic::power::pow(10, b.len()) + digits_value(b),
    decreases b.len(),
{
    if b.len() == 0 {
        assert(a + b =~= a);
        assert(vstd::arithmetic::power::pow(10, 0) == 1) by {
            vstd::arithmetic::power::lemma_pow0(10);
        }
    } else {
        let b1 = b.drop_last();
        lemma_digits_concat(a, b1);
        assert((a + b).drop_last() =~= a + b1);
        assert((a + b).last() == b.last());
        let p1 = vstd::arithmetic::power::pow(10, b1.len());
        assert(vstd::arithmetic::power::pow(10, b.len()) == 10 * p1) by {
            vstd::arithmetic::power::lemma_pow_adds(10, 1, b1.len());
            vstd::arithmetic::power::lemma_pow1(10);
        }
        let (va, vb1) = (digits_value(a), digits_value(b1));
        assert((va * p1 + vb1) * 10 == va * (10 * p1) + vb1 * 10) by (nonlinear_arith);
    }
}

/// A natural number padded with zeros still reads as itself.
pub proof fn lemma_zero_padding_reads_back(v: i64, width: nat)
    requires
        v >= 0,
    ensures
        parsed_i64(pad_left(decimal(v as int), width, '0')) == Some(v),
        pad_left(decimal(v as int), width, '0').len() >= width,
{
    let d = decimal(v as int);
    lemma_parse_reads_back_decimal(v);
    lemma_digits_read_back(v as nat);
    assert(d == digits_of(v as nat));
    if d.len() < width {
        let n = (width - d.len()) as nat;
        let z = Seq::new(n, |_i: int| '0');
        let t = z + d;
        assert(pad_left(d, width, '0') == t);
        lemma_zeros_read_as_nothing(n);
        lemma_digits_concat(z, d);
        assert forall|k: int| 0 <= k < t.len() implies is_digit(#[trigger] t[k]) by {
            if k < n {
                assert(t[k] == z[k]);
            } else {
                assert(t[k] == d[k - n]);
            }
        }
        assert(t[0] == '0');
        assert(integer_value(t) == Some(digits_value(t)));
    }
}

} // verus!
