//! Decimal numbers as text: reading unsigned integers, writing integers, and
//! grouping the digits of a formatted amount by thousands.
use vstd::prelude::*;
use crate::text::{byte_count, byte_len, push_char, utf8_len};
use vstd::utf8::*;

verus! {

/// An ASCII decimal digit.
pub open spec fn is_digit(c: char) -> bool {
    '0' <= c <= '9'
}

/// The value of a digit.
pub open spec fn digit_value(c: char) -> nat {
    (c as nat - '0' as nat) as nat
}

/// The value of a sequence of decimal digits (0 for none).
pub open spec fn digits_value(d: Seq<char>) -> nat
    decreases d.len(),
{
    if d.len() == 0 {
        0
    } else {
        digits_value(d.drop_last()) * 10 + digit_value(d.last())
    }
}

/// Every character of `d` is a digit.
pub open spec fn all_digits(d: Seq<char>) -> bool {
    forall|i: int| 0 <= i < d.len() ==> is_digit(#[trigger] d[i])
}

/// `s` without a leading `+` sign.
pub open spec fn unsigned_body(s: Seq<char>) -> Seq<char> {
    if s.len() > 0 && s[0] == '+' {
        s.drop_first()
    } else {
        s
    }
}

/// The digits of an unsigned integer's text: an optional `+` sign, then one or
/// more ASCII digits, nothing else.
pub open spec fn unsigned_digits(s: Seq<char>) -> Option<Seq<char>> {
    let d = unsigned_body(s);
    if d.len() > 0 && all_digits(d) {
        Some(d)
    } else {
        None
    }
}

/// The unsigned integer that `s` denotes, when it denotes one no larger than
/// `max` (the rule of `str::parse` for unsigned integer types).
pub open spec fn parse_unsigned(s: Seq<char>, max: nat) -> Option<nat> {
    match unsigned_digits(s) {
        Some(d) => if digits_value(d) <= max {
            Some(digits_value(d))
        } else {
            None
        },
        None => None,
    }
}

proof fn lemma_digits_value_grows(d: Seq<char>, k: int)
    requires
        0 <= k <= d.len(),
    ensures
        digits_value(d.take(k)) <= digits_value(d),
    decreases d.len() - k,
{
    if k < d.len() {
        lemma_digits_value_grows(d, k + 1);
        assert(d.take(k + 1).drop_last() =~= d.take(k));
    } else {
        assert(d.take(k) =~= d);
    }
}

/// Reads an unsigned integer no larger than `max` from `s`, as `str::parse`
/// does for an unsigned integer type whose largest value is `max`.
pub fn parse_unsigned_text(s: &str, max: u64) -> (r: Option<u64>)
    ensures
        r matches Some(v) ==> parse_unsigned(s@, max as nat) == Some(v as nat),
        r is None ==> parse_unsigned(s@, max as nat) is None,
{
    let n = s.unicode_len();
    let mut start: usize = 0;
    if n > 0 && s.get_char(0) == '+' {
        start = 1;
    }
    let ghost d = unsigned_body(s@);
    assert(d =~= s@.subrange(start as int, n as int));
    if start == n {
        return None;
    }
    let mut v: u64 = 0;
    let mut k: usize = start;
    while k < n
        invariant
            n == s@.len(),
            start <= k <= n,
            d == s@.subrange(start as int, n as int),
            d == unsigned_body(s@),
            v as nat == digits_value(d.take(k - start)),
            v <= max,
            forall|i: int| 0 <= i < k - start ==> is_digit(#[trigger] d[i]),
        decreases n - k,
    {
        let c = s.get_char(k);
        assert(d[k - start] == c);
        if !('0' <= c && c <= '9') {
            assert(!is_digit(d[k - start]));
            return None;
        }
        let dv = (c as u32 - '0' as u32) as u64;
        assert(d.take(k + 1 - start).drop_last() =~= d.take(k - start));
        if dv > max || v > (max - dv) / 10 {
            proof {
                lemma_digits_value_grows(d, k + 1 - start);
                assert(digits_value(d.take(k + 1 - start)) > max) by (nonlinear_arith)
                    requires
                        digits_value(d.take(k + 1 - start)) == v * 10 + dv,
                        dv > max || v > (max - dv) / 10,
                        dv <= 9,
                ;
                if unsigned_digits(s@) is Some {
                    assert(unsigned_digits(s@) == Some(d));
                }
            }
            return None;
        }
        v = v * 10 + dv;
        k = k + 1;
    }
    assert(d.take(n - start) =~= d);
    assert(unsigned_digits(s@) == Some(d));
    Some(v)
}


/// The character of a digit value below 10.
pub open spec fn digit_char(d: nat) -> char {
    (d + 48) as char
}

/// The decimal text of a natural number, without leading zeros.
pub open spec fn decimal_text(n: nat) -> Seq<char>
    decreases n,
{
    if n < 10 {
        seq![digit_char(n)]
    } else {
        decimal_text(n / 10).push(digit_char(n % 10))
    }
}

/// The decimal text of an integer, with a leading `-` when it is negative.
pub open spec fn signed_text(n: int) -> Seq<char> {
    if n < 0 {
        seq!['-'] + decimal_text((-n) as nat)
    } else {
        decimal_text(n as nat)
    }
}

fn digit_to_char(d: u64) -> (c: char)
    requires
        d < 10,
    ensures
        c == digit_char(d as nat),
{
    let b: u8 = 48u8 + d as u8;
    b as char
}

/// Appends the decimal text of `n` to `s`.
pub fn push_decimal(s: &mut String, n: u64)
    ensures
        final(s)@ == old(s)@ + decimal_text(n as nat),
    decreases n,
{
    if n >= 10 {
        push_decimal(s, n / 10);
    }
    push_char(s, digit_to_char(n % 10));
    proof {
        if n < 10 {
            assert(old(s)@.push(digit_char(n as nat)) =~= old(s)@ + decimal_text(n as nat));
        } else {
            assert(old(s)@ + decimal_text(n as nat / 10) + seq![digit_char(n as nat % 10)]
                =~= old(s)@ + decimal_text(n as nat));
        }
    }
}

/// The decimal text of `n` (`u64::to_string`).
pub fn u64_text(n: u64) -> (t: String)
    ensures
        t@ == decimal_text(n as nat),
{
    let mut s = String::new();
    push_decimal(&mut s, n);
    assert(Seq::<char>::empty() + decimal_text(n as nat) =~= decimal_text(n as nat));
    s
}

/// The decimal text of `n` (`i64::to_string`).
pub fn i64_text(n: i64) -> (t: String)
    ensures
        t@ == signed_text(n as int),
{
    let mut s = String::new();
    if n < 0 {
        push_char(&mut s, '-');
        let m: u64 = (-(n as i128)) as u64;
        push_decimal(&mut s, m);
    } else {
        push_decimal(&mut s, n as u64);
        assert(Seq::<char>::empty() + decimal_text(n as nat) =~= decimal_text(n as nat));
    }
    s
}

/// Index of the first `c` in `s`, if any.
pub open spec fn first_index_of(s: Seq<char>, c: char) -> Option<int>
    decreases s.len(),
{
    if s.len() == 0 {
        None
    } else if s[0] == c {
        Some(0)
    } else {
        match first_index_of(s.drop_first(), c) {
            Some(i) => Some(i + 1),
            None => None,
        }
    }
}

/// The first index of `c` is the position of a `c` with none before it.
pub proof fn lemma_first_index_of(s: Seq<char>, c: char)
    ensures
        first_index_of(s, c) matches Some(p) ==> 0 <= p < s.len() && s[p] == c && forall|j: int|
            0 <= j < p ==> s[j] != c,
        first_index_of(s, c) is None ==> forall|j: int| 0 <= j < s.len() ==> s[j] != c,
    decreases s.len(),
{
    if s.len() > 0 && s[0] != c {
        lemma_first_index_of(s.drop_first(), c);
        assert forall|j: int| 1 <= j < s.len() implies s[j] == s.drop_first()[j - 1] by {}
    }
}

/// A `c` with none before it is at the first index of `c`.
proof fn lemma_first_index_at(s: Seq<char>, c: char, p: int)
    requires
        0 <= p <= s.len(),
        p < s.len() ==> s[p] == c,
        forall|j: int| 0 <= j < p ==> s[j] != c,
    ensures
        first_index_of(s, c) == if p < s.len() {
            Some(p)
        } else {
            None::<int>
        },
    decreases s.len(),
{
    if s.len() > 0 && p > 0 {
        lemma_first_index_at(s.drop_first(), c, p - 1);
    }
}

/// The integer digits `d` (whose text is `len` bytes long) with a comma before
/// each character at position `i > 0` where `len - i` is a multiple of 3 (`i`
/// never exceeds the byte length); only the first `k` characters.
pub open spec fn grouped_prefix(d: Seq<char>, len: int, k: int) -> Seq<char>
    decreases k,
{
    if k <= 0 {
        Seq::empty()
    } else {
        let i = k - 1;
        let sep = if 0 < i <= len && (len - i) % 3 == 0 {
            seq![',']
        } else {
            Seq::empty()
        };
        grouped_prefix(d, len, k - 1) + sep + seq![d[i]]
    }
}

/// A formatted amount with its integer digits grouped by thousands: an
/// optional leading `-` is kept, the integer part (up to the first `.`) gets a
/// comma between groups of three counted from its end, and the fraction after
/// the `.` is kept as it is.
pub open spec fn grouped(s: Seq<char>) -> Seq<char> {
    let neg = s.len() > 0 && s[0] == '-';
    let sign = if neg { seq!['-'] } else { Seq::<char>::empty() };
    let rest = if neg { s.drop_first() } else { s };
    match first_index_of(rest, '.') {
        Some(p) => {
            let int_part = rest.subrange(0, p);
            sign + grouped_prefix(int_part, byte_count(int_part), int_part.len() as int) + seq!['.']
                + rest.subrange(p + 1, rest.len() as int)
        },
        None => sign + grouped_prefix(rest, byte_count(rest), rest.len() as int),
    }
}

/// Groups the integer digits of a formatted amount by thousands with commas
/// (`"-1234567.5"` becomes `"-1,234,567.5"`).
pub fn group_thousands(s: &str) -> (t: String)
    ensures
        t@ == grouped(s@),
{
    let n = s.unicode_len();
    let neg = n > 0 && s.get_char(0) == '-';
    let start: usize = if neg { 1 } else { 0 };
    let ghost rest = if neg { s@.drop_first() } else { s@ };
    assert(rest =~= s@.subrange(start as int, n as int));
    // the first '.' after the sign
    let mut p: usize = start;
    while p < n && s.get_char(p) != '.'
        invariant
            n == s@.len(),
            start <= p <= n,
            rest =~= s@.subrange(start as int, n as int),
            forall|j: int| 0 <= j < p - start ==> rest[j] != '.',
        decreases n - p,
    {
        p = p + 1;
    }
    let int_part = s.substring_char(start, p);
    assert(int_part@ =~= rest.subrange(0, p - start));
    let len = byte_len(int_part);
    let mut out = String::new();
    if neg {
        push_char(&mut out, '-');
    }
    let ghost sign = out@;
    let mut i: usize = start;
    while i < p
        invariant
            n == s@.len(),
            start <= i <= p <= n,
            int_part@ == s@.subrange(start as int, p as int),
            len == byte_count(int_part@),
            out@ == sign + grouped_prefix(int_part@, len as int, i - start),
        decreases p - i,
    {
        let k = i - start;
        if k > 0 && k <= len && (len - k) % 3 == 0 {
            push_char(&mut out, ',');
        }
        push_char(&mut out, s.get_char(i));
        proof {
            assert(int_part@[k as int] == s@[i as int]);
            let sep = if k > 0 && k <= len && (len - k) % 3 == 0 {
                seq![',']
            } else {
                Seq::<char>::empty()
            };
            assert(out@ =~= sign + grouped_prefix(int_part@, len as int, k as int) + sep + seq![
                int_part@[k as int],
            ]);
        }
        i = i + 1;
    }
    if p < n {
        push_char(&mut out, '.');
        let frac = s.substring_char(p + 1, n);
        out.append(frac);
        proof {
            assert(rest[p - start] == '.');
            lemma_first_index_at(rest, '.', p - start);
            assert(frac@ =~= rest.subrange(p - start + 1, rest.len() as int));
        }
    } else {
        proof {
            lemma_first_index_at(rest, '.', p - start);
            assert(int_part@ =~= rest);
        }
    }
    out
}


/// Decimal text is made of digits and reads back as its number.
pub proof fn lemma_decimal_text_digits(n: nat)
    ensures
        decimal_text(n).len() > 0,
        all_digits(decimal_text(n)),
        digits_value(decimal_text(n)) == n,
    decreases n,
{
    if n >= 10 {
        lemma_decimal_text_digits(n / 10);
        let t = decimal_text(n);
        assert(t.drop_last() =~= decimal_text(n / 10));
        assert(forall|i: int| 0 <= i < t.len() - 1 ==> t[i] == decimal_text(n / 10)[i]);
        assert(digit_value(digit_char(n % 10)) == n % 10);
        assert(t.last() == digit_char(n % 10));
        assert((n / 10) * 10 + n % 10 == n) by (nonlinear_arith);
        assert(digits_value(t) == digits_value(t.drop_last()) * 10 + digit_value(t.last()));
    } else {
        let t = decimal_text(n);
        assert(t.drop_last() =~= Seq::<char>::empty());
        assert(digit_value(digit_char(n)) == n);
        assert(digits_value(t.drop_last()) == 0);
        assert(t.last() == digit_char(n));
        assert(digits_value(t) == digits_value(t.drop_last()) * 10 + digit_value(t.last()));
    }
}

/// Round trip: the decimal text of a number no larger than `max` reads back
/// as that number.
pub proof fn lemma_parse_decimal_text(n: nat, max: nat)
    requires
        n <= max,
    ensures
        parse_unsigned(decimal_text(n), max) == Some(n),
{
    lemma_decimal_text_digits(n);
    let t = decimal_text(n);
    assert(is_digit(t[0]));
    assert(unsigned_body(t) == t);
}


/// `s` without its commas.
pub open spec fn strip_commas(s: Seq<char>) -> Seq<char>
    decreases s.len(),
{
    if s.len() == 0 {
        Seq::empty()
    } else {
        strip_commas(s.drop_last()) + if s.last() == ',' {
            Seq::<char>::empty()
        } else {
            seq![s.last()]
        }
    }
}

proof fn lemma_strip_commas_concat(a: Seq<char>, b: Seq<char>)
    ensures
        strip_commas(a + b) == strip_commas(a) + strip_commas(b),
    decreases b.len(),
{
    if b.len() == 0 {
        assert(a + b =~= a);
        assert(strip_commas(a) + strip_commas(b) =~= strip_commas(a));
    } else {
        assert((a + b).drop_last() =~= a + b.drop_last());
        assert((a + b).last() == b.last());
        lemma_strip_commas_concat(a, b.drop_last());
        let tail = if b.last() == ',' {
            Seq::<char>::empty()
        } else {
            seq![b.last()]
        };
        assert(strip_commas(a) + strip_commas(b.drop_last()) + tail =~= strip_commas(a) + (
        strip_commas(b.drop_last()) + tail));
    }
}

proof fn lemma_strip_commas_none(s: Seq<char>)
    requires
        !s.contains(','),
    ensures
        strip_commas(s) == s,
    decreases s.len(),
{
    if s.len() > 0 {
        assert(!s.drop_last().contains(',')) by {
            if s.drop_last().contains(',') {
                let i = choose|i: int| 0 <= i < s.drop_last().len() && s.drop_last()[i] == ',';
                assert(s[i] == ',');
            }
        }
        lemma_strip_commas_none(s.drop_last());
        assert(s.last() != ',') by {
            assert(s[s.len() - 1] == s.last());
        }
        assert(s.drop_last() + seq![s.last()] =~= s);
    }
}

proof fn lemma_strip_grouped_prefix(d: Seq<char>, len: int, k: int)
    requires
        0 <= k <= d.len(),
        !d.contains(','),
    ensures
        strip_commas(grouped_prefix(d, len, k)) == d.take(k),
    decreases k,
{
    if k > 0 {
        lemma_strip_grouped_prefix(d, len, k - 1);
        let i = k - 1;
        let sep = if i > 0 && i <= len && (len - i) % 3 == 0 {
            seq![',']
        } else {
            Seq::<char>::empty()
        };
        let prev = grouped_prefix(d, len, k - 1);
        lemma_strip_commas_concat(prev + sep, seq![d[i]]);
        lemma_strip_commas_concat(prev, sep);
        assert(strip_commas(sep) =~= Seq::<char>::empty()) by {
            if sep.len() > 0 {
                assert(sep.drop_last() =~= Seq::<char>::empty());
                assert(sep.last() == ',');
                assert(strip_commas(sep.drop_last()) =~= Seq::<char>::empty());
            }
        }
        assert(d[i] != ',');
        assert(strip_commas(seq![d[i]]) =~= seq![d[i]]) by {
            assert(seq![d[i]].drop_last() =~= Seq::<char>::empty());
        }
        assert(d.take(k - 1) + seq![d[i]] =~= d.take(k));
    } else {
        assert(d.take(0) =~= Seq::<char>::empty());
    }
}

proof fn lemma_no_comma_in_part(s: Seq<char>, a: int, b: int)
    requires
        !s.contains(','),
        0 <= a <= b <= s.len(),
    ensures
        !s.subrange(a, b).contains(','),
{
    if s.subrange(a, b).contains(',') {
        let i = choose|i: int| 0 <= i < b - a && s.subrange(a, b)[i] == ',';
        assert(s[a + i] == ',');
    }
}

proof fn lemma_strip_grouped_with_fraction(sign: Seq<char>, int_part: Seq<char>, frac: Seq<char>)
    requires
        !sign.contains(','),
        !int_part.contains(','),
        !frac.contains(','),
    ensures
        strip_commas(sign + grouped_prefix(int_part, byte_count(int_part), int_part.len() as int)
            + seq!['.'] + frac) == sign + int_part + seq!['.'] + frac,
{
    let g = grouped_prefix(int_part, byte_count(int_part), int_part.len() as int);
    lemma_strip_grouped_prefix(int_part, byte_count(int_part), int_part.len() as int);
    assert(int_part.take(int_part.len() as int) =~= int_part);
    lemma_strip_commas_none(sign);
    lemma_strip_commas_none(frac);
    assert(!seq!['.'].contains(',')) by {
        if seq!['.'].contains(',') {
            assert(seq!['.'][0] == '.');
        }
    }
    lemma_strip_commas_none(seq!['.']);
    lemma_strip_commas_concat(sign + g + seq!['.'], frac);
    lemma_strip_commas_concat(sign + g, seq!['.']);
    lemma_strip_commas_concat(sign, g);
}

proof fn lemma_strip_grouped_whole(sign: Seq<char>, int_part: Seq<char>)
    requires
        !sign.contains(','),
        !int_part.contains(','),
    ensures
        strip_commas(sign + grouped_prefix(int_part, byte_count(int_part), int_part.len() as int))
            == sign + int_part,
{
    let g = grouped_prefix(int_part, byte_count(int_part), int_part.len() as int);
    lemma_strip_grouped_prefix(int_part, byte_count(int_part), int_part.len() as int);
    assert(int_part.take(int_part.len() as int) =~= int_part);
    lemma_strip_commas_none(sign);
    lemma_strip_commas_concat(sign, g);
}

/// Grouping by thousands only adds commas: removing the commas from the
/// grouped text gives back the formatted amount (one without commas of its own).
pub proof fn lemma_grouping_only_adds_commas(s: Seq<char>)
    requires
        !s.contains(','),
    ensures
        strip_commas(grouped(s)) == s,
{
    let neg = s.len() > 0 && s[0] == '-';
    let sign = if neg { seq!['-'] } else { Seq::<char>::empty() };
    let rest = if neg { s.drop_first() } else { s };
    assert(s =~= sign + rest);
    if neg {
        lemma_no_comma_in_part(s, 0, 1);
        assert(s.subrange(0, 1) =~= sign);
        lemma_no_comma_in_part(s, 1, s.len() as int);
        assert(s.subrange(1, s.len() as int) =~= rest);
    } else {
        assert(!sign.contains(','));
    }
    lemma_first_index_of(rest, '.');
    match first_index_of(rest, '.') {
        Some(p) => {
            let int_part = rest.subrange(0, p);
            let frac = rest.subrange(p + 1, rest.len() as int);
            lemma_no_comma_in_part(rest, 0, p);
            lemma_no_comma_in_part(rest, p + 1, rest.len() as int);
            lemma_strip_grouped_with_fraction(sign, int_part, frac);
            assert(rest[p] == '.');
            assert(rest =~= int_part + seq!['.'] + frac);
            assert(sign + int_part + seq!['.'] + frac =~= s);
        },
        None => {
            lemma_strip_grouped_whole(sign, rest);
        },
    }
}


/// Digits grouped by three from the right with commas: up to three digits
/// stand alone; more are the grouping of all but the last three, a comma,
/// and the last three.
pub open spec fn digit_groups(d: Seq<char>) -> Seq<char>
    decreases d.len(),
{
    if d.len() <= 3 {
        d
    } else {
        digit_groups(d.take(d.len() - 3)) + seq![','] + d.skip(d.len() - 3)
    }
}

/// `t` reads as digit groups split by commas: a first group of one to three
/// digits, then groups of exactly three.
pub open spec fn in_groups_of_three(t: Seq<char>) -> bool
    decreases t.len(),
{
    if t.len() <= 3 {
        1 <= t.len() && all_digits(t)
    } else {
        &&& t[t.len() - 4] == ','
        &&& all_digits(t.skip(t.len() - 3))
        &&& in_groups_of_three(t.take(t.len() - 4))
    }
}

/// The sign of a formatted amount: `-` when it starts with one.
pub open spec fn amount_sign(s: Seq<char>) -> Seq<char> {
    if s.len() > 0 && s[0] == '-' {
        seq!['-']
    } else {
        Seq::empty()
    }
}

/// A formatted amount without its sign.
pub open spec fn amount_body(s: Seq<char>) -> Seq<char> {
    if s.len() > 0 && s[0] == '-' {
        s.drop_first()
    } else {
        s
    }
}

/// The integer part of a formatted amount: after the sign, up to the first `.`.
pub open spec fn amount_int(s: Seq<char>) -> Seq<char> {
    let b = amount_body(s);
    match first_index_of(b, '.') {
        Some(p) => b.subrange(0, p),
        None => b,
    }
}

/// The fraction of a formatted amount with its `.`; empty when there is none.
pub open spec fn amount_fraction(s: Seq<char>) -> Seq<char> {
    let b = amount_body(s);
    match first_index_of(b, '.') {
        Some(p) => seq!['.'] + b.subrange(p + 1, b.len() as int),
        None => Seq::empty(),
    }
}

proof fn lemma_digits_are_single_bytes(d: Seq<char>)
    requires
        all_digits(d),
    ensures
        utf8_len(d) == d.len(),
    decreases d.len(),
{
    if d.len() > 0 {
        assert(is_digit(d[0]));
        assert(has_width_1_encoding(d[0] as u32));
        assert forall|i: int| 0 <= i < d.drop_first().len() implies is_digit(
            #[trigger] d.drop_first()[i],
        ) by {
            assert(d.drop_first()[i] == d[i + 1]);
        }
        lemma_digits_are_single_bytes(d.drop_first());
    }
}

#[verifier::spinoff_prover]
proof fn lemma_grouped_prefix_shift(d1: Seq<char>, d2: Seq<char>, len1: int, len2: int, k: int)
    requires
        0 <= k <= d1.len(),
        k <= d2.len(),
        k <= len2,
        len1 == len2 + 3,
        forall|i: int| 0 <= i < k ==> d1[i] == d2[i],
    ensures
        grouped_prefix(d1, len1, k) == grouped_prefix(d2, len2, k),
    decreases k,
{
    if k > 0 {
        let i = k - 1;
        lemma_grouped_prefix_shift(d1, d2, len1, len2, i);
        let x = len2 - i;
        assert((x + 3) % 3 == x % 3) by (nonlinear_arith)
            requires
                x >= 0,
        ;
        assert(d1[i] == d2[i]);
        let c1 = 0 < i <= len1 && (len1 - i) % 3 == 0;
        let c2 = 0 < i <= len2 && (len2 - i) % 3 == 0;
        assert(c1 == c2);
        assert(grouped_prefix(d1, len1, k) == grouped_prefix(d1, len1, i) + (if c1 {
            seq![',']
        } else {
            Seq::<char>::empty()
        }) + seq![d1[i]]);
        assert(grouped_prefix(d2, len2, k) == grouped_prefix(d2, len2, i) + (if c2 {
            seq![',']
        } else {
            Seq::<char>::empty()
        }) + seq![d2[i]]);
    }
}

proof fn lemma_grouped_prefix_short(d: Seq<char>, k: int)
    requires
        d.len() <= 3,
        0 <= k <= d.len(),
    ensures
        grouped_prefix(d, d.len() as int, k) == d.take(k),
    decreases k,
{
    if k > 0 {
        lemma_grouped_prefix_short(d, k - 1);
        assert(d.take(k - 1) + seq![d[k - 1]] =~= d.take(k));
        let i = k - 1;
        assert(!(0 < i <= d.len() && (d.len() - i) % 3 == 0));
        assert(d.take(k - 1) + Seq::<char>::empty() =~= d.take(k - 1));
    } else {
        assert(d.take(0) =~= Seq::<char>::empty());
    }
}

proof fn lemma_grouped_prefix_in_threes(d: Seq<char>)
    ensures
        grouped_prefix(d, d.len() as int, d.len() as int) == digit_groups(d),
    decreases d.len(),
{
    let n = d.len() as int;
    if n <= 3 {
        lemma_grouped_prefix_short(d, n);
        assert(d.take(n) =~= d);
    } else {
        let head = d.take(n - 3);
        lemma_grouped_prefix_shift(d, head, n, n - 3, n - 3);
        lemma_grouped_prefix_in_threes(head);
        let g0 = grouped_prefix(d, n, n - 3);
        assert(grouped_prefix(d, n, n - 2) == g0 + seq![','] + seq![d[n - 3]]);
        assert(grouped_prefix(d, n, n - 1) == grouped_prefix(d, n, n - 2) + Seq::<char>::empty()
            + seq![d[n - 2]]);
        assert(grouped_prefix(d, n, n) == grouped_prefix(d, n, n - 1) + Seq::<char>::empty()
            + seq![d[n - 1]]);
        assert(d.skip(n - 3) =~= seq![d[n - 3], d[n - 2], d[n - 1]]);
        assert(grouped_prefix(d, n, n) =~= g0 + seq![','] + d.skip(n - 3));
    }
}

proof fn lemma_digit_groups_shape(d: Seq<char>)
    requires
        d.len() > 0,
        all_digits(d),
    ensures
        in_groups_of_three(digit_groups(d)),
    decreases d.len(),
{
    let n = d.len() as int;
    if n > 3 {
        let head = d.take(n - 3);
        assert forall|i: int| 0 <= i < head.len() implies is_digit(#[trigger] head[i]) by {
            assert(head[i] == d[i]);
        }
        lemma_digit_groups_shape(head);
        let g = digit_groups(d);
        let gh = digit_groups(head);
        assert(g.len() == gh.len() + 4);
        assert(g[g.len() - 4] == ',');
        assert(g.skip(g.len() - 3) =~= d.skip(n - 3));
        assert(g.take(g.len() - 4) =~= gh);
        assert forall|i: int| 0 <= i < 3 implies is_digit(#[trigger] d.skip(n - 3)[i]) by {
            assert(d.skip(n - 3)[i] == d[n - 3 + i]);
        }
    }
}

/// Shape law of grouping by thousands: for a formatted amount whose integer
/// part (after an optional `-`, up to the first `.`) is made of digits, the
/// grouped text is the sign, the integer digits in groups of three split by
/// commas (a first group of one to three digits, then groups of exactly
/// three), and the fraction as it was; when the amount has no commas of its
/// own, the integer part holds the only commas.
pub proof fn lemma_grouping_in_threes(s: Seq<char>)
    requires
        all_digits(amount_int(s)),
        s.len() <= usize::MAX,
    ensures
        grouped(s) == amount_sign(s) + digit_groups(amount_int(s)) + amount_fraction(s),
        amount_int(s).len() > 0 ==> in_groups_of_three(digit_groups(amount_int(s))),
        !s.contains(',') ==> !amount_fraction(s).contains(','),
{
    let d = amount_int(s);
    let b = amount_body(s);
    lemma_first_index_of(b, '.');
    lemma_digits_are_single_bytes(d);
    assert(byte_count(d) == d.len());
    lemma_grouped_prefix_in_threes(d);
    if d.len() > 0 {
        lemma_digit_groups_shape(d);
    }
    if !s.contains(',') {
        if amount_fraction(s).contains(',') {
            let p = first_index_of(b, '.')->0;
            let f = amount_fraction(s);
            let i = choose|i: int| 0 <= i < f.len() && f[i] == ',';
            assert(i > 0);
            assert(f[i] == b[p + i]);
            if s.len() > 0 && s[0] == '-' {
                assert(s[p + i + 1] == ',');
            } else {
                assert(s[p + i] == ',');
            }
        }
    }
}

} // verus!
