//! Text helpers shared by the whole crate: conversion between strings and
//! character vectors, splitting on a separator, and decimal numerals.
//!
//! All contracts speak of a string through its view, a `Seq<char>`.

use vstd::prelude::*;

verus! {

/// Appends one character to a string.
///
/// Trusted: wraps `String::push`, of which the standard library documents that
/// it appends the given character to the end of the string.
#[verifier::external_body]
pub(crate) fn push_char(s: &mut String, c: char)
    ensures
        final(s)@ == old(s)@.push(c),
{
    s.push(c)
}

/// The characters of `s`, in order.
pub fn chars_of(s: &str) -> (v: Vec<char>)
    ensures
        v@ == s@,
{
    let mut v: Vec<char> = Vec::new();
    for c in it: s.chars()
        invariant
            it.seq() == s@,
            v@ =~= s@.take(it.index() as int),
    {
        v.push(c);
    }
    assert(s@.take(s@.len() as int) =~= s@);
    v
}

/// The string made of the characters `v[from..to]`.
pub fn string_of_range(v: &Vec<char>, from: usize, to: usize) -> (s: String)
    requires
        from <= to <= v.len(),
    ensures
        s@ == v@.subrange(from as int, to as int),
{
    let mut s = String::new();
    let mut i: usize = from;
    while i < to
        invariant
            from <= i <= to <= v.len(),
            s@ =~= v@.subrange(from as int, i as int),
        decreases to - i,
    {
        push_char(&mut s, v[i]);
        i += 1;
    }
    s
}

/// The string made of the characters of `v`.
pub fn string_of(v: &Vec<char>) -> (s: String)
    ensures
        s@ == v@,
{
    let s = string_of_range(v, 0, v.len());
    assert(v@.subrange(0, v@.len() as int) =~= v@);
    s
}

/// Appends the characters of `tail` to `s`.
pub fn push_text(s: &mut String, tail: &str)
    ensures
        final(s)@ == old(s)@ + tail@,
{
    for c in it: tail.chars()
        invariant
            it.seq() == tail@,
            s@ =~= old(s)@ + tail@.take(it.index() as int),
    {
        push_char(s, c);
    }
    assert(tail@.take(tail@.len() as int) =~= tail@);
}

/// The pieces of `s` between occurrences of `sep`. There is always at least one
/// piece; a separator at either end yields an empty piece there.
pub open spec fn split_seq(s: Seq<char>, sep: char) -> Seq<Seq<char>>
    decreases s.len(),
{
    if s.len() == 0 {
        seq![Seq::<char>::empty()]
    } else {
        let before = split_seq(s.drop_last(), sep);
        if s.last() == sep {
            before.push(Seq::<char>::empty())
        } else {
            before.drop_last().push(before.last().push(s.last()))
        }
    }
}

/// `split_seq` never returns an empty sequence.
pub proof fn lemma_split_nonempty(s: Seq<char>, sep: char)
    ensures
        split_seq(s, sep).len() >= 1,
    decreases s.len(),
{
    if s.len() > 0 {
        lemma_split_nonempty(s.drop_last(), sep);
    }
}

/// The pieces joined again, with `sep` between neighbours.
pub open spec fn join_seq(pieces: Seq<Seq<char>>, sep: char) -> Seq<char>
    decreases pieces.len(),
{
    if pieces.len() == 0 {
        Seq::<char>::empty()
    } else if pieces.len() == 1 {
        pieces[0]
    } else {
        join_seq(pieces.drop_last(), sep) + seq![sep] + pieces.last()
    }
}

/// Joining the pieces of a text gives the text back.
pub proof fn lemma_join_of_split(s: Seq<char>, sep: char)
    ensures
        join_seq(split_seq(s, sep), sep) == s,
    decreases s.len(),
{
    if s.len() == 0 {
        assert(s =~= Seq::<char>::empty());
    } else {
        let init = s.drop_last();
        let c = s.last();
        let before = split_seq(init, sep);
        lemma_join_of_split(init, sep);
        lemma_split_nonempty(init, sep);
        assert(init.push(c) =~= s);
        if c == sep {
            let pieces = before.push(Seq::<char>::empty());
            assert(pieces.drop_last() =~= before);
            assert(join_seq(pieces, sep) =~= init.push(c));
        } else if before.len() == 1 {
            let pieces = before.drop_last().push(before.last().push(c));
            assert(pieces[0] == before[0].push(c));
            assert(join_seq(pieces, sep) =~= init.push(c));
        } else {
            let pieces = before.drop_last().push(before.last().push(c));
            assert(pieces.drop_last() =~= before.drop_last());
            assert(join_seq(pieces, sep) =~= (join_seq(before.drop_last(), sep) + seq![sep]
                + before.last()).push(c));
        }
    }
}

/// Splits `s` on every occurrence of `sep`.
pub fn split_on(s: &str, sep: char) -> (pieces: Vec<String>)
    ensures
        pieces@.len() == split_seq(s@, sep).len(),
        forall|i: int| 0 <= i < pieces@.len() ==> pieces@[i]@ == #[trigger] split_seq(s@, sep)[i],
{
    let mut pieces: Vec<String> = Vec::new();
    let mut current = String::new();
    for c in it: s.chars()
        invariant
            it.seq() == s@,
            split_seq(s@.take(it.index() as int), sep).len() == pieces@.len() + 1,
            forall|i: int|
                0 <= i < pieces@.len() ==> pieces@[i]@ == #[trigger] split_seq(
                    s@.take(it.index() as int),
                    sep,
                )[i],
            current@ == split_seq(s@.take(it.index() as int), sep).last(),
    {
        proof {
            let next = s@.take(it.index() as int + 1);
            assert(next.drop_last() =~= s@.take(it.index() as int));
            assert(next.last() == c);
        }
        if c == sep {
            pieces.push(current);
            current = String::new();
        } else {
            push_char(&mut current, c);
        }
    }
    proof {
        assert(s@.take(s@.len() as int) =~= s@);
    }
    pieces.push(current);
    pieces
}

/// Whether `c` is one of the ten decimal digits.
pub open spec fn is_digit(c: char) -> bool {
    '0' <= c && c <= '9'
}

/// The value of the decimal digit `c`.
pub open spec fn digit_value(c: char) -> nat
    recommends
        is_digit(c),
{
    (c as u32 - '0' as u32) as nat
}

/// Whether every character of `s` is a decimal digit.
pub open spec fn all_digits(s: Seq<char>) -> bool {
    forall|i: int| 0 <= i < s.len() ==> is_digit(#[trigger] s[i])
}

/// The number that the digits of `s` write in base ten.
pub open spec fn digits_value(s: Seq<char>) -> nat
    decreases s.len(),
{
    if s.len() == 0 {
        0
    } else {
        10 * digits_value(s.drop_last()) + digit_value(s.last())
    }
}

/// The number written by `s` as an unsigned decimal numeral: an optional `+`,
/// then at least one digit. `None` for any other text.
pub open spec fn parse_decimal(s: Seq<char>) -> Option<nat> {
    let digits = if s.len() > 0 && s[0] == '+' {
        s.subrange(1, s.len() as int)
    } else {
        s
    };
    if digits.len() > 0 && all_digits(digits) {
        Some(digits_value(digits))
    } else {
        None
    }
}

/// The decimal digit whose value is `d`.
pub open spec fn digit_char(d: nat) -> char
    recommends
        d < 10,
{
    (d + '0' as u32) as char
}

/// The shortest decimal numeral of `n`: no sign, no leading zero but for zero
/// itself.
pub open spec fn render_decimal(n: nat) -> Seq<char>
    decreases n,
{
    if n < 10 {
        seq![digit_char(n)]
    } else {
        render_decimal(n / 10).push(digit_char(n % 10))
    }
}

/// The decimal numeral of a signed number: a `-` before the digits of a
/// negative one.
pub open spec fn render_signed(n: int) -> Seq<char> {
    if n < 0 {
        seq!['-'] + render_decimal((-n) as nat)
    } else {
        render_decimal(n as nat)
    }
}

/// The text of a truth value.
pub open spec fn render_bool(b: bool) -> Seq<char> {
    if b {
        seq!['t', 'r', 'u', 'e']
    } else {
        seq!['f', 'a', 'l', 's', 'e']
    }
}

/// A rendered numeral consists of digits and reads back as the same number.
pub proof fn lemma_render_then_parse(n: nat)
    ensures
        render_decimal(n).len() >= 1,
        all_digits(render_decimal(n)),
        render_decimal(n)[0] != '+',
        digits_value(render_decimal(n)) == n,
        parse_decimal(render_decimal(n)) == Some(n),
    decreases n,
{
    if n < 10 {
        let s = render_decimal(n);
        assert(s.drop_last() =~= Seq::<char>::empty());
        assert(digits_value(s.drop_last()) == 0);
        assert(s.last() == digit_char(n));
    } else {
        lemma_render_then_parse(n / 10);
        let s = render_decimal(n);
        let init = render_decimal(n / 10);
        assert(s.drop_last() =~= init);
        assert(s.last() == digit_char(n % 10));
        assert(s[0] == init[0]);
    }
}

/// Whether `s` is the shortest decimal numeral of some number.
pub open spec fn is_canonical_decimal(s: Seq<char>) -> bool {
    &&& s.len() >= 1
    &&& all_digits(s)
    &&& (s.len() > 1 ==> s[0] != '0')
}

/// A numeral without sign or leading zero is the rendering of its value.
pub proof fn lemma_parse_then_render(s: Seq<char>)
    requires
        is_canonical_decimal(s),
    ensures
        render_decimal(digits_value(s)) == s,
    decreases s.len(),
{
    let init = s.drop_last();
    if s.len() == 1 {
        assert(init =~= Seq::<char>::empty());
        assert(digits_value(init) == 0);
        assert(is_digit(s[0]));
        assert(render_decimal(digits_value(s)) =~= s);
    } else {
        assert(is_digit(s[s.len() - 1]));
        assert(forall|i: int| 0 <= i < init.len() ==> init[i] == s[i]);
        assert(is_canonical_decimal(init)) by {
            assert(init[0] == s[0]);
        }
        lemma_parse_then_render(init);
        lemma_canonical_value_positive(init);
        let v = digits_value(init);
        let d = digit_value(s.last());
        assert(digits_value(s) == 10 * v + d);
        assert((10 * v + d) / 10 == v && (10 * v + d) % 10 == d) by (nonlinear_arith)
            requires
                d < 10,
        ;
        assert(s.len() > 1 ==> v >= 1);
        assert(render_decimal(digits_value(s)) =~= init.push(digit_char(d)));
        assert(init.push(s.last()) =~= s);
    }
}

/// A canonical numeral of more than one digit, or any canonical numeral other
/// than `0`, has a positive value.
pub proof fn lemma_canonical_value_positive(s: Seq<char>)
    requires
        is_canonical_decimal(s),
    ensures
        s[0] != '0' ==> digits_value(s) >= 1,
    decreases s.len(),
{
    let init = s.drop_last();
    if s.len() == 1 {
        assert(init =~= Seq::<char>::empty());
        assert(digits_value(init) == 0);
        assert(is_digit(s[0]));
    } else {
        assert(forall|i: int| 0 <= i < init.len() ==> init[i] == s[i]);
        assert(init[0] == s[0]);
        assert(is_canonical_decimal(init));
        lemma_canonical_value_positive(init);
    }
}

/// Reads an unsigned decimal numeral that fits a `usize`.
pub fn parse_usize(s: &Vec<char>) -> (r: Option<usize>)
    ensures
        r matches Some(n) ==> parse_decimal(s@) == Some(n as nat),
        r is None ==> (parse_decimal(s@) matches Some(n) ==> n > usize::MAX),
{
    let start: usize = if s.len() > 0 && s[0] == '+' {
        1
    } else {
        0
    };
    if start == s.len() {
        return None;
    }
    let ghost digits = s@.subrange(start as int, s@.len() as int);
    let mut value: usize = 0;
    let mut overflow = false;
    let mut i: usize = start;
    while i < s.len()
        invariant
            start <= i <= s.len(),
            start < s.len(),
            start == (if s@.len() > 0 && s@[0] == '+' { 1int } else { 0int }),
            digits == s@.subrange(start as int, s@.len() as int),
            all_digits(digits.take(i - start)),
            !overflow ==> value == digits_value(digits.take(i - start)),
            overflow ==> digits_value(digits.take(i - start)) > usize::MAX,
        decreases s.len() - i,
    {
        let c = s[i];
        let ghost prefix = digits.take(i - start);
        let ghost next = digits.take(i - start + 1);
        proof {
            assert(next.drop_last() =~= prefix);
            assert(next.last() == c);
        }
        if !(c >= '0' && c <= '9') {
            proof {
                assert(digits[i - start] == c);
                assert(!all_digits(digits));
                assert(start == 0 ==> digits =~= s@);
            }
            return None;
        }
        proof {
            assert forall|k: int| 0 <= k < next.len() implies is_digit(#[trigger] next[k]) by {
                if k < prefix.len() {
                    assert(next[k] == prefix[k]);
                }
            }
        }
        let d: usize = (c as u32 - '0' as u32) as usize;
        if !overflow {
            match value.checked_mul(10) {
                Some(v10) => match v10.checked_add(d) {
                    Some(v) => {
                        value = v;
                    },
                    None => {
                        overflow = true;
                    },
                },
                None => {
                    overflow = true;
                },
            }
        }
        i += 1;
    }
    proof {
        assert(digits.take(digits.len() as int) =~= digits);
        assert(start == 0 ==> digits =~= s@);
    }
    if overflow {
        None
    } else {
        Some(value)
    }
}

/// The shortest decimal numeral of `n`.
pub fn u64_to_string(n: u64) -> (s: String)
    ensures
        s@ == render_decimal(n as nat),
{
    let mut digits: Vec<char> = Vec::new();
    let mut rest: u64 = n;
    // Collect the digits from the least significant one, then read them back.
    while rest >= 10
        invariant
            render_decimal(n as nat) == render_decimal(rest as nat) + digits@.reverse(),
        decreases rest,
    {
        let d: u8 = (rest % 10) as u8;
        let c: char = (d + 48u8) as char;
        proof {
            assert(c == digit_char((rest % 10) as nat));
            assert(render_decimal(rest as nat) == render_decimal((rest / 10) as nat).push(c));
            assert(digits@.push(c).reverse() =~= seq![c] + digits@.reverse());
            assert(render_decimal((rest / 10) as nat).push(c) + digits@.reverse()
                =~= render_decimal((rest / 10) as nat) + (seq![c] + digits@.reverse()));
        }
        digits.push(c);
        rest = rest / 10;
    }
    let first: char = ((rest as u8) + 48u8) as char;
    let mut s = String::new();
    push_char(&mut s, first);
    let mut i: usize = digits.len();
    while i > 0
        invariant
            i <= digits.len(),
            s@ =~= seq![first] + digits@.reverse().take(digits.len() - i),
        decreases i,
    {
        i -= 1;
        proof {
            assert(digits@.reverse()[digits.len() - 1 - i] == digits@[i as int]);
        }
        push_char(&mut s, digits[i]);
    }
    proof {
        assert(first == digit_char(rest as nat));
        assert(digits@.reverse().take(digits.len() as int) =~= digits@.reverse());
    }
    s
}

/// The decimal numeral of `n`, with a leading `-` when it is negative.
pub fn i64_to_string(n: i64) -> (s: String)
    ensures
        s@ == render_signed(n as int),
{
    if n < 0 {
        let magnitude: u64 = if n == i64::MIN {
            9223372036854775808u64
        } else {
            (-n) as u64
        };
        let digits = u64_to_string(magnitude);
        let mut s = String::new();
        push_char(&mut s, '-');
        push_text(&mut s, digits.as_str());
        proof {
            assert(s@ =~= seq!['-'] + render_decimal((-n) as nat));
        }
        s
    } else {
        u64_to_string(n as u64)
    }
}

/// The text `true` or `false`.
pub fn bool_to_string(b: bool) -> (s: String)
    ensures
        s@ == render_bool(b),
{
    let mut s = String::new();
    if b {
        push_char(&mut s, 't');
        push_char(&mut s, 'r');
        push_char(&mut s, 'u');
        push_char(&mut s, 'e');
    } else {
        push_char(&mut s, 'f');
        push_char(&mut s, 'a');
        push_char(&mut s, 'l');
        push_char(&mut s, 's');
        push_char(&mut s, 'e');
    }
    assert(s@ =~= render_bool(b));
    s
}

/// Whether two strings hold the same characters.
pub fn same_text(a: &str, b: &str) -> (r: bool)
    ensures
        r == (a@ == b@),
{
    let x = chars_of(a);
    let y = chars_of(b);
    if x.len() != y.len() {
        return false;
    }
    let mut i: usize = 0;
    while i < x.len()
        invariant
            i <= x.len(),
            x.len() == y.len(),
            x@ == a@,
            y@ == b@,
            x@.take(i as int) =~= y@.take(i as int),
        decreases x.len() - i,
    {
        if x[i] != y[i] {
            proof {
                assert(x@[i as int] != y@[i as int]);
            }
            return false;
        }
        proof {
            assert(x@.take(i + 1) =~= x@.take(i as int).push(x@[i as int]));
            assert(y@.take(i + 1) =~= y@.take(i as int).push(y@[i as int]));
        }
        i += 1;
    }
    proof {
        assert(x@.take(x@.len() as int) =~= x@);
        assert(y@.take(y@.len() as int) =~= y@);
    }
    true
}

/// The largest magnitude of a whole number that is read for a comparison.
pub open spec fn reading_limit() -> nat {
    0x7fff_ffff_ffff_ffff_ffff_ffff_ffff_ffff
}

/// The whole number that `s` writes: an optional sign, then at least one
/// digit. `None` for any other text, and for a number whose magnitude is
/// above `reading_limit()`.
pub open spec fn integer_reading(s: Seq<char>) -> Option<int> {
    let negative = s.len() > 0 && s[0] == '-';
    let digits = if s.len() > 0 && (s[0] == '-' || s[0] == '+') {
        s.subrange(1, s.len() as int)
    } else {
        s
    };
    if digits.len() > 0 && all_digits(digits) && digits_value(digits) <= reading_limit() {
        if negative {
            Some(-(digits_value(digits) as int))
        } else {
            Some(digits_value(digits) as int)
        }
    } else {
        None
    }
}

/// The value of a numeral only grows when digits are added to it.
pub proof fn lemma_digits_value_grows(s: Seq<char>, n: int)
    requires
        0 <= n <= s.len(),
    ensures
        digits_value(s.take(n)) <= digits_value(s),
    decreases s.len() - n,
{
    if n < s.len() {
        assert(s.take(n + 1).drop_last() =~= s.take(n));
        lemma_digits_value_grows(s, n + 1);
    } else {
        assert(s.take(n) =~= s);
    }
}

/// Reads a whole number for a comparison.
pub fn read_integer(s: &str) -> (r: Option<i128>)
    ensures
        match integer_reading(s@) {
            Some(value) => r == Some(value as i128) && i128::MIN < value <= i128::MAX,
            None => r is None,
        },
{
    let chars = chars_of(s);
    let n = chars.len();
    let negative = n > 0 && chars[0] == '-';
    let start: usize = if n > 0 && (chars[0] == '-' || chars[0] == '+') {
        1
    } else {
        0
    };
    if start == n {
        return None;
    }
    let ghost digits = chars@.subrange(start as int, n as int);
    proof {
        if start == 0 {
            assert(digits =~= chars@);
        }
    }
    let mut value: i128 = 0;
    let mut i: usize = start;
    while i < n
        invariant
            start <= i <= n,
            start < n,
            n == chars.len(),
            chars@ == s@,
            start == (if s@.len() > 0 && (s@[0] == '-' || s@[0] == '+') { 1int } else { 0int }),
            digits == chars@.subrange(start as int, n as int),
            start == 0 ==> digits == s@,
            all_digits(digits.take(i - start)),
            0 <= value,
            value == digits_value(digits.take(i - start)),
        decreases n - i,
    {
        let c = chars[i];
        let ghost prefix = digits.take(i - start);
        let ghost next = digits.take(i - start + 1);
        proof {
            assert(next.drop_last() =~= prefix);
            assert(next.last() == c);
        }
        if !(c >= '0' && c <= '9') {
            proof {
                assert(digits[i - start] == c);
                assert(!all_digits(digits));
            }
            return None;
        }
        proof {
            assert forall|k: int| 0 <= k < next.len() implies is_digit(#[trigger] next[k]) by {
                if k < prefix.len() {
                    assert(next[k] == prefix[k]);
                }
            }
        }
        let d: i128 = (c as u32 - '0' as u32) as i128;
        let next_value = match value.checked_mul(10) {
            Some(v10) => v10.checked_add(d),
            None => None,
        };
        match next_value {
            Some(v) => {
                value = v;
            },
            None => {
                proof {
                    assert(digits_value(next) > reading_limit());
                    lemma_digits_value_grows(digits, i - start + 1);
                }
                return None;
            },
        }
        i += 1;
    }
    proof {
        assert(digits.take(digits.len() as int) =~= digits);
    }
    if negative {
        Some(-value)
    } else {
        Some(value)
    }
}

} // verus!
