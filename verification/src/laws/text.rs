//! What holds of text.

use crate::text::{
    decimal, decimal_reads_back, digits_value, first_index, hex, is_whitespace, join,
    parse_unsigned, split, split_once, strip_prefix, trim, trim_end, trim_start,
};
use vstd::arithmetic::power::pow;
use vstd::prelude::*;

verus! {

/// White space among the first characters of Unicode: tab, line feed, vertical
/// tab, form feed, carriage return and space.
pub proof fn white_space_in_ascii(c: char)
    requires
        c as u32 <= 127,
    ensures
        is_whitespace(c) <==> c == '\t' || c == '\n' || c as u32 == 11 || c as u32 == 12 || c
            == '\r' || c == ' ',
{
}

/// White space beyond those: next line, the spaces of Unicode, and its line and
/// paragraph separators.
pub proof fn white_space_beyond_ascii(c: char)
    requires
        c as u32 > 127,
    ensures
        is_whitespace(c) <==> c == '\u{85}' || c == '\u{a0}' || c == '\u{1680}' || c == '\u{2000}'
            || c == '\u{2001}' || c == '\u{2002}' || c == '\u{2003}' || c == '\u{2004}' || c
            == '\u{2005}' || c == '\u{2006}' || c == '\u{2007}' || c == '\u{2008}' || c
            == '\u{2009}' || c == '\u{200a}' || c == '\u{2028}' || c == '\u{2029}' || c
            == '\u{202f}' || c == '\u{205f}' || c == '\u{3000}',
{
}

/// Trimming the end takes off white space and leaves a text that does not end
/// with any.
pub proof fn trimming_the_end(s: Seq<char>)
    ensures
        trim_end(s).is_prefix_of(s),
        forall|i: int| trim_end(s).len() <= i < s.len() ==> is_whitespace(#[trigger] s[i]),
        trim_end(s).len() > 0 ==> !is_whitespace(trim_end(s).last()),
    decreases s.len(),
{
    if s.len() > 0 && is_whitespace(s.last()) {
        trimming_the_end(s.drop_last());
        assert(trim_end(s) =~= s.subrange(0, trim_end(s).len() as int));
        assert forall|i: int| trim_end(s).len() <= i < s.len() implies is_whitespace(
            #[trigger] s[i],
        ) by {
            if i < s.len() - 1 {
                assert(s.drop_last()[i] == s[i]);
            }
        }
    } else {
        assert(s.subrange(0, s.len() as int) =~= s);
    }
}

/// Trimming the start takes off white space and leaves a text that does not
/// begin with any.
pub proof fn trimming_the_start(s: Seq<char>)
    ensures
        trim_start(s).len() <= s.len(),
        trim_start(s) == s.skip(s.len() - trim_start(s).len()),
        forall|i: int|
            0 <= i < s.len() - trim_start(s).len() ==> is_whitespace(#[trigger] s[i]),
        trim_start(s).len() > 0 ==> !is_whitespace(trim_start(s)[0]),
    decreases s.len(),
{
    if s.len() > 0 && is_whitespace(s[0]) {
        let rest = s.drop_first();
        trimming_the_start(rest);
        assert(trim_start(s) =~= s.skip(s.len() - trim_start(s).len()));
        assert forall|i: int| 0 <= i < s.len() - trim_start(s).len() implies is_whitespace(
            #[trigger] s[i],
        ) by {
            if i > 0 {
                assert(s[i] == rest[i - 1]);
            }
        }
    } else {
        assert(s.skip(0) =~= s);
    }
}

/// Trimming takes off the white space at both ends.
pub proof fn trimming(s: Seq<char>)
    ensures
        trim(s).len() > 0 ==> !is_whitespace(trim(s)[0]) && !is_whitespace(trim(s).last()),
        exists|a: Seq<char>, b: Seq<char>| #[trigger]
            (a + trim(s) + b) == s && (forall|i: int|
                0 <= i < a.len() ==> is_whitespace(#[trigger] a[i])) && (forall|i: int|
                0 <= i < b.len() ==> is_whitespace(#[trigger] b[i])),
{
    let mid = trim_start(s);
    let t = trim(s);
    trimming_the_start(s);
    trimming_the_end(mid);
    let a = s.take(s.len() - mid.len());
    let b = mid.skip(t.len() as int);
    assert(t =~= mid.subrange(0, t.len() as int));
    assert(a + t + b =~= s);
    assert forall|i: int| 0 <= i < b.len() implies is_whitespace(#[trigger] b[i]) by {
        assert(b[i] == mid[i + t.len()]);
    }
    if t.len() > 0 {
        assert(t[0] == mid[0]);
    }
}

/// What follows a prefix is found exactly where the text begins with it.
pub proof fn what_follows_a_prefix(s: Seq<char>, prefix: Seq<char>, rest: Seq<char>)
    ensures
        strip_prefix(s, prefix) == Some(rest) <==> s == prefix + rest,
        strip_prefix(s, prefix) is None <==> !prefix.is_prefix_of(s),
{
    if prefix.is_prefix_of(s) {
        assert(s =~= prefix + s.skip(prefix.len() as int));
        assert((prefix + rest).skip(prefix.len() as int) =~= rest);
    }
    if s == prefix + rest {
        assert(s.subrange(0, prefix.len() as int) =~= prefix);
        assert(s.skip(prefix.len() as int) =~= rest);
    }
}

/// A text is cut at the first separator, and only where it has one.
pub proof fn cutting_at_the_first(s: Seq<char>, c: char)
    ensures
        split_once(s, c) is None <==> !s.contains(c),
        split_once(s, c) matches Some((a, b)) ==> s == a + seq![c] + b && !a.contains(c),
{
    lemma_first(s, c);
    let i = first_index(s, c) as int;
    if i < s.len() {
        let a = s.take(i);
        assert(s =~= a + seq![c] + s.skip(i + 1));
        if a.contains(c) {
            let k = a.index_of(c);
            assert(s[k] == c);
        }
        assert(s[i] == c);
        assert(s.contains(c));
    } else if s.contains(c) {
        let k = s.index_of(c);
        assert(s[k] == c);
    }
}

proof fn lemma_first(s: Seq<char>, c: char)
    ensures
        first_index(s, c) <= s.len(),
        forall|k: int| 0 <= k < first_index(s, c) ==> #[trigger] s[k] != c,
        first_index(s, c) < s.len() ==> s[first_index(s, c) as int] == c,
    decreases s.len(),
{
    if s.len() > 0 && s[0] != c {
        let rest = s.drop_first();
        lemma_first(rest, c);
        assert forall|k: int| 0 <= k < first_index(s, c) implies #[trigger] s[k] != c by {
            if k > 0 {
                assert(s[k] == rest[k - 1]);
            }
        }
    }
}

/// Joining two runs of pieces is joining each and putting the separator between
/// them.
pub proof fn joining_runs(a: Seq<Seq<char>>, b: Seq<Seq<char>>, x: Seq<char>, sep: Seq<char>)
    ensures
        join(Seq::empty(), sep) == Seq::<char>::empty(),
        join(seq![x], sep) == x,
        a.len() > 0 && b.len() > 0 ==> join(a + b, sep) == join(a, sep) + sep + join(b, sep),
    decreases b.len(),
{
    if a.len() > 0 && b.len() > 0 {
        assert((a + b).drop_last() =~= a + b.drop_last());
        assert((a + b).last() == b.last());
        if b.len() == 1 {
            assert(a + b.drop_last() =~= a);
        } else {
            joining_runs(a, b.drop_last(), x, sep);
            assert(join(a + b, sep) =~= join(a, sep) + sep + join(b, sep));
        }
    }
}

/// The number that a text denotes is read back from its decimal notation, with
/// or without a plus sign and zeros before it, where it is not too large.
pub proof fn numbers_are_read(n: nat, max: nat)
    ensures
        parse_unsigned(decimal(n), max) == (if n <= max {
            Some(n)
        } else {
            None
        }),
        parse_unsigned(seq!['+'] + decimal(n), max) == parse_unsigned(decimal(n), max),
        parse_unsigned(Seq::empty(), max) is None,
        parse_unsigned(seq!['+'], max) is None,
{
    decimal_reads_back(n);
    let d = decimal(n);
    let s = seq!['+'] + d;
    assert('0' <= d[0] <= '9');
    assert(s.drop_first() =~= d);
    assert(seq!['+'].drop_first() =~= Seq::empty());
}

/// A text that denotes a number holds digits alone, at least one, but for a plus
/// sign before them.
pub proof fn only_digits_are_numbers(s: Seq<char>, max: nat)
    requires
        parse_unsigned(s, max) is Some,
    ensures
        parse_unsigned(s, max)->0 <= max,
        s.len() > 0,
        s[0] == '+' ==> s.len() > 1,
        forall|i: int|
            0 <= i < s.len() && (i > 0 || s[0] != '+') ==> '0' <= #[trigger] s[i] <= '9',
{
    let digits = if s[0] == '+' {
        s.drop_first()
    } else {
        s
    };
    lemma_all_digits(digits);
    assert forall|i: int| 0 <= i < s.len() && (i > 0 || s[0] != '+') implies '0' <= #[trigger] s[i]
        <= '9' by {
        if s[0] == '+' {
            assert(digits[i - 1] == s[i]);
        }
    }
}

proof fn lemma_all_digits(s: Seq<char>)
    requires
        digits_value(s) is Some,
    ensures
        forall|i: int| 0 <= i < s.len() ==> '0' <= #[trigger] s[i] <= '9',
    decreases s.len(),
{
    if s.len() > 0 {
        lemma_all_digits(s.drop_last());
        assert forall|i: int| 0 <= i < s.len() implies '0' <= #[trigger] s[i] <= '9' by {
            if i < s.len() - 1 {
                assert(s.drop_last()[i] == s[i]);
            }
        }
    }
}

/// Digits count by their place: those before `b` count ten times more for each
/// digit of `b`.
pub proof fn digits_count_by_their_place(a: Seq<char>, b: Seq<char>)
    ensures
        digits_value(a) is Some && digits_value(b) is Some ==> digits_value(a + b) == Some(
            (digits_value(a)->0 * pow(10, b.len()) + digits_value(b)->0) as nat,
        ),
        digits_value(a) is None || digits_value(b) is None ==> digits_value(a + b) is None,
        digits_value(seq!['0']) == Some(0nat),
    decreases b.len(),
{
    vstd::arithmetic::power::lemma_pow0(10);
    assert(seq!['0'].drop_last() =~= Seq::empty());
    reveal_with_fuel(digits_value, 2);
    if b.len() == 0 {
        assert(a + b =~= a);
        if digits_value(a) is Some {
            let x = digits_value(a)->0;
            assert(x * pow(10, 0) == x) by (nonlinear_arith)
                requires
                    pow(10, 0) == 1,
            ;
        }
    } else {
        let rest = b.drop_last();
        digits_count_by_their_place(a, rest);
        assert((a + b).drop_last() =~= a + rest);
        assert((a + b).last() == b.last());
        vstd::arithmetic::power::lemma_pow_adds(10, rest.len(), 1);
        vstd::arithmetic::power::lemma_pow1(10);
        vstd::arithmetic::power::lemma_pow_positive(10, rest.len());
        if digits_value(a) is Some && digits_value(b) is Some {
            let x = digits_value(a)->0 as int;
            let y = digits_value(rest)->0 as int;
            let p = pow(10, rest.len());
            assert(10 * (x * p + y) == x * pow(10, b.len()) + 10 * y) by (nonlinear_arith)
                requires
                    pow(10, b.len()) == p * 10,
            ;
            assert(x * p >= 0) by (nonlinear_arith)
                requires
                    x >= 0,
                    p > 0,
            ;
        }
    }
}

/// The value of a hexadecimal digit.
pub open spec fn hex_digit_value(c: char) -> int {
    if '0' <= c <= '9' {
        c as int - '0' as int
    } else {
        c as int - 'a' as int + 10
    }
}

/// The number that hexadecimal digits denote.
pub open spec fn hex_value(s: Seq<char>) -> int
    decreases s.len(),
{
    if s.len() == 0 {
        0
    } else {
        16 * hex_value(s.drop_last()) + hex_digit_value(s.last())
    }
}

/// A number is read back from its hexadecimal notation, which has digits and
/// small letters alone.
pub proof fn hex_reads_back(n: nat, width: nat)
    ensures
        hex(n, width).len() == width,
        hex_value(hex(n, width)) == (n as int) % pow(16, width),
        forall|i: int|
            0 <= i < width ==> '0' <= #[trigger] hex(n, width)[i] <= '9' || 'a' <= hex(
                n,
                width,
            )[i] <= 'f',
    decreases width,
{
    vstd::arithmetic::power::lemma_pow0(16);
    if width > 0 {
        let w = (width - 1) as nat;
        hex_reads_back(n / 16, w);
        let h = hex(n, width);
        assert(h.drop_last() =~= hex(n / 16, w));
        assert(hex_digit_value(h.last()) == n % 16);
        vstd::arithmetic::power::lemma_pow_adds(16, 1, w);
        vstd::arithmetic::power::lemma_pow1(16);
        vstd::arithmetic::power::lemma_pow_positive(16, w);
        vstd::arithmetic::div_mod::lemma_mod_breakdown(n as int, 16, pow(16, w));
        assert forall|i: int| 0 <= i < width implies '0' <= #[trigger] h[i] <= '9' || 'a' <= h[i]
            <= 'f' by {
            if i < w {
                assert(h[i] == hex(n / 16, w)[i]);
            }
        }
    }
}

/// A text denotes a number exactly where it is digits alone, at least one of
/// them, with or without a plus sign before them, and the number is not too
/// large.
pub proof fn all_digits_are_numbers(s: Seq<char>, max: nat)
    requires
        s.len() > 0,
        forall|i: int| 0 <= i < s.len() ==> '0' <= #[trigger] s[i] <= '9',
    ensures
        digits_value(s) is Some,
        parse_unsigned(s, max) == (if digits_value(s)->0 <= max {
            digits_value(s)
        } else {
            None
        }),
        parse_unsigned(seq!['+'] + s, max) == parse_unsigned(s, max),
{
    lemma_digits_have_a_value(s);
    let signed = seq!['+'] + s;
    assert(signed.drop_first() =~= s);
    assert('0' <= s[0] <= '9');
}

proof fn lemma_digits_have_a_value(s: Seq<char>)
    requires
        forall|i: int| 0 <= i < s.len() ==> '0' <= #[trigger] s[i] <= '9',
    ensures
        digits_value(s) is Some,
    decreases s.len(),
{
    if s.len() > 0 {
        let rest = s.drop_last();
        assert forall|i: int| 0 <= i < rest.len() implies '0' <= #[trigger] rest[i] <= '9' by {
            assert(rest[i] == s[i]);
        }
        lemma_digits_have_a_value(rest);
        assert('0' <= s[s.len() - 1] <= '9');
    }
}

/// A number below ten is written as its digit, and any other as what is before
/// its last digit and that digit; so there are no zeros before it.
pub proof fn numbers_are_written_digit_by_digit(n: nat, d: nat)
    requires
        d < 10,
    ensures
        decimal(d).len() == 1,
        decimal(d)[0] as u32 == 48 + d,
        digits_value(decimal(d)) == Some(d),
        n > 0 ==> decimal(10 * n + d) == decimal(n) + decimal(d),
        n > 0 ==> decimal(n)[0] != '0',
    decreases n,
{
    decimal_reads_back(d);
    if n > 0 {
        assert((10 * n + d) / 10 == n && (10 * n + d) % 10 == d);
        assert(decimal(10 * n + d) =~= decimal(n) + decimal(d));
        if n >= 10 {
            numbers_are_written_digit_by_digit(n / 10, d);
            decimal_reads_back(n / 10);
            assert(decimal(n)[0] == decimal(n / 10)[0]);
        }
    }
}

/// A text without the separator is one piece.
pub proof fn one_piece_without_separator(text: Seq<char>, sep: char)
    requires
        !text.contains(sep),
    ensures
        split(text, sep) == seq![text],
    decreases text.len(),
{
    if text.len() > 0 {
        let rest = text.drop_last();
        assert(text.contains(text[text.len() - 1]));
        if rest.contains(sep) {
            let i = rest.index_of(sep);
            assert(text[i] == sep);
        }
        one_piece_without_separator(rest, sep);
        assert(rest.push(text.last()) =~= text);
        assert(split(text, sep) =~= seq![text]);
    } else {
        assert(text =~= Seq::empty());
    }
}

/// What follows the last separator of a text is a piece of its own after those of
/// what is before it.
pub proof fn each_separator_begins_a_piece(a: Seq<char>, b: Seq<char>, sep: char)
    requires
        !b.contains(sep),
    ensures
        split(a + seq![sep] + b, sep) == split(a, sep).push(b),
    decreases b.len(),
{
    let whole = a + seq![sep] + b;
    if b.len() == 0 {
        assert(whole =~= a + seq![sep]);
        assert(whole.drop_last() =~= a);
        assert(whole.last() == sep);
        assert(b =~= Seq::empty());
    } else {
        let rest = b.drop_last();
        assert(b.contains(b[b.len() - 1]));
        if rest.contains(sep) {
            let i = rest.index_of(sep);
            assert(b[i] == sep);
        }
        each_separator_begins_a_piece(a, rest, sep);
        assert(whole.drop_last() =~= a + seq![sep] + rest);
        assert(whole.last() == b.last());
        assert(rest.push(b.last()) =~= b);
        assert(split(whole, sep) =~= split(a, sep).push(b));
    }
}

} // verus!
