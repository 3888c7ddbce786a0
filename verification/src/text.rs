//! Text as a sequence of characters: comparison, trimming, splitting, and
//! the decimal and hexadecimal notations.

use vstd::prelude::*;
use vstd::utf8::{encode_utf8, encode_utf8_decode_utf8};

verus! {

/// `String::push` appends one character.
pub assume_specification[ String::push ](s: &mut String, c: char)
    ensures
        final(s)@ == old(s)@.push(c),
;

/// The characters of each string of a sequence.
pub open spec fn strs_view(s: Seq<String>) -> Seq<Seq<char>> {
    s.map_values(|x: String| x@)
}

/// The characters of an optional string.
pub open spec fn opt_view(s: Option<String>) -> Option<Seq<char>> {
    match s {
        Some(x) => Some(x@),
        None => None,
    }
}

/// The characters of an optional string slice.
pub open spec fn opt_str_view(s: Option<&str>) -> Option<Seq<char>> {
    match s {
        Some(x) => Some(x@),
        None => None,
    }
}

/// Whether two strings hold the same characters.
pub fn str_eq(a: &str, b: &str) -> (r: bool)
    ensures
        r == (a@ == b@),
{
    let x = a.as_bytes();
    let y = b.as_bytes();
    if x.len() != y.len() {
        return false;
    }
    let n: usize = x.len();
    let mut i: usize = 0;
    while i < n
        invariant
            i <= n,
            n == x@.len(),
            n == y@.len(),
            x@ == encode_utf8(a@),
            y@ == encode_utf8(b@),
            forall|k: int| 0 <= k < i ==> x@[k] == y@[k],
        decreases n - i,
    {
        if x[i] != y[i] {
            return false;
        }
        i = i + 1;
    }
    proof {
        assert(x@ =~= y@);
        encode_utf8_decode_utf8(a@);
        encode_utf8_decode_utf8(b@);
        assert(a@ == b@);
    }
    true
}

/// A copy of an optional string.
pub fn copy_opt(s: &Option<String>) -> (r: Option<String>)
    ensures
        opt_view(r) == opt_view(*s),
{
    match s {
        Some(x) => Some(x.clone()),
        None => None,
    }
}

/// An owned copy of an optional string slice.
pub fn own_opt(s: Option<&str>) -> (r: Option<String>)
    ensures
        opt_view(r) == opt_str_view(s),
{
    match s {
        Some(x) => Some(x.to_owned()),
        None => None,
    }
}

/// The characters of a string, in order.
pub fn chars_of(s: &str) -> (r: Vec<char>)
    ensures
        r@ == s@,
{
    let mut out: Vec<char> = Vec::new();
    for c in it: s.chars()
        invariant
            out@ == s@.take(it.index()),
            it.seq() == s@,
    {
        out.push(c);
    }
    proof {
        assert(s@.take(s@.len() as int) =~= s@);
    }
    out
}

/// The string made of the characters at `lo..hi`.
pub fn string_of(c: &Vec<char>, lo: usize, hi: usize) -> (r: String)
    requires
        lo <= hi <= c@.len(),
    ensures
        r@ == c@.subrange(lo as int, hi as int),
{
    let mut out = String::new();
    let mut i: usize = lo;
    while i < hi
        invariant
            lo <= i <= hi <= c@.len(),
            out@ == c@.subrange(lo as int, i as int),
        decreases hi - i,
    {
        out.push(c[i]);
        i = i + 1;
        proof {
            assert(c@.subrange(lo as int, i as int) =~= c@.subrange(lo as int, i - 1).push(
                c@[i - 1],
            ));
        }
    }
    out
}

/// The characters with the Unicode property `White_Space`.
pub open spec fn is_whitespace(c: char) -> bool {
    let n = c as u32;
    ||| 0x9 <= n <= 0xd
    ||| n == 0x20
    ||| n == 0x85
    ||| n == 0xa0
    ||| n == 0x1680
    ||| 0x2000 <= n <= 0x200a
    ||| n == 0x2028
    ||| n == 0x2029
    ||| n == 0x202f
    ||| n == 0x205f
    ||| n == 0x3000
}

fn whitespace(c: char) -> (r: bool)
    ensures
        r == is_whitespace(c),
{
    let n: u32 = c as u32;
    (0x9 <= n && n <= 0xd) || n == 0x20 || n == 0x85 || n == 0xa0 || n == 0x1680 || (0x2000 <= n
        && n <= 0x200a) || n == 0x2028 || n == 0x2029 || n == 0x202f || n == 0x205f || n == 0x3000
}

/// The text without its trailing white space.
pub open spec fn trim_end(s: Seq<char>) -> Seq<char>
    decreases s.len(),
{
    if s.len() > 0 && is_whitespace(s.last()) {
        trim_end(s.drop_last())
    } else {
        s
    }
}

/// The text without its leading white space.
pub open spec fn trim_start(s: Seq<char>) -> Seq<char>
    decreases s.len(),
{
    if s.len() > 0 && is_whitespace(s[0]) {
        trim_start(s.drop_first())
    } else {
        s
    }
}

/// The text without the white space around it.
pub open spec fn trim(s: Seq<char>) -> Seq<char> {
    trim_end(trim_start(s))
}

/// Where the characters at `lo..hi` end without their trailing white space.
pub fn end_trimmed(c: &Vec<char>, lo: usize, hi: usize) -> (r: usize)
    requires
        lo <= hi <= c@.len(),
    ensures
        lo <= r <= hi,
        c@.subrange(lo as int, r as int) == trim_end(c@.subrange(lo as int, hi as int)),
{
    let mut end: usize = hi;
    while end > lo && whitespace(c[end - 1])
        invariant
            lo <= end <= hi <= c@.len(),
            trim_end(c@.subrange(lo as int, end as int)) == trim_end(
                c@.subrange(lo as int, hi as int),
            ),
        decreases end,
    {
        proof {
            assert(c@.subrange(lo as int, end as int).drop_last() =~= c@.subrange(
                lo as int,
                end - 1,
            ));
        }
        end = end - 1;
    }
    end
}

/// Where the characters at `lo..hi` begin without their leading white space.
pub fn start_trimmed(c: &Vec<char>, lo: usize, hi: usize) -> (r: usize)
    requires
        lo <= hi <= c@.len(),
    ensures
        lo <= r <= hi,
        c@.subrange(r as int, hi as int) == trim_start(c@.subrange(lo as int, hi as int)),
{
    let mut start: usize = lo;
    while start < hi && whitespace(c[start])
        invariant
            lo <= start <= hi <= c@.len(),
            trim_start(c@.subrange(start as int, hi as int)) == trim_start(
                c@.subrange(lo as int, hi as int),
            ),
        decreases hi - start,
    {
        proof {
            assert(c@.subrange(start as int, hi as int).drop_first() =~= c@.subrange(
                start + 1,
                hi as int,
            ));
        }
        start = start + 1;
    }
    start
}

/// What follows the prefix, where the text begins with it.
pub open spec fn strip_prefix(s: Seq<char>, prefix: Seq<char>) -> Option<Seq<char>> {
    if prefix.is_prefix_of(s) {
        Some(s.skip(prefix.len() as int))
    } else {
        None
    }
}

/// Whether the characters at `lo..hi` begin with the prefix.
pub fn begins_with(c: &Vec<char>, lo: usize, hi: usize, prefix: &Vec<char>) -> (r: bool)
    requires
        lo <= hi <= c@.len(),
    ensures
        r == prefix@.is_prefix_of(c@.subrange(lo as int, hi as int)),
        r ==> prefix@.len() <= hi - lo,
{
    let ghost s = c@.subrange(lo as int, hi as int);
    let n: usize = prefix.len();
    if n > hi - lo {
        return false;
    }
    let mut i: usize = 0;
    while i < n
        invariant
            i <= n,
            n == prefix@.len(),
            n <= hi - lo,
            lo <= hi <= c@.len(),
            s == c@.subrange(lo as int, hi as int),
            forall|k: int| 0 <= k < i ==> prefix@[k] == s[k],
        decreases n - i,
    {
        if prefix[i] != c[lo + i] {
            proof {
                assert(s.subrange(0, n as int)[i as int] == s[i as int]);
            }
            return false;
        }
        i = i + 1;
    }
    proof {
        assert(prefix@ =~= s.subrange(0, n as int));
    }
    true
}

/// What follows the prefix, where the text begins with it.
pub fn stripped(s: &str, prefix: &str) -> (r: Option<String>)
    ensures
        opt_view(r) == strip_prefix(s@, prefix@),
{
    let c = chars_of(s);
    let p = chars_of(prefix);
    proof {
        assert(c@.subrange(0, c@.len() as int) =~= c@);
    }
    if begins_with(&c, 0, c.len(), &p) {
        Some(string_of(&c, p.len(), c.len()))
    } else {
        None
    }
}

/// The value of a decimal digit.
pub open spec fn digit_value(c: char) -> Option<nat> {
    if '0' <= c <= '9' {
        Some((c as u32 - '0' as u32) as nat)
    } else {
        None
    }
}

/// The number that a row of decimal digits denotes, the empty row being zero.
pub open spec fn digits_value(s: Seq<char>) -> Option<nat>
    decreases s.len(),
{
    if s.len() == 0 {
        Some(0)
    } else {
        match (digits_value(s.drop_last()), digit_value(s.last())) {
            (Some(n), Some(d)) => Some(10 * n + d),
            _ => None,
        }
    }
}

/// The number that a text denotes: digits, at least one, after an optional
/// `+`, and no more than `max`.
pub open spec fn parse_unsigned(s: Seq<char>, max: nat) -> Option<nat> {
    let digits = if s.len() > 0 && s[0] == '+' {
        s.drop_first()
    } else {
        s
    };
    match digits_value(digits) {
        Some(n) => if digits.len() > 0 && n <= max {
            Some(n)
        } else {
            None
        },
        None => None,
    }
}

proof fn lemma_digits_grow(s: Seq<char>, k: int)
    requires
        0 <= k <= s.len(),
    ensures
        digits_value(s.take(k)) is None ==> digits_value(s) is None,
        digits_value(s) matches Some(n) ==> digits_value(s.take(k))->0 <= n,
    decreases s.len(),
{
    if k < s.len() {
        lemma_digits_grow(s.drop_last(), k);
        assert(s.drop_last().take(k) =~= s.take(k));
    } else {
        assert(s.take(k) =~= s);
    }
}

/// Reads the number at `lo..hi`.
pub fn parse_number(c: &Vec<char>, lo: usize, hi: usize, max: u64) -> (r: Option<u64>)
    requires
        lo <= hi <= c@.len(),
    ensures
        match (r, parse_unsigned(c@.subrange(lo as int, hi as int), max as nat)) {
            (Some(a), Some(b)) => a == b,
            (None, None) => true,
            _ => false,
        },
{
    let ghost s = c@.subrange(lo as int, hi as int);
    let start: usize = if lo < hi && c[lo] == '+' {
        lo + 1
    } else {
        lo
    };
    let ghost digits = c@.subrange(start as int, hi as int);
    proof {
        if s.len() > 0 && s[0] == '+' {
            assert(digits =~= s.drop_first());
        } else {
            assert(digits =~= s);
        }
    }
    if start == hi {
        return None;
    }
    let mut n: u64 = 0;
    let mut i: usize = start;
    proof {
        assert(digits.take(0) =~= Seq::<char>::empty());
    }
    while i < hi
        invariant
            lo <= start <= i <= hi <= c@.len(),
            start < hi,
            s == c@.subrange(lo as int, hi as int),
            digits == c@.subrange(start as int, hi as int),
            digits == (if s.len() > 0 && s[0] == '+' {
                s.drop_first()
            } else {
                s
            }),
            digits_value(digits.take(i - start)) == Some(n as nat),
            n <= max,
        decreases hi - i,
    {
        let ch = c[i];
        proof {
            let k = i - start;
            assert(digits.take(k + 1).drop_last() =~= digits.take(k));
            assert(digits.take(k + 1).last() == ch);
            lemma_digits_grow(digits, k + 1);
        }
        if !('0' <= ch && ch <= '9') {
            return None;
        }
        let d: u64 = ch as u64 - '0' as u64;
        if n > max / 10 || d > max - 10 * n {
            return None;
        }
        n = 10 * n + d;
        i = i + 1;
    }
    proof {
        assert(digits.take(hi - start) =~= digits);
    }
    Some(n)
}

/// The character of a decimal digit.
pub open spec fn digit_char(d: nat) -> char {
    (('0' as u32) + d) as char
}

/// A number in decimal notation.
pub open spec fn decimal(n: nat) -> Seq<char>
    decreases n,
{
    if n < 10 {
        seq![digit_char(n)]
    } else {
        decimal(n / 10).push(digit_char(n % 10))
    }
}

fn digit(d: u64) -> (r: char)
    requires
        d < 10,
    ensures
        r == digit_char(d as nat),
{
    (48u8 + d as u8) as char
}

/// Writes a number in decimal notation.
pub fn decimal_text(n: u64) -> (r: String)
    ensures
        r@ == decimal(n as nat),
    decreases n,
{
    if n < 10 {
        let mut s = String::new();
        s.push(digit(n));
        proof {
            assert(s@ =~= seq![digit_char(n as nat)]);
        }
        s
    } else {
        let mut s = decimal_text(n / 10);
        s.push(digit(n % 10));
        s
    }
}

/// Reading a number back from its decimal notation gives the number.
pub proof fn decimal_reads_back(n: nat)
    ensures
        digits_value(decimal(n)) == Some(n),
        decimal(n).len() > 0,
        forall|i: int| 0 <= i < decimal(n).len() ==> '0' <= #[trigger] decimal(n)[i] <= '9',
    decreases n,
{
    reveal_with_fuel(digits_value, 2);
    if n < 10 {
        assert(decimal(n).drop_last() =~= Seq::<char>::empty());
    } else {
        decimal_reads_back(n / 10);
        assert(decimal(n).drop_last() =~= decimal(n / 10));
    }
}

/// Two numbers with the same decimal notation are equal.
pub proof fn decimal_is_injective(a: nat, b: nat)
    requires
        decimal(a) == decimal(b),
    ensures
        a == b,
{
    decimal_reads_back(a);
    decimal_reads_back(b);
}

/// The character of a hexadecimal digit, in lower case.
pub open spec fn hex_char(d: nat) -> char {
    if d < 10 {
        (('0' as u32) + d) as char
    } else {
        (('a' as u32) + d - 10) as char
    }
}

/// The last `width` hexadecimal digits of a number.
pub open spec fn hex(n: nat, width: nat) -> Seq<char>
    decreases width,
{
    if width == 0 {
        Seq::empty()
    } else {
        hex(n / 16, (width - 1) as nat).push(hex_char(n % 16))
    }
}

/// Appends the last `width` hexadecimal digits of a number.
pub fn push_hex(out: &mut String, n: u64, width: usize)
    ensures
        final(out)@ == old(out)@ + hex(n as nat, width as nat),
    decreases width,
{
    if width > 0 {
        push_hex(out, n / 16, width - 1);
        let d: u8 = (n % 16) as u8;
        let c: char = if d < 10 {
            (48u8 + d) as char
        } else {
            (97u8 + (d - 10)) as char
        };
        out.push(c);
    }
    proof {
        assert(out@ =~= old(out)@ + hex(n as nat, width as nat));
    }
}

/// The hexadecimal notation has the width that was asked for.
pub proof fn hex_has_its_width(n: nat, width: nat)
    ensures
        hex(n, width).len() == width,
    decreases width,
{
    if width > 0 {
        hex_has_its_width(n / 16, (width - 1) as nat);
    }
}

/// A text cut at each separator.
pub open spec fn split(s: Seq<char>, sep: char) -> Seq<Seq<char>>
    decreases s.len(),
{
    if s.len() == 0 {
        seq![Seq::empty()]
    } else {
        let pieces = split(s.drop_last(), sep);
        if s.last() == sep {
            pieces.push(Seq::empty())
        } else {
            pieces.drop_last().push(pieces.last().push(s.last()))
        }
    }
}

/// Texts put together with a separator between them.
pub open spec fn join(pieces: Seq<Seq<char>>, sep: Seq<char>) -> Seq<char>
    decreases pieces.len(),
{
    if pieces.len() == 0 {
        Seq::empty()
    } else if pieces.len() == 1 {
        pieces[0]
    } else {
        join(pieces.drop_last(), sep) + sep + pieces.last()
    }
}

/// Puts texts together with a separator between them.
pub fn join_text(pieces: &Vec<String>, sep: &str) -> (r: String)
    ensures
        r@ == join(strs_view(pieces@), sep@),
{
    let ghost all = strs_view(pieces@);
    let mut out = String::new();
    let mut i: usize = 0;
    proof {
        assert(all.take(0) =~= Seq::<Seq<char>>::empty());
        assert(out@ =~= join(all.take(0), sep@));
    }
    while i < pieces.len()
        invariant
            i <= pieces@.len(),
            all == strs_view(pieces@),
            out@ == join(all.take(i as int), sep@),
        decreases pieces@.len() - i,
    {
        proof {
            assert(all.take(i + 1).drop_last() =~= all.take(i as int));
            assert(all.take(i + 1).last() == pieces@[i as int]@);
            assert(all.take(0) =~= Seq::<Seq<char>>::empty());
        }
        if i > 0 {
            out.append(sep);
        }
        out.append(pieces[i].as_str());
        i = i + 1;
        proof {
            assert(out@ =~= join(all.take(i as int), sep@));
        }
    }
    proof {
        assert(all.take(i as int) =~= all);
    }
    out
}

/// Cuts a text at each separator.
pub fn split_text(s: &str, sep: char) -> (r: Vec<String>)
    ensures
        strs_view(r@) == split(s@, sep),
{
    let mut pieces: Vec<String> = Vec::new();
    let mut cur = String::new();
    proof {
        assert(s@.take(0) =~= Seq::<char>::empty());
        assert(strs_view(pieces@).push(cur@) =~= split(s@.take(0), sep));
    }
    for c in it: s.chars()
        invariant
            it.seq() == s@,
            strs_view(pieces@).push(cur@) == split(s@.take(it.index()), sep),
    {
        proof {
            let k = it.index();
            assert(s@.take(k + 1).drop_last() =~= s@.take(k));
            assert(s@.take(k + 1).last() == c);
        }
        let ghost before = strs_view(pieces@).push(cur@);
        if c == sep {
            pieces.push(cur);
            cur = String::new();
            proof {
                assert(strs_view(pieces@).push(cur@) =~= before.push(Seq::empty()));
            }
        } else {
            cur.push(c);
            proof {
                assert(strs_view(pieces@).push(cur@) =~= before.drop_last().push(
                    before.last().push(c),
                ));
            }
        }
    }
    proof {
        assert(s@.take(s@.len() as int) =~= s@);
    }
    let ghost before = strs_view(pieces@).push(cur@);
    pieces.push(cur);
    proof {
        assert(strs_view(pieces@) =~= before);
    }
    pieces
}

/// Cutting a text and joining the pieces again gives the text, and no piece holds
/// a separator.
pub proof fn split_then_join(s: Seq<char>, sep: char)
    ensures
        join(split(s, sep), seq![sep]) == s,
        split(s, sep).len() > 0,
        forall|i: int| 0 <= i < split(s, sep).len() ==> !(#[trigger] split(s, sep)[i]).contains(sep),
    decreases s.len(),
{
    reveal_with_fuel(join, 2);
    let r = split(s, sep);
    if s.len() == 0 {
        assert(r[0] =~= s);
    } else {
        let p = split(s.drop_last(), sep);
        split_then_join(s.drop_last(), sep);
        if s.last() == sep {
            assert(r.drop_last() =~= p);
            assert(join(r, seq![sep]) =~= s);
        } else {
            assert(r.drop_last() =~= p.drop_last());
            assert(r.last() == p.last().push(s.last()));
            assert(join(p, seq![sep]) == s.drop_last());
            if p.len() == 1 {
                assert(join(r, seq![sep]) =~= s);
            } else {
                assert(join(r, seq![sep]) == join(p.drop_last(), seq![sep]) + seq![sep] + r.last());
                assert(join(r, seq![sep]) =~= join(p, seq![sep]).push(s.last()));
                assert(join(r, seq![sep]) =~= s);
            }
            assert forall|i: int| 0 <= i < r.len() implies !(#[trigger] r[i]).contains(sep) by {
                if i == r.len() - 1 {
                    let last = p.last();
                    assert(!p[p.len() - 1].contains(sep));
                    if r[i].contains(sep) {
                        let k = r[i].index_of(sep);
                        assert(r[i][k] == sep);
                        assert(k < last.len());
                        assert(last[k] == sep);
                    }
                } else {
                    assert(r[i] == p[i]);
                }
            }
        }
    }
}

/// The pieces of two texts put together are those of the one and those of the
/// other, with the last of the one and the first of the other in one piece.
pub proof fn split_of_joined_texts(a: Seq<char>, b: Seq<char>, sep: char)
    ensures
        split(a, sep).len() > 0,
        split(b, sep).len() > 0,
        split(a + b, sep) == split(a, sep).drop_last() + seq![
            split(a, sep).last() + split(b, sep)[0],
        ] + split(b, sep).drop_first(),
    decreases b.len(),
{
    split_then_join(a, sep);
    split_then_join(b, sep);
    let x = split(a, sep);
    if b.len() == 0 {
        assert(a + b =~= a);
        assert(x.last() + split(b, sep)[0] =~= x.last());
        assert(split(a + b, sep) =~= x.drop_last() + seq![x.last() + split(b, sep)[0]] + split(
            b,
            sep,
        ).drop_first());
    } else {
        let rest = b.drop_last();
        let y = split(rest, sep);
        let whole = split(a + rest, sep);
        split_of_joined_texts(a, rest, sep);
        assert((a + b).drop_last() =~= a + rest);
        assert((a + b).last() == b.last());
        if b.last() == sep {
            assert(split(b, sep) == y.push(Seq::empty()));
            assert(split(a + b, sep) == whole.push(Seq::empty()));
            assert(split(a + b, sep) =~= x.drop_last() + seq![x.last() + split(b, sep)[0]]
                + split(b, sep).drop_first());
        } else {
            let z = split(b, sep);
            assert(z == y.drop_last().push(y.last().push(b.last())));
            assert(split(a + b, sep) == whole.drop_last().push(whole.last().push(b.last())));
            if y.len() == 1 {
                assert(whole.last() == x.last() + y[0]);
                assert(x.last() + z[0] =~= whole.last().push(b.last()));
            } else {
                assert(whole.last() == y.last());
            }
            assert(split(a + b, sep) =~= x.drop_last() + seq![x.last() + z[0]] + z.drop_first());
        }
    }
}

/// How many characters come before the first that is `c`.
pub open spec fn first_index(s: Seq<char>, c: char) -> nat
    decreases s.len(),
{
    if s.len() == 0 || s[0] == c {
        0
    } else {
        1 + first_index(s.drop_first(), c)
    }
}

/// What stands before and after the first `c`, where there is one.
pub open spec fn split_once(s: Seq<char>, c: char) -> Option<(Seq<char>, Seq<char>)> {
    let i = first_index(s, c) as int;
    if i < s.len() {
        Some((s.take(i), s.skip(i + 1)))
    } else {
        None
    }
}

/// Cuts a text at the first `c`.
pub fn cut(s: &str, c: char) -> (r: Option<(String, String)>)
    ensures
        match (r, split_once(s@, c)) {
            (Some((a, b)), Some((x, y))) => a@ == x && b@ == y,
            (None, None) => true,
            _ => false,
        },
{
    let chars = chars_of(s);
    let n: usize = chars.len();
    let mut i: usize = 0;
    proof {
        assert(s@.skip(0) =~= s@);
    }
    while i < n
        invariant
            i <= n,
            n == chars@.len(),
            chars@ == s@,
            first_index(s@, c) == i + first_index(s@.skip(i as int), c),
        decreases n - i,
    {
        proof {
            assert(s@.skip(i as int).drop_first() =~= s@.skip(i + 1));
        }
        if chars[i] == c {
            let a = string_of(&chars, 0, i);
            let b = string_of(&chars, i + 1, n);
            proof {
                assert(a@ =~= s@.take(i as int));
                assert(b@ =~= s@.skip(i + 1));
            }
            return Some((a, b));
        }
        i = i + 1;
    }
    None
}

/// Reads a number.
pub fn parse_u64(s: &str) -> (r: Option<u64>)
    ensures
        match (r, parse_unsigned(s@, u64::MAX as nat)) {
            (Some(a), Some(b)) => a == b,
            (None, None) => true,
            _ => false,
        },
{
    let c = chars_of(s);
    proof {
        assert(c@.subrange(0, c@.len() as int) =~= c@);
    }
    parse_number(&c, 0, c.len(), u64::MAX)
}

} // verus!
