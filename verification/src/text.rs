//! Text as sequences of characters: conversion between strings and
//! character vectors, trimming, replacing, and decimal numbers.

use vstd::prelude::*;
use vstd::string::*;

verus! {

/// `String::push` adds one character at the end of the string.
pub assume_specification[ String::push ](s: &mut String, ch: char)
    ensures
        final(s)@ == old(s)@.push(ch),
;

/// The characters of `s`, in order.
pub fn chars_of(s: &str) -> (chars: Vec<char>)
    ensures
        chars@ == s@,
{
    let mut chars: Vec<char> = Vec::new();
    for c in it: s.chars()
        invariant
            it.seq() == s@,
            chars@ == s@.take(it.index() as int),
    {
        chars.push(c);
    }
    chars
}

/// The string made of the characters `chars[from..to]`.
pub fn string_of(chars: &Vec<char>, from: usize, to: usize) -> (s: String)
    requires
        from <= to <= chars.len(),
    ensures
        s@ == chars@.subrange(from as int, to as int),
{
    let mut s = String::new();
    let mut i: usize = from;
    while i < to
        invariant
            from <= i <= to <= chars.len(),
            s@ == chars@.subrange(from as int, i as int),
        decreases to - i,
    {
        s.push(chars[i]);
        i += 1;
    }
    s
}

/// Whether `a` and `b` hold the same characters.
pub fn same_text(a: &str, b: &str) -> (same: bool)
    ensures
        same == (a@ == b@),
{
    let x = chars_of(a);
    let y = chars_of(b);
    assert(x@.subrange(0, x.len() as int) =~= x@);
    same_chars(&x, 0, x.len(), &y)
}

/// Whether `chars[from..to]` holds exactly the characters of `other`.
pub fn same_chars(chars: &Vec<char>, from: usize, to: usize, other: &Vec<char>) -> (same: bool)
    requires
        from <= to <= chars.len(),
    ensures
        same == (chars@.subrange(from as int, to as int) == other@),
{
    if to - from != other.len() {
        return false;
    }
    let mut i: usize = 0;
    while i < other.len()
        invariant
            from <= to <= chars.len(),
            to - from == other.len(),
            i <= other.len(),
            forall|k: int| 0 <= k < i ==> chars@[from + k] == other@[k],
        decreases other.len() - i,
    {
        if chars[from + i] != other[i] {
            assert(chars@.subrange(from as int, to as int)[i as int] != other@[i as int]);
            return false;
        }
        i += 1;
    }
    assert(chars@.subrange(from as int, to as int) =~= other@);
    true
}

/// The characters that count as white space: those with the Unicode
/// property `White_Space`.
pub open spec fn is_white_space(c: char) -> bool {
    let n = c as u32;
    ||| 0x09 <= n <= 0x0d
    ||| n == 0x20
    ||| n == 0x85
    ||| n == 0xa0
    ||| n == 0x1680
    ||| 0x2000 <= n <= 0x200a
    ||| n == 0x2028
    ||| n == 0x2029
    ||| n == 0x202f
    ||| n == 0x205f
    ||| n == 0x3000
}

/// Whether `c` is white space.
pub fn is_whitespace(c: char) -> (b: bool)
    ensures
        b == is_white_space(c),
{
    let n: u32 = c as u32;
    (0x09 <= n && n <= 0x0d) || n == 0x20 || n == 0x85 || n == 0xa0 || n == 0x1680 || (0x2000 <= n
        && n <= 0x200a) || n == 0x2028 || n == 0x2029 || n == 0x202f || n == 0x205f || n == 0x3000
}

/// `s` without the characters of kind `drop` that it starts with.
pub open spec fn strip_start(s: Seq<char>, drop: spec_fn(char) -> bool) -> Seq<char>
    decreases s.len(),
{
    if s.len() > 0 && drop(s.first()) {
        strip_start(s.drop_first(), drop)
    } else {
        s
    }
}

/// `s` without the characters of kind `drop` that it ends with.
pub open spec fn strip_end(s: Seq<char>, drop: spec_fn(char) -> bool) -> Seq<char>
    decreases s.len(),
{
    if s.len() > 0 && drop(s.last()) {
        strip_end(s.drop_last(), drop)
    } else {
        s
    }
}

/// The place of the last character of kind `kind` in `s`, and -1 where `s`
/// holds none.
pub open spec fn last_where(s: Seq<char>, kind: spec_fn(char) -> bool) -> int
    decreases s.len(),
{
    if s.len() == 0 {
        -1
    } else if kind(s.last()) {
        s.len() - 1
    } else {
        last_where(s.drop_last(), kind)
    }
}

/// The place of the first character of kind `kind` in `s`, and the length
/// of `s` where it holds none.
pub open spec fn first_where(s: Seq<char>, kind: spec_fn(char) -> bool) -> int
    decreases s.len(),
{
    if s.len() == 0 {
        0
    } else if kind(s.first()) {
        0
    } else {
        1 + first_where(s.drop_first(), kind)
    }
}

/// The kind of the white space characters.
pub open spec fn white_space() -> spec_fn(char) -> bool {
    |c: char| is_white_space(c)
}

/// `s` without the white space at either end.
pub open spec fn trimmed(s: Seq<char>) -> Seq<char> {
    strip_end(strip_start(s, white_space()), white_space())
}

/// Skipping a run of `drop` at the start of `s` is what `strip_start` does.
pub proof fn lemma_strip_start(s: Seq<char>, drop: spec_fn(char) -> bool, n: int)
    requires
        0 <= n <= s.len(),
        forall|k: int| 0 <= k < n ==> drop(s[k]),
        n == s.len() || !drop(s[n]),
    ensures
        strip_start(s, drop) == s.skip(n),
    decreases n,
{
    if n == 0 {
        assert(s.skip(0) =~= s);
    } else {
        lemma_strip_start(s.drop_first(), drop, n - 1);
        assert(s.drop_first().skip(n - 1) =~= s.skip(n));
    }
}

/// Dropping a run of `drop` at the end of `s` is what `strip_end` does.
pub proof fn lemma_strip_end(s: Seq<char>, drop: spec_fn(char) -> bool, n: int)
    requires
        0 <= n <= s.len(),
        forall|k: int| n <= k < s.len() ==> drop(s[k]),
        n == 0 || !drop(s[n - 1]),
    ensures
        strip_end(s, drop) == s.take(n),
    decreases s.len() - n,
{
    if n == s.len() {
        assert(s.take(n) =~= s);
    } else {
        lemma_strip_end(s.drop_last(), drop, n);
        assert(s.drop_last().take(n) =~= s.take(n));
    }
}

/// A place after which `s` holds no character of kind `kind`, and which
/// holds one itself or is -1, is what `last_where` gives.
pub proof fn lemma_last_where(s: Seq<char>, kind: spec_fn(char) -> bool, n: int)
    requires
        -1 <= n < s.len(),
        forall|k: int| n < k < s.len() ==> !kind(s[k]),
        n == -1 || kind(s[n]),
    ensures
        last_where(s, kind) == n,
    decreases s.len(),
{
    if s.len() > 0 && n < s.len() - 1 {
        lemma_last_where(s.drop_last(), kind, n);
    }
}

/// `first_where` gives a place in `s` or its length; no character before
/// that place is of kind `kind`, and the one at the place is.
pub proof fn lemma_first_where_is_first(s: Seq<char>, kind: spec_fn(char) -> bool)
    ensures
        0 <= first_where(s, kind) <= s.len(),
        forall|k: int| 0 <= k < first_where(s, kind) ==> !kind(s[k]),
        first_where(s, kind) < s.len() ==> kind(s[first_where(s, kind)]),
    decreases s.len(),
{
    if s.len() > 0 && !kind(s.first()) {
        let rest = s.drop_first();
        lemma_first_where_is_first(rest, kind);
        assert forall|k: int| 0 <= k < first_where(s, kind) implies !kind(s[k]) by {
            if k > 0 {
                assert(s[k] == rest[k - 1]);
            }
        }
        if first_where(s, kind) < s.len() {
            assert(s[first_where(s, kind)] == rest[first_where(rest, kind)]);
        }
    }
}

/// A place before which `s` holds no character of kind `kind`, and which
/// holds one itself or is the length of `s`, is what `first_where` gives.
pub proof fn lemma_first_where(s: Seq<char>, kind: spec_fn(char) -> bool, n: int)
    requires
        0 <= n <= s.len(),
        forall|k: int| 0 <= k < n ==> !kind(s[k]),
        n == s.len() || kind(s[n]),
    ensures
        first_where(s, kind) == n,
    decreases n,
{
    if n > 0 {
        let rest = s.drop_first();
        assert forall|k: int| 0 <= k < n - 1 implies !kind(rest[k]) by {
            assert(rest[k] == s[k + 1]);
        }
        lemma_first_where(rest, kind, n - 1);
    }
}

/// `text` without the white space at either end.
pub fn trim(text: &str) -> (r: String)
    ensures
        r@ == trimmed(text@),
{
    let chars = chars_of(text);
    let mut from: usize = 0;
    while from < chars.len() && is_whitespace(chars[from])
        invariant
            from <= chars.len(),
            forall|k: int| 0 <= k < from ==> is_white_space(chars@[k]),
        decreases chars.len() - from,
    {
        from += 1;
    }
    let mut to: usize = chars.len();
    while to > from && is_whitespace(chars[to - 1])
        invariant
            from <= to <= chars.len(),
            forall|k: int| to <= k < chars.len() ==> is_white_space(chars@[k]),
        decreases to,
    {
        to -= 1;
    }
    proof {
        lemma_strip_start(chars@, white_space(), from as int);
        let rest = chars@.skip(from as int);
        assert forall|k: int| to - from <= k < rest.len() implies white_space()(rest[k]) by {
            assert(rest[k] == chars@[from + k]);
        }
        lemma_strip_end(rest, white_space(), to - from);
        assert(rest.take(to - from) =~= chars@.subrange(from as int, to as int));
    }
    string_of(&chars, from, to)
}

/// `s` with every `from` turned into `to`.
pub open spec fn replaced(s: Seq<char>, from: char, to: char) -> Seq<char> {
    Seq::new(
        s.len(),
        |i: int|
            if s[i] == from {
                to
            } else {
                s[i]
            },
    )
}

/// `text` with every `from` turned into `to`.
pub fn replace_char(text: &str, from: char, to: char) -> (r: String)
    ensures
        r@ == replaced(text@, from, to),
{
    let chars = chars_of(text);
    let mut r = String::new();
    let mut i: usize = 0;
    while i < chars.len()
        invariant
            i <= chars.len(),
            chars@ == text@,
            r@ == replaced(text@, from, to).take(i as int),
        decreases chars.len() - i,
    {
        let c = chars[i];
        if c == from {
            r.push(to);
        } else {
            r.push(c);
        }
        i += 1;
        assert(r@ =~= replaced(text@, from, to).take(i as int));
    }
    assert(replaced(text@, from, to).take(i as int) =~= replaced(text@, from, to));
    r
}

/// The small letter for a capital letter of the Latin alphabet, and any
/// other character unchanged.
pub open spec fn lower(c: char) -> char {
    if 'A' <= c <= 'Z' {
        ((c as u8) + 32) as char
    } else {
        c
    }
}

/// `s` with its capital Latin letters made small.
pub open spec fn lowered(s: Seq<char>) -> Seq<char> {
    Seq::new(s.len(), |i: int| lower(s[i]))
}

/// The small letter for `c`, where `c` is a capital Latin letter.
pub fn to_lower(c: char) -> (r: char)
    ensures
        r == lower(c),
{
    if 'A' <= c && c <= 'Z' {
        let code: u8 = c as u8;
        (code + 32) as char
    } else {
        c
    }
}

/// The lower-cased characters of `chars[from..to]`.
pub fn lowercase(chars: &Vec<char>, from: usize, to: usize) -> (r: String)
    requires
        from <= to <= chars.len(),
    ensures
        r@ == lowered(chars@.subrange(from as int, to as int)),
{
    let ghost goal = lowered(chars@.subrange(from as int, to as int));
    let mut r = String::new();
    let mut i: usize = from;
    while i < to
        invariant
            from <= i <= to <= chars.len(),
            goal == lowered(chars@.subrange(from as int, to as int)),
            r@ == goal.take(i - from),
        decreases to - i,
    {
        r.push(to_lower(chars[i]));
        i += 1;
        assert(r@ =~= goal.take(i - from));
    }
    assert(goal.take(to - from) =~= goal);
    r
}

/// The character that stands for the digit `d`.
pub open spec fn digit(d: nat) -> char
    recommends
        d < 10,
{
    (48 + d) as u8 as char
}

/// `n` in decimal notation, without leading zeros.
pub open spec fn decimal(n: nat) -> Seq<char>
    decreases n,
{
    if n < 10 {
        seq![digit(n)]
    } else {
        decimal(n / 10).push(digit(n % 10))
    }
}

/// `n` in decimal notation, with `-` in front where it is negative.
pub open spec fn signed_decimal(n: int) -> Seq<char> {
    if n < 0 {
        seq!['-'] + decimal((-n) as nat)
    } else {
        decimal(n as nat)
    }
}

/// `s` with as many `fill` in front as it takes to reach `width` characters.
pub open spec fn padded(s: Seq<char>, width: nat, fill: char) -> Seq<char> {
    if s.len() >= width {
        s
    } else {
        Seq::new((width - s.len()) as nat, |i: int| fill) + s
    }
}

/// Adds `n` in decimal notation at the end of `out`.
pub fn push_decimal(out: &mut Vec<char>, n: u64)
    ensures
        final(out)@ == old(out)@ + decimal(n as nat),
    decreases n,
{
    if n >= 10 {
        push_decimal(out, n / 10);
    }
    let d: u8 = (n % 10) as u8;
    out.push((48 + d) as char);
    assert(final(out)@ =~= old(out)@ + decimal(n as nat));
}

/// `n` in decimal notation.
pub fn to_decimal(n: u64) -> (r: String)
    ensures
        r@ == decimal(n as nat),
{
    let mut digits: Vec<char> = Vec::new();
    push_decimal(&mut digits, n);
    assert(digits@ =~= decimal(n as nat));
    string_of(&digits, 0, digits.len())
}

/// `n` in decimal notation, with a sign where it is negative.
pub fn to_signed_decimal(n: i64) -> (r: String)
    ensures
        r@ == signed_decimal(n as int),
{
    let mut digits: Vec<char> = Vec::new();
    if n < 0 {
        digits.push('-');
        let magnitude: u64 = if n == i64::MIN {
            0x8000_0000_0000_0000
        } else {
            (-n) as u64
        };
        push_decimal(&mut digits, magnitude);
    } else {
        push_decimal(&mut digits, n as u64);
    }
    assert(digits@ =~= signed_decimal(n as int));
    string_of(&digits, 0, digits.len())
}

/// `text` with `fill` in front until it is `width` characters long.
pub fn pad_left(text: &str, width: usize, fill: char) -> (r: String)
    ensures
        r@ == padded(text@, width as nat, fill),
{
    let chars = chars_of(text);
    let mut r = String::new();
    if chars.len() < width {
        let missing: usize = width - chars.len();
        let mut i: usize = 0;
        while i < missing
            invariant
                i <= missing,
                r@ == Seq::new(i as nat, |k: int| fill),
            decreases missing - i,
        {
            r.push(fill);
            i += 1;
            assert(r@ =~= Seq::new(i as nat, |k: int| fill));
        }
    }
    r.append(text);
    assert(r@ =~= padded(text@, width as nat, fill));
    r
}

/// The number that the digit `c` stands for.
pub open spec fn digit_value(c: char) -> Option<nat> {
    if '0' <= c <= '9' {
        Some((c as u8 - 48) as nat)
    } else {
        None
    }
}

/// The number that `s` is in decimal notation, where `s` holds digits only.
/// The empty sequence stands for 0.
pub open spec fn digits_value(s: Seq<char>) -> Option<nat>
    decreases s.len(),
{
    if s.len() == 0 {
        Some(0)
    } else {
        match (digits_value(s.drop_last()), digit_value(s.last())) {
            (Some(high), Some(low)) => Some(high * 10 + low),
            _ => None,
        }
    }
}

/// The number that the digits `body` denote: one digit or more, with a
/// value of `max` at most. `None` for any other text.
pub open spec fn parse_digits(body: Seq<char>, max: nat) -> Option<nat> {
    if body.len() == 0 {
        None
    } else {
        match digits_value(body) {
            Some(value) => if value <= max {
                Some(value)
            } else {
                None
            },
            None => None,
        }
    }
}

/// The number that `s` denotes: an optional `+`, then one digit or more,
/// with a value of `max` at most. `None` for any other text.
pub open spec fn parse_number(s: Seq<char>, max: nat) -> Option<nat> {
    if s.len() > 0 && s.first() == '+' {
        parse_digits(s.drop_first(), max)
    } else {
        parse_digits(s, max)
    }
}

/// A sequence of digits is worth no less than any of its prefixes.
proof fn lemma_digits_grow(s: Seq<char>, n: int)
    requires
        0 <= n <= s.len(),
        digits_value(s) is Some,
    ensures
        digits_value(s.take(n)) is Some,
        digits_value(s.take(n))->0 <= digits_value(s)->0,
    decreases s.len() - n,
{
    if n == s.len() {
        assert(s.take(n) =~= s);
    } else {
        lemma_digits_grow(s.drop_last(), n);
        assert(s.drop_last().take(n) =~= s.take(n));
    }
}

/// A sequence with a prefix that is no number is no number either.
proof fn lemma_digits_fail(s: Seq<char>, n: int)
    requires
        0 <= n <= s.len(),
        digits_value(s.take(n)) is None,
    ensures
        digits_value(s) is None,
    decreases s.len() - n,
{
    if n == s.len() {
        assert(s.take(n) =~= s);
    } else {
        assert(s.drop_last().take(n) =~= s.take(n));
        lemma_digits_fail(s.drop_last(), n);
    }
}

/// The number that `chars[from..]` denotes, if it is one of `max` at most.
pub fn parse_bounded(chars: &Vec<char>, from: usize, max: u64) -> (r: Option<u64>)
    requires
        from <= chars.len(),
        max <= 0xffff_ffff,
    ensures
        r is Some <==> parse_number(chars@.skip(from as int), max as nat) is Some,
        r matches Some(value) ==> parse_number(chars@.skip(from as int), max as nat) == Some(
            value as nat,
        ),
{
    let ghost text = chars@.skip(from as int);
    let mut start: usize = from;
    if start < chars.len() && chars[start] == '+' {
        start += 1;
    }
    let ghost body = chars@.skip(start as int);
    assert(body =~= if text.len() > 0 && text.first() == '+' {
        text.drop_first()
    } else {
        text
    });
    assert(parse_number(text, max as nat) == parse_digits(body, max as nat));
    if start == chars.len() {
        return None;
    }
    let mut value: u64 = 0;
    let mut i: usize = start;
    while i < chars.len()
        invariant
            start <= i <= chars.len(),
            start < chars.len(),
            body == chars@.skip(start as int),
            parse_number(chars@.skip(from as int), max as nat) == parse_digits(body, max as nat),
            digits_value(body.take(i - start)) == Some(value as nat),
            value <= max <= 0xffff_ffff,
        decreases chars.len() - i,
    {
        let c = chars[i];
        let ghost seen = body.take(i - start + 1);
        assert(seen.drop_last() =~= body.take(i - start));
        assert(seen.last() == c);
        if !('0' <= c && c <= '9') {
            proof {
                lemma_digits_fail(body, i - start + 1);
            }
            return None;
        }
        let low: u64 = (c as u8 - 48) as u64;
        let next: u64 = value * 10 + low;
        if next > max {
            proof {
                if digits_value(body) is Some {
                    lemma_digits_grow(body, i - start + 1);
                }
            }
            return None;
        }
        value = next;
        i += 1;
    }
    assert(body.take(i - start) =~= body);
    Some(value)
}

/// The number that `text` denotes, if it fits in 16 bits.
pub fn parse_u16(text: &str) -> (r: Option<u16>)
    ensures
        r is Some <==> parse_number(text@, 0xffff) is Some,
        r matches Some(value) ==> parse_number(text@, 0xffff) == Some(value as nat),
{
    let chars = chars_of(text);
    assert(chars@.skip(0) =~= text@);
    match parse_bounded(&chars, 0, 0xffff) {
        Some(value) => Some(value as u16),
        None => None,
    }
}

/// Whether the text `a` comes no later than `b` in the order of texts: at
/// the first place where the two differ `a` holds the character with the
/// smaller code, or `a` ends there.
pub open spec fn text_le(a: Seq<char>, b: Seq<char>) -> bool
    decreases a.len(),
{
    if a.len() == 0 {
        true
    } else if b.len() == 0 {
        false
    } else if a.first() == b.first() {
        text_le(a.drop_first(), b.drop_first())
    } else {
        a.first() < b.first()
    }
}

/// How `a` stands to `b` in the order of texts: -1 where it comes first, 0
/// where the two are one text, 1 where it comes last.
pub open spec fn text_sign(a: Seq<char>, b: Seq<char>) -> int {
    if a == b {
        0
    } else if text_le(a, b) {
        -1
    } else {
        1
    }
}

/// Of two texts one comes no later than the other.
pub proof fn lemma_text_le_total(a: Seq<char>, b: Seq<char>)
    ensures
        text_le(a, b) || text_le(b, a),
    decreases a.len(),
{
    if a.len() > 0 && b.len() > 0 && a.first() == b.first() {
        lemma_text_le_total(a.drop_first(), b.drop_first());
    }
}

/// The order of texts is transitive.
pub proof fn lemma_text_le_transitive(a: Seq<char>, b: Seq<char>, c: Seq<char>)
    requires
        text_le(a, b),
        text_le(b, c),
    ensures
        text_le(a, c),
    decreases a.len(),
{
    if a.len() > 0 && b.len() > 0 && c.len() > 0 && a.first() == b.first() && b.first()
        == c.first() {
        lemma_text_le_transitive(a.drop_first(), b.drop_first(), c.drop_first());
    }
}

/// Two texts of which each comes no later than the other are one text.
pub proof fn lemma_text_le_antisymmetric(a: Seq<char>, b: Seq<char>)
    requires
        text_le(a, b),
        text_le(b, a),
    ensures
        a == b,
    decreases a.len(),
{
    if a.len() > 0 && b.len() > 0 {
        lemma_text_le_antisymmetric(a.drop_first(), b.drop_first());
        assert(a =~= seq![a.first()] + a.drop_first());
        assert(b =~= seq![b.first()] + b.drop_first());
    } else {
        assert(a =~= b);
    }
}

/// Texts that start alike are ordered as what follows in them.
pub proof fn lemma_text_le_skips(a: Seq<char>, b: Seq<char>, n: int)
    requires
        0 <= n <= a.len(),
        n <= b.len(),
        a.take(n) == b.take(n),
    ensures
        text_le(a, b) == text_le(a.skip(n), b.skip(n)),
    decreases n,
{
    if n == 0 {
        assert(a.skip(0) =~= a);
        assert(b.skip(0) =~= b);
    } else {
        assert(a.first() == a.take(n)[0]);
        assert(b.first() == b.take(n)[0]);
        assert(a.drop_first().take(n - 1) =~= a.take(n).drop_first());
        assert(b.drop_first().take(n - 1) =~= b.take(n).drop_first());
        lemma_text_le_skips(a.drop_first(), b.drop_first(), n - 1);
        assert(a.drop_first().skip(n - 1) =~= a.skip(n));
        assert(b.drop_first().skip(n - 1) =~= b.skip(n));
    }
}

/// How `a` stands to `b` in the order of texts: -1, 0 or 1.
pub fn sign_of(a: &str, b: &str) -> (sign: i8)
    ensures
        sign == text_sign(a@, b@),
{
    let x = chars_of(a);
    let y = chars_of(b);
    let mut i: usize = 0;
    while i < x.len() && i < y.len()
        invariant
            i <= x.len(),
            i <= y.len(),
            x@ == a@,
            y@ == b@,
            x@.take(i as int) == y@.take(i as int),
        decreases x.len() - i,
    {
        if x[i] != y[i] {
            proof {
                lemma_text_le_skips(x@, y@, i as int);
                assert(x@.skip(i as int).first() == x@[i as int]);
                assert(y@.skip(i as int).first() == y@[i as int]);
            }
            return if x[i] < y[i] {
                -1
            } else {
                1
            };
        }
        i += 1;
        assert(x@.take(i as int) =~= y@.take(i as int)) by {
            assert(x@.take(i as int) =~= x@.take(i - 1).push(x@[i - 1]));
            assert(y@.take(i as int) =~= y@.take(i - 1).push(y@[i - 1]));
        }
    }
    proof {
        lemma_text_le_skips(x@, y@, i as int);
        if x.len() == y.len() {
            assert(x@ =~= x@.take(i as int));
            assert(y@ =~= y@.take(i as int));
        }
    }
    if x.len() == y.len() {
        0
    } else if x.len() < y.len() {
        -1
    } else {
        1
    }
}

/// Whether `chars` holds exactly the characters of `word`.
pub fn is_word(chars: &Vec<char>, word: &str) -> (same: bool)
    ensures
        same == (chars@ == word@),
{
    let other = chars_of(word);
    assert(chars@.subrange(0, chars.len() as int) =~= chars@);
    same_chars(chars, 0, chars.len(), &other)
}

} // verus!
