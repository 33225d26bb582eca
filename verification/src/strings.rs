//! Character-level building blocks shared by the text, naming and record code:
//! building strings, UTF-8 byte lengths, lexicographic order, decimal numbers
//! and line splitting.

use vstd::prelude::*;
use vstd::utf8::*;

verus! {

broadcast use vstd::string::group_string_axioms;

/// Appends one character to a string (`String::push`).
#[verifier::external_body]
pub(crate) fn push_char(s: &mut String, c: char)
    ensures
        final(s)@ == old(s)@.push(c),
{
    s.push(c);
}

/// The characters of `s`, in order.
pub fn chars_of(s: &str) -> (v: Vec<char>)
    ensures
        v@ == s@,
{
    let mut v: Vec<char> = Vec::new();
    for c in it: s.chars()
        invariant
            it.seq() == s@,
            v@ == s@.take(it.index() as int),
    {
        v.push(c);
    }
    assert(v@ == s@.take(s@.len() as int));
    v
}

/// Appends `cs[from..to]` to `s`.
pub fn push_char_range(s: &mut String, cs: &[char], from: usize, to: usize)
    requires
        from <= to <= cs.len(),
    ensures
        final(s)@ == old(s)@ + cs@.subrange(from as int, to as int),
{
    let ghost start = s@;
    let mut i: usize = from;
    while i < to
        invariant
            from <= i <= to,
            to <= cs.len(),
            s@ == start + cs@.subrange(from as int, i as int),
        decreases to - i,
    {
        push_char(s, cs[i]);
        assert(cs@.subrange(from as int, i + 1) == cs@.subrange(from as int, i as int).push(
            cs@[i as int],
        ));
        i = i + 1;
    }
}

/// Appends `cs` to `s`.
pub fn push_chars(s: &mut String, cs: &[char])
    ensures
        final(s)@ == old(s)@ + cs@,
{
    push_char_range(s, cs, 0, cs.len());
    assert(cs@.subrange(0, cs@.len() as int) == cs@);
}

/// A string holding exactly `cs`.
pub fn string_from_chars(cs: &[char]) -> (s: String)
    ensures
        s@ == cs@,
{
    let mut s = String::new();
    push_chars(&mut s, cs);
    s
}

/// A character compares with the ASCII bounds as its code point does.
pub proof fn lemma_char_range(c: char)
    ensures
        '\0' <= c,
        (c as u32) <= 0x7f ==> c <= '\u{7f}',
        c <= '\u{7f}' ==> (c as u32) <= 0x7f,
{
}

/// The number of bytes in the UTF-8 encoding of `s`.
pub open spec fn byte_len(s: Seq<char>) -> nat {
    encode_utf8(s).len()
}

/// The number of bytes in the UTF-8 encoding of one character.
pub open spec fn char_byte_len(c: char) -> nat {
    encode_scalar(c as u32).len()
}

/// The UTF-8 encoding of a concatenation is the concatenation of encodings.
pub proof fn lemma_encode_utf8_concat(a: Seq<char>, b: Seq<char>)
    ensures
        encode_utf8(a + b) == encode_utf8(a) + encode_utf8(b),
    decreases a.len(),
{
    if a.len() == 0 {
        assert(a + b == b);
    } else {
        lemma_encode_utf8_concat(a.drop_first(), b);
        assert((a + b).drop_first() == a.drop_first() + b);
    }
}

/// Byte length of `s` extended by one character.
pub proof fn lemma_byte_len_push(s: Seq<char>, c: char)
    ensures
        byte_len(s.push(c)) == byte_len(s) + char_byte_len(c),
{
    lemma_encode_utf8_concat(s, seq![c]);
    assert(s.push(c) == s + seq![c]);
    assert(seq![c].drop_first() == Seq::<char>::empty());
    assert(encode_utf8(Seq::<char>::empty()) == Seq::<u8>::empty());
    assert(encode_utf8(seq![c]) == encode_scalar(seq![c][0] as u32) + encode_utf8(
        seq![c].drop_first(),
    ));
    assert(encode_utf8(seq![c]) =~= encode_scalar(c as u32));
}

/// Byte length of a concatenation.
pub proof fn lemma_byte_len_concat(a: Seq<char>, b: Seq<char>)
    ensures
        byte_len(a + b) == byte_len(a) + byte_len(b),
{
    lemma_encode_utf8_concat(a, b);
}

/// A sequence of `n` characters takes between `n` and `4 n` bytes.
pub proof fn lemma_byte_len_bounds(s: Seq<char>)
    ensures
        s.len() <= byte_len(s) <= 4 * s.len(),
    decreases s.len(),
{
    if s.len() > 0 {
        lemma_byte_len_bounds(s.drop_last());
        lemma_byte_len_push(s.drop_last(), s.last());
        assert(s.drop_last().push(s.last()) == s);
    }
}

/// Whether `cs` takes at least `limit` bytes in UTF-8.
pub fn byte_len_at_least(cs: &[char], limit: usize) -> (r: bool)
    ensures
        r == (byte_len(cs@) >= limit),
{
    if limit == 0 {
        return true;
    }
    let mut acc: usize = 0;
    let mut i: usize = 0;
    assert(cs@.take(0) == Seq::<char>::empty());
    while i < cs.len()
        invariant
            i <= cs.len(),
            acc == byte_len(cs@.take(i as int)),
            acc < limit,
        decreases cs.len() - i,
    {
        proof {
            lemma_byte_len_push(cs@.take(i as int), cs@[i as int]);
            assert(cs@.take(i as int).push(cs@[i as int]) == cs@.take(i + 1));
        }
        let w = char_len_utf8(cs[i]);
        if w >= limit - acc {
            proof {
                lemma_byte_len_prefix_le(cs@, (i + 1) as nat);
            }
            return true;
        }
        acc = acc + w;
        i = i + 1;
    }
    assert(cs@.take(cs.len() as int) == cs@);
    false
}

/// A prefix never takes more bytes than the whole.
pub proof fn lemma_byte_len_prefix_le(s: Seq<char>, k: nat)
    requires
        k <= s.len(),
    ensures
        byte_len(s.take(k as int)) <= byte_len(s),
{
    lemma_byte_len_concat(s.take(k as int), s.skip(k as int));
    assert(s.take(k as int) + s.skip(k as int) == s);
}

/// `char::len_utf8`.
pub fn char_len_utf8(c: char) -> (n: usize)
    ensures
        n == char_byte_len(c),
        1 <= n <= 4,
{
    let v = c as u32;
    if v <= 0x7F {
        1
    } else if v <= 0x7FF {
        2
    } else if v <= 0xFFFF && !(0xD800 <= v && v <= 0xDFFF) {
        3
    } else {
        4
    }
}

/// Strict lexicographic order on character sequences, by code point, from
/// position `i` on.
pub open spec fn lex_lt_from(a: Seq<char>, b: Seq<char>, i: nat) -> bool
    decreases a.len() - i,
{
    if i >= a.len() {
        i < b.len()
    } else if i >= b.len() {
        false
    } else if a[i as int] != b[i as int] {
        (a[i as int] as u32) < (b[i as int] as u32)
    } else {
        lex_lt_from(a, b, i + 1)
    }
}

/// Strict lexicographic order on character sequences, by code point. For
/// strings this is the order of their UTF-8 bytes, which is how `str`
/// compares.
pub open spec fn lex_lt(a: Seq<char>, b: Seq<char>) -> bool {
    lex_lt_from(a, b, 0)
}

/// `a < b` in lexicographic order.
pub fn chars_lt(a: &[char], b: &[char]) -> (r: bool)
    ensures
        r == lex_lt(a@, b@),
{
    let mut i: usize = 0;
    while i < a.len() && i < b.len()
        invariant
            i <= a.len(),
            i <= b.len(),
            lex_lt(a@, b@) == lex_lt_from(a@, b@, i as nat),
        decreases a.len() - i,
    {
        if a[i] != b[i] {
            return (a[i] as u32) < (b[i] as u32);
        }
        i = i + 1;
    }
    i < b.len()
}

/// Lexicographic order never holds both ways.
pub proof fn lemma_lex_lt_asymmetric(a: Seq<char>, b: Seq<char>, i: nat)
    ensures
        !(lex_lt_from(a, b, i) && lex_lt_from(b, a, i)),
    decreases a.len() - i,
{
    if i < a.len() && i < b.len() && a[i as int] == b[i as int] {
        lemma_lex_lt_asymmetric(a, b, i + 1);
    }
}

/// Lexicographic order is transitive.
pub proof fn lemma_lex_lt_transitive(a: Seq<char>, b: Seq<char>, c: Seq<char>, i: nat)
    requires
        lex_lt_from(a, b, i),
        lex_lt_from(b, c, i),
    ensures
        lex_lt_from(a, c, i),
    decreases a.len() - i,
{
    if i < a.len() && i < b.len() && i < c.len() && a[i as int] == b[i as int] && b[i as int]
        == c[i as int] {
        lemma_lex_lt_transitive(a, b, c, i + 1);
    } else if i < a.len() && i < b.len() && i < c.len() {
        vstd::utf8::char_u32_cast(a[i as int], a[i as int] as u32);
        vstd::utf8::char_u32_cast(b[i as int], b[i as int] as u32);
        vstd::utf8::char_u32_cast(c[i as int], c[i as int] as u32);
    }
}

/// Two different sequences are ordered one way or the other.
pub proof fn lemma_lex_lt_total(a: Seq<char>, b: Seq<char>, i: nat)
    requires
        i <= a.len(),
        i <= b.len(),
        a.skip(i as int) != b.skip(i as int),
    ensures
        lex_lt_from(a, b, i) || lex_lt_from(b, a, i),
    decreases a.len() - i,
{
    if i < a.len() && i < b.len() {
        if a[i as int] == b[i as int] {
            if a.skip((i + 1) as int) == b.skip((i + 1) as int) {
                assert(a.skip(i as int) =~= seq![a[i as int]] + a.skip((i + 1) as int));
                assert(b.skip(i as int) =~= seq![b[i as int]] + b.skip((i + 1) as int));
            }
            lemma_lex_lt_total(a, b, i + 1);
        } else {
            vstd::utf8::char_u32_cast(a[i as int], a[i as int] as u32);
            vstd::utf8::char_u32_cast(b[i as int], b[i as int] as u32);
        }
    } else if i == a.len() && i == b.len() {
        assert(a.skip(i as int) =~= b.skip(i as int));
    }
}

/// A sequence is not below itself.
pub proof fn lemma_lex_lt_irreflexive(a: Seq<char>, i: nat)
    ensures
        !lex_lt_from(a, a, i),
    decreases a.len() - i,
{
    if i < a.len() {
        lemma_lex_lt_irreflexive(a, i + 1);
    }
}

/// Past a common prefix, the order is that of the rests.
proof fn lemma_lex_lt_from_shift(p: Seq<char>, x: Seq<char>, y: Seq<char>, j: nat)
    ensures
        lex_lt_from(p + x, p + y, p.len() + j) == lex_lt_from(x, y, j),
    decreases x.len() - j,
{
    if j < x.len() && j < y.len() && x[j as int] == y[j as int] {
        assert((p + x)[(p.len() + j) as int] == x[j as int]);
        assert((p + y)[(p.len() + j) as int] == y[j as int]);
        lemma_lex_lt_from_shift(p, x, y, j + 1);
    } else if j < x.len() && j < y.len() {
        assert((p + x)[(p.len() + j) as int] == x[j as int]);
        assert((p + y)[(p.len() + j) as int] == y[j as int]);
    }
}

/// Within a common prefix nothing is decided yet.
proof fn lemma_lex_lt_from_prefix(p: Seq<char>, x: Seq<char>, y: Seq<char>, i: nat)
    requires
        i <= p.len(),
    ensures
        lex_lt_from(p + x, p + y, i) == lex_lt_from(p + x, p + y, p.len()),
    decreases p.len() - i,
{
    if i < p.len() {
        assert((p + x)[i as int] == (p + y)[i as int]);
        lemma_lex_lt_from_prefix(p, x, y, i + 1);
    }
}

/// A common prefix does not change the order.
pub proof fn lemma_lex_lt_common_prefix(p: Seq<char>, x: Seq<char>, y: Seq<char>)
    ensures
        lex_lt(p + x, p + y) == lex_lt(x, y),
{
    lemma_lex_lt_from_prefix(p, x, y, 0);
    lemma_lex_lt_from_shift(p, x, y, 0);
}

/// The decimal digit for `d < 10`.
pub open spec fn digit_char(d: nat) -> char {
    if d == 0 {
        '0'
    } else if d == 1 {
        '1'
    } else if d == 2 {
        '2'
    } else if d == 3 {
        '3'
    } else if d == 4 {
        '4'
    } else if d == 5 {
        '5'
    } else if d == 6 {
        '6'
    } else if d == 7 {
        '7'
    } else if d == 8 {
        '8'
    } else {
        '9'
    }
}

/// The value of a decimal digit character.
pub open spec fn digit_value(c: char) -> nat {
    ((c as u32) - ('0' as u32)) as nat
}

/// Whether `c` is one of `0`..`9`.
pub open spec fn is_digit(c: char) -> bool {
    '0' <= c <= '9'
}

/// The decimal representation of `n`, without sign or leading zeros.
pub open spec fn decimal(n: nat) -> Seq<char>
    decreases n,
{
    if n < 10 {
        seq![digit_char(n)]
    } else {
        decimal(n / 10).push(digit_char(n % 10))
    }
}

fn digit_to_char(d: u128) -> (c: char)
    requires
        d < 10,
    ensures
        c == digit_char(d as nat),
{
    if d == 0 {
        '0'
    } else if d == 1 {
        '1'
    } else if d == 2 {
        '2'
    } else if d == 3 {
        '3'
    } else if d == 4 {
        '4'
    } else if d == 5 {
        '5'
    } else if d == 6 {
        '6'
    } else if d == 7 {
        '7'
    } else if d == 8 {
        '8'
    } else {
        '9'
    }
}

/// Appends the decimal representation of `n` to `s`.
pub fn push_decimal(s: &mut String, n: u128)
    ensures
        final(s)@ == old(s)@ + decimal(n as nat),
    decreases n,
{
    if n >= 10 {
        push_decimal(s, n / 10);
    }
    let ghost before = s@;
    push_char(s, digit_to_char(n % 10));
    if n >= 10 {
        assert(decimal(n as nat) == decimal((n / 10) as nat).push(digit_char((n % 10) as nat)));
    }
}

/// The value of a string of decimal digits, read left to right.
pub open spec fn digits_value(d: Seq<char>) -> nat
    decreases d.len(),
{
    if d.len() == 0 {
        0
    } else {
        digits_value(d.drop_last()) * 10 + digit_value(d.last())
    }
}

/// The digits of a number text once an optional leading `+` is dropped.
pub open spec fn unsigned_digits(s: Seq<char>) -> Seq<char> {
    if s.len() > 0 && s[0] == '+' {
        s.drop_first()
    } else {
        s
    }
}

/// Whether every character of `d` is a decimal digit.
pub open spec fn all_digits(d: Seq<char>) -> bool {
    forall|i: int| 0 <= i < d.len() ==> is_digit(#[trigger] d[i])
}

/// What `str::parse::<u128>` gives: an optional `+`, then at least one
/// decimal digit and nothing else, within range.
pub open spec fn parse_u128(s: Seq<char>) -> Option<u128> {
    let d = unsigned_digits(s);
    if d.len() == 0 || !all_digits(d) || digits_value(d) > u128::MAX {
        None
    } else {
        Some(digits_value(d) as u128)
    }
}

/// `str::parse::<u128>`, on characters.
pub fn parse_u128_chars(s: &[char]) -> (r: Option<u128>)
    ensures
        r == parse_u128(s@),
{
    let start: usize = if s.len() > 0 && s[0] == '+' { 1 } else { 0 };
    let ghost d = unsigned_digits(s@);
    assert(d == s@.skip(start as int));
    if start >= s.len() {
        return None;
    }
    let mut acc: u128 = 0;
    let mut i: usize = start;
    while i < s.len()
        invariant
            start <= i <= s.len(),
            start < s.len(),
            d == s@.skip(start as int),
            d == unsigned_digits(s@),
            forall|j: int| 0 <= j < i - start ==> is_digit(#[trigger] d[j]),
            acc == digits_value(d.take(i - start)),
        decreases s.len() - i,
    {
        let c = s[i];
        if !('0' <= c && c <= '9') {
            assert(d[i - start] == c);
            assert(!is_digit(d[i - start]));
            assert(!(forall|j: int| 0 <= j < d.len() ==> is_digit(#[trigger] d[j])));
            assert(parse_u128(s@) is None);
            return None;
        }
        let dv: u128 = ((c as u32) - ('0' as u32)) as u128;
        proof {
            lemma_digits_value_step(d, (i - start) as nat);
        }
        match acc.checked_mul(10) {
            Some(m) => match m.checked_add(dv) {
                Some(v) => {
                    acc = v;
                },
                None => {
                    assert(digits_value(d.take(i + 1 - start)) > u128::MAX);
                    proof {
                        lemma_digits_value_prefix_monotone(d, (i + 1 - start) as nat);
                    }
                    assert(digits_value(d) > u128::MAX);
                    assert(parse_u128(s@) is None);
                    return None;
                },
            },
            None => {
                assert(digits_value(d.take(i + 1 - start)) > u128::MAX) by (nonlinear_arith)
                    requires
                        digits_value(d.take(i + 1 - start)) == acc * 10 + digit_value(c),
                        acc * 10 > u128::MAX,
                ;
                proof {
                    lemma_digits_value_prefix_monotone(d, (i + 1 - start) as nat);
                }
                return None;
            },
        }
        i = i + 1;
    }
    assert(d.take(s.len() - start) == d);
    Some(acc)
}

/// Reading one more digit.
pub proof fn lemma_digits_value_step(d: Seq<char>, k: nat)
    requires
        k < d.len(),
    ensures
        digits_value(d.take((k + 1) as int)) == digits_value(d.take(k as int)) * 10 + digit_value(d[k as int]),
{
    assert(d.take((k + 1) as int).drop_last() == d.take(k as int));
    assert(d.take((k + 1) as int).last() == d[k as int]);
}

/// The digit characters read back as their values.
pub proof fn lemma_digit_char_value(x: nat)
    requires
        x < 10,
    ensures
        digit_value(digit_char(x)) == x,
        is_digit(digit_char(x)),
{
}

/// A longer prefix of digits never has a smaller value.
pub proof fn lemma_digits_value_prefix_monotone(d: Seq<char>, k: nat)
    requires
        k <= d.len(),
    ensures
        digits_value(d.take(k as int)) <= digits_value(d),
    decreases d.len() - k,
{
    if k < d.len() {
        lemma_digits_value_prefix_monotone(d, k + 1);
        assert(d.take((k + 1) as int).drop_last() == d.take(k as int));
        let x = digits_value(d.take(k as int));
        assert(x <= x * 10) by (nonlinear_arith);
    } else {
        assert(d.take(k as int) == d);
    }
}

/// Reading back a decimal representation gives the number.
pub proof fn lemma_decimal_digits(n: nat)
    ensures
        decimal(n).len() > 0,
        forall|i: int| 0 <= i < decimal(n).len() ==> is_digit(#[trigger] decimal(n)[i]),
        digits_value(decimal(n)) == n,
        decimal(n)[0] != '+',
        decimal(n)[0] != '-',
    decreases n,
{
    lemma_digit_char_value(n % 10);
    if n >= 10 {
        lemma_decimal_digits(n / 10);
        let p = decimal(n / 10);
        assert(decimal(n).drop_last() == p);
        assert(decimal(n).last() == digit_char(n % 10));
        assert(digits_value(p) == n / 10);
        assert(digits_value(decimal(n)) == digits_value(p) * 10 + digit_value(digit_char(n % 10)));
        assert(digits_value(decimal(n)) == (n / 10) * 10 + n % 10);
        assert((n / 10) * 10 + n % 10 == n) by (nonlinear_arith);
        assert(digits_value(decimal(n)) == n);
    } else {
        lemma_digit_char_value(n);
        assert(decimal(n) == seq![digit_char(n)]);
        assert(decimal(n).drop_last() == Seq::<char>::empty());
        assert(decimal(n).last() == digit_char(n));
        assert(digits_value(Seq::<char>::empty()) == 0);
        assert(digits_value(decimal(n)) == n);
    }
}

/// `str::parse::<u128>` reads back what decimal formatting wrote.
pub proof fn lemma_parse_decimal(n: u128)
    ensures
        parse_u128(decimal(n as nat)) == Some(n),
{
    lemma_decimal_digits(n as nat);
}

/// The character sequences held by some character vectors.
pub open spec fn char_rows(v: Seq<Vec<char>>) -> Seq<Seq<char>> {
    v.map_values(|x: Vec<char>| x@)
}

/// The index of the first `a` or `b` in `s`, or `s.len()` when there is none.
pub open spec fn find_either(s: Seq<char>, a: char, b: char) -> nat
    decreases s.len(),
{
    if s.len() == 0 {
        0
    } else if s[0] == a || s[0] == b {
        0
    } else {
        1 + find_either(s.drop_first(), a, b)
    }
}

/// Characters up to the first `a` or `b` locate it.
pub proof fn lemma_find_either(s: Seq<char>, a: char, b: char, k: nat)
    requires
        k <= s.len(),
        forall|i: int| 0 <= i < k ==> s[i] != a && s[i] != b,
        k == s.len() || s[k as int] == a || s[k as int] == b,
    ensures
        find_either(s, a, b) == k,
    decreases k,
{
    if k > 0 {
        lemma_find_either(s.drop_first(), a, b, (k - 1) as nat);
    }
}

/// The pieces of `s` between occurrences of `a` or `b`, empty pieces
/// included, as `str::split` gives them.
pub open spec fn split_either(s: Seq<char>, a: char, b: char) -> Seq<Seq<char>>
    decreases s.len(),
{
    let k = find_either(s, a, b);
    if k >= s.len() {
        seq![s]
    } else {
        seq![s.take(k as int)] + split_either(s.skip((k + 1) as int), a, b)
    }
}

/// The pieces of `s` between occurrences of `c`, as `str::split` gives them.
pub open spec fn split_on(s: Seq<char>, c: char) -> Seq<Seq<char>> {
    split_either(s, c, c)
}

/// `s` split at every `a` or `b`.
pub fn split_chars(s: &[char], a: char, b: char) -> (r: Vec<Vec<char>>)
    ensures
        char_rows(r@) == split_either(s@, a, b),
{
    let mut r: Vec<Vec<char>> = Vec::new();
    let mut piece: Vec<char> = Vec::new();
    let mut start: usize = 0;
    let mut i: usize = 0;
    assert(s@.skip(0) == s@);
    assert(char_rows(r@) + split_either(s@, a, b) == split_either(s@, a, b));
    while i < s.len()
        invariant
            start <= i <= s.len(),
            piece@ == s@.subrange(start as int, i as int),
            forall|j: int| start <= j < i ==> s@[j] != a && s@[j] != b,
            char_rows(r@) + split_either(s@.skip(start as int), a, b) == split_either(s@, a, b),
        decreases s.len() - i,
    {
        let c = s[i];
        if c == a || c == b {
            proof {
                let rest = s@.skip(start as int);
                lemma_find_either(rest, a, b, (i - start) as nat);
                assert(rest.take(i - start) == piece@);
                assert(rest.skip(i - start + 1) == s@.skip(i + 1));
                assert(char_rows(r@.push(piece)) == char_rows(r@).push(piece@));
            }
            r.push(piece);
            piece = Vec::new();
            start = i + 1;
        } else {
            piece.push(c);
        }
        i = i + 1;
    }
    proof {
        let rest = s@.skip(start as int);
        lemma_find_either(rest, a, b, (i - start) as nat);
        assert(rest == piece@);
        assert(char_rows(r@.push(piece)) == char_rows(r@).push(piece@));
    }
    r.push(piece);
    r
}

/// The non-empty entries of `ps`, in order.
pub open spec fn non_empty(ps: Seq<Seq<char>>) -> Seq<Seq<char>>
    decreases ps.len(),
{
    if ps.len() == 0 {
        Seq::empty()
    } else if ps.last().len() > 0 {
        non_empty(ps.drop_last()).push(ps.last())
    } else {
        non_empty(ps.drop_last())
    }
}

/// The non-empty entries of `ps`.
pub fn keep_non_empty(ps: Vec<Vec<char>>) -> (r: Vec<Vec<char>>)
    ensures
        char_rows(r@) == non_empty(char_rows(ps@)),
{
    let mut r: Vec<Vec<char>> = Vec::new();
    let mut i: usize = 0;
    while i < ps.len()
        invariant
            i <= ps.len(),
            char_rows(r@) == non_empty(char_rows(ps@).take(i as int)),
        decreases ps.len() - i,
    {
        let p = ps[i].clone();
        assert(char_rows(ps@).take(i + 1).drop_last() == char_rows(ps@).take(i as int));
        if p.len() > 0 {
            assert(char_rows(r@.push(p)) == char_rows(r@).push(p@));
            r.push(p);
        }
        i = i + 1;
    }
    assert(char_rows(ps@).take(ps.len() as int) == char_rows(ps@));
    r
}

/// `xs` joined with `sep` between neighbours.
pub open spec fn join(xs: Seq<Seq<char>>, sep: Seq<char>) -> Seq<char>
    decreases xs.len(),
{
    if xs.len() == 0 {
        Seq::empty()
    } else if xs.len() == 1 {
        xs[0]
    } else {
        join(xs.drop_last(), sep) + sep + xs.last()
    }
}

/// `xs[from..]` joined with `sep`.
pub fn join_from(xs: &Vec<Vec<char>>, from: usize, sep: &[char]) -> (r: Vec<char>)
    requires
        from <= xs.len(),
    ensures
        r@ == join(char_rows(xs@).skip(from as int), sep@),
{
    let mut r: Vec<char> = Vec::new();
    let mut i: usize = from;
    assert(char_rows(xs@).subrange(from as int, from as int) == Seq::<Seq<char>>::empty());
    while i < xs.len()
        invariant
            from <= i <= xs.len(),
            r@ == join(char_rows(xs@).subrange(from as int, i as int), sep@),
        decreases xs.len() - i,
    {
        let ghost part = char_rows(xs@).subrange(from as int, i + 1);
        assert(part.drop_last() == char_rows(xs@).subrange(from as int, i as int));
        assert(part.last() == xs@[i as int]@);
        if i > from {
            let mut k: usize = 0;
            let ghost before = r@;
            while k < sep.len()
                invariant
                    k <= sep.len(),
                    r@ == before + sep@.take(k as int),
                decreases sep.len() - k,
            {
                r.push(sep[k]);
                assert(sep@.take(k + 1) == sep@.take(k as int).push(sep@[k as int]));
                k = k + 1;
            }
            assert(sep@.take(sep.len() as int) == sep@);
        }
        let ghost before2 = r@;
        let x = &xs[i];
        let mut k: usize = 0;
        while k < x.len()
            invariant
                k <= x.len(),
                r@ == before2 + x@.take(k as int),
            decreases x.len() - k,
        {
            r.push(x[k]);
            assert(x@.take(k + 1) == x@.take(k as int).push(x@[k as int]));
            k = k + 1;
        }
        assert(x@.take(x.len() as int) == x@);
        if i == from {
            assert(part.len() == 1);
            assert(r@ == part[0]);
        }
        i = i + 1;
    }
    assert(char_rows(xs@).subrange(from as int, xs.len() as int) == char_rows(xs@).skip(from as int));
    r
}

/// A join of one piece is that piece.
pub proof fn lemma_join_single(x: Seq<char>, sep: Seq<char>)
    ensures
        join(seq![x], sep) == x,
{
}

/// A join holds no `c` when neither the pieces nor the separator do.
pub proof fn lemma_join_avoids(xs: Seq<Seq<char>>, sep: Seq<char>, c: char)
    requires
        !sep.contains(c),
        forall|i: int| 0 <= i < xs.len() ==> !(#[trigger] xs[i]).contains(c),
    ensures
        !join(xs, sep).contains(c),
    decreases xs.len(),
{
    if xs.len() > 1 {
        lemma_join_avoids(xs.drop_last(), sep, c);
        let j = join(xs, sep);
        let a = join(xs.drop_last(), sep);
        assert(!xs.last().contains(c));
        assert forall|k: int| 0 <= k < j.len() implies j[k] != c by {
            if k < a.len() {
                assert(j[k] == a[k]);
                assert(!a.contains(c));
            } else if k < a.len() + sep.len() {
                assert(j[k] == sep[k - a.len()]);
            } else {
                assert(j[k] == xs.last()[k - a.len() - sep.len()]);
            }
        }
    } else if xs.len() == 1 {
        assert(!xs[0].contains(c));
    }
}

/// `s` without the trailing `c`s.
pub open spec fn trim_end_char(s: Seq<char>, c: char) -> Seq<char>
    decreases s.len(),
{
    if s.len() > 0 && s.last() == c {
        trim_end_char(s.drop_last(), c)
    } else {
        s
    }
}

/// `s` without the leading `c`s.
pub open spec fn trim_start_char(s: Seq<char>, c: char) -> Seq<char>
    decreases s.len(),
{
    if s.len() > 0 && s[0] == c {
        trim_start_char(s.drop_first(), c)
    } else {
        s
    }
}

/// `s[from..]` without its leading `c`s.
pub fn trim_start_from(s: &[char], from: usize, c: char) -> (r: Vec<char>)
    requires
        from <= s.len(),
    ensures
        r@ == trim_start_char(s@.skip(from as int), c),
{
    let mut i: usize = from;
    while i < s.len() && s[i] == c
        invariant
            from <= i <= s.len(),
            trim_start_char(s@.skip(from as int), c) == trim_start_char(s@.skip(i as int), c),
        decreases s.len() - i,
    {
        assert(s@.skip(i as int).drop_first() == s@.skip(i + 1));
        i = i + 1;
    }
    let mut r: Vec<char> = Vec::new();
    let mut k: usize = i;
    while k < s.len()
        invariant
            i <= k <= s.len(),
            r@ == s@.subrange(i as int, k as int),
        decreases s.len() - k,
    {
        r.push(s[k]);
        k = k + 1;
    }
    assert(r@ == s@.skip(i as int));
    r
}

/// The length of `s` once its trailing `c`s are dropped.
pub fn trim_end_len(s: &[char], c: char) -> (n: usize)
    ensures
        n <= s.len(),
        s@.take(n as int) == trim_end_char(s@, c),
{
    let mut n: usize = s.len();
    assert(s@.take(n as int) == s@);
    while n > 0 && s[n - 1] == c
        invariant
            n <= s.len(),
            trim_end_char(s@, c) == trim_end_char(s@.take(n as int), c),
        decreases n,
    {
        assert(s@.take(n as int).drop_last() == s@.take(n - 1));
        n = n - 1;
    }
    n
}

/// `p` without one trailing carriage return.
pub open spec fn strip_cr(p: Seq<char>) -> Seq<char> {
    if p.len() > 0 && p.last() == '\r' {
        p.drop_last()
    } else {
        p
    }
}

/// The lines of `s`, as `str::lines` gives them: `s` is cut after every
/// `\n`, a line so ended loses one trailing `\r`, and a final `\n` starts
/// no further line.
pub open spec fn text_lines(s: Seq<char>) -> Seq<Seq<char>>
    decreases s.len(),
{
    if s.len() == 0 {
        Seq::empty()
    } else {
        let k = find_either(s, '\n', '\n');
        if k >= s.len() {
            seq![s]
        } else {
            seq![strip_cr(s.take(k as int))] + text_lines(s.skip((k + 1) as int))
        }
    }
}

/// The lines of `s`.
pub fn lines_of(s: &[char]) -> (r: Vec<Vec<char>>)
    ensures
        char_rows(r@) == text_lines(s@),
{
    let mut r: Vec<Vec<char>> = Vec::new();
    let mut piece: Vec<char> = Vec::new();
    let mut start: usize = 0;
    let mut i: usize = 0;
    assert(s@.skip(0) == s@);
    assert(char_rows(r@) + text_lines(s@) == text_lines(s@));
    while i < s.len()
        invariant
            start <= i <= s.len(),
            piece@ == s@.subrange(start as int, i as int),
            forall|j: int| start <= j < i ==> s@[j] != '\n',
            char_rows(r@) + text_lines(s@.skip(start as int)) == text_lines(s@),
        decreases s.len() - i,
    {
        let c = s[i];
        if c == '\n' {
            proof {
                let rest = s@.skip(start as int);
                lemma_find_either(rest, '\n', '\n', (i - start) as nat);
                assert(rest.take(i - start) == piece@);
                assert(rest.skip(i - start + 1) == s@.skip(i + 1));
            }
            let ghost before = piece@;
            if piece.len() > 0 && piece[piece.len() - 1] == '\r' {
                piece.pop();
                assert(piece@ == before.drop_last());
            }
            proof {
                assert(piece@ == strip_cr(before));
                assert(char_rows(r@.push(piece)) == char_rows(r@).push(piece@));
            }
            r.push(piece);
            piece = Vec::new();
            start = i + 1;
        } else {
            piece.push(c);
        }
        i = i + 1;
    }
    proof {
        let rest = s@.skip(start as int);
        assert(rest == piece@);
        if rest.len() > 0 {
            lemma_find_either(rest, '\n', '\n', rest.len());
            assert(char_rows(r@.push(piece)) == char_rows(r@).push(piece@));
        }
    }
    if piece.len() > 0 {
        r.push(piece);
    }
    r
}

/// `cs[from..to]` as a vector.
pub fn sub_chars(cs: &[char], from: usize, to: usize) -> (r: Vec<char>)
    requires
        from <= to <= cs.len(),
    ensures
        r@ == cs@.subrange(from as int, to as int),
{
    let mut r: Vec<char> = Vec::new();
    let mut i: usize = from;
    while i < to
        invariant
            from <= i <= to,
            to <= cs.len(),
            r@ == cs@.subrange(from as int, i as int),
        decreases to - i,
    {
        r.push(cs[i]);
        i = i + 1;
    }
    r
}

/// The index of the first `c` in `cs`, or its length when there is none.
pub fn find_char(cs: &[char], c: char) -> (k: usize)
    ensures
        k == find_either(cs@, c, c),
        k <= cs.len(),
{
    let mut k: usize = 0;
    while k < cs.len() && cs[k] != c
        invariant
            k <= cs.len(),
            forall|i: int| 0 <= i < k ==> cs@[i] != c,
        decreases cs.len() - k,
    {
        k = k + 1;
    }
    proof {
        lemma_find_either(cs@, c, c, k as nat);
    }
    k
}

/// The characters with the Unicode `White_Space` property.
pub open spec fn white_space(c: char) -> bool {
    ('\u{9}' <= c <= '\u{d}') || c == ' ' || c == '\u{85}' || c == '\u{a0}' || c == '\u{1680}'
        || ('\u{2000}' <= c <= '\u{200a}') || c == '\u{2028}' || c == '\u{2029}' || c
        == '\u{202f}' || c == '\u{205f}' || c == '\u{3000}'
}

/// Whether `c` has the Unicode `White_Space` property, as
/// `char::is_whitespace` decides it.
pub(crate) fn is_whitespace(c: char) -> (r: bool)
    ensures
        r == white_space(c),
{
    ('\u{9}' <= c && c <= '\u{d}') || c == ' ' || c == '\u{85}' || c == '\u{a0}' || c == '\u{1680}'
        || ('\u{2000}' <= c && c <= '\u{200a}') || c == '\u{2028}' || c == '\u{2029}' || c
        == '\u{202f}' || c == '\u{205f}' || c == '\u{3000}'
}

/// The index of the first white space in `s`, or `s.len()` when there is none.
pub open spec fn find_white_space(s: Seq<char>) -> nat
    decreases s.len(),
{
    if s.len() == 0 {
        0
    } else if white_space(s[0]) {
        0
    } else {
        1 + find_white_space(s.drop_first())
    }
}

/// Characters up to the first white space locate it.
pub proof fn lemma_find_white_space(s: Seq<char>, k: nat)
    requires
        k <= s.len(),
        forall|i: int| 0 <= i < k ==> !white_space(s[i]),
        k == s.len() || white_space(s[k as int]),
    ensures
        find_white_space(s) == k,
    decreases k,
{
    if k > 0 {
        lemma_find_white_space(s.drop_first(), (k - 1) as nat);
    }
}

/// The pieces of `s` between white space characters, empty pieces included.
pub open spec fn white_space_pieces(s: Seq<char>) -> Seq<Seq<char>>
    decreases s.len(),
{
    let k = find_white_space(s);
    if k >= s.len() {
        seq![s]
    } else {
        seq![s.take(k as int)] + white_space_pieces(s.skip((k + 1) as int))
    }
}

/// The fields of `s`, as `str::split_whitespace` gives them.
pub open spec fn white_space_fields(s: Seq<char>) -> Seq<Seq<char>> {
    non_empty(white_space_pieces(s))
}

/// `s` split at every white space character.
fn split_at_white_space(s: &[char]) -> (r: Vec<Vec<char>>)
    ensures
        char_rows(r@) == white_space_pieces(s@),
{
    let mut r: Vec<Vec<char>> = Vec::new();
    let mut piece: Vec<char> = Vec::new();
    let mut start: usize = 0;
    let mut i: usize = 0;
    assert(s@.skip(0) == s@);
    assert(char_rows(r@) + white_space_pieces(s@) == white_space_pieces(s@));
    while i < s.len()
        invariant
            start <= i <= s.len(),
            piece@ == s@.subrange(start as int, i as int),
            forall|j: int| start <= j < i ==> !white_space(s@[j]),
            char_rows(r@) + white_space_pieces(s@.skip(start as int)) == white_space_pieces(s@),
        decreases s.len() - i,
    {
        let c = s[i];
        if is_whitespace(c) {
            proof {
                let rest = s@.skip(start as int);
                lemma_find_white_space(rest, (i - start) as nat);
                assert(rest.take(i - start) == piece@);
                assert(rest.skip(i - start + 1) == s@.skip(i + 1));
                assert(char_rows(r@.push(piece)) == char_rows(r@).push(piece@));
            }
            r.push(piece);
            piece = Vec::new();
            start = i + 1;
        } else {
            piece.push(c);
        }
        i = i + 1;
    }
    proof {
        let rest = s@.skip(start as int);
        lemma_find_white_space(rest, (i - start) as nat);
        assert(rest == piece@);
        assert(char_rows(r@.push(piece)) == char_rows(r@).push(piece@));
    }
    r.push(piece);
    r
}

/// The white-space separated fields of `s`.
pub fn white_space_split(s: &[char]) -> (r: Vec<Vec<char>>)
    ensures
        char_rows(r@) == white_space_fields(s@),
{
    keep_non_empty(split_at_white_space(s))
}

/// Whether two character slices are equal.
pub fn chars_equal(a: &[char], b: &[char]) -> (r: bool)
    ensures
        r == (a@ == b@),
{
    if a.len() != b.len() {
        return false;
    }
    let mut i: usize = 0;
    while i < a.len()
        invariant
            i <= a.len(),
            a.len() == b.len(),
            forall|j: int| 0 <= j < i ==> a@[j] == b@[j],
        decreases a.len() - i,
    {
        if a[i] != b[i] {
            assert(a@[i as int] != b@[i as int]);
            return false;
        }
        i = i + 1;
    }
    assert(a@ =~= b@);
    true
}

/// Whether `p` is a prefix of `s`.
pub open spec fn starts_with(s: Seq<char>, p: Seq<char>) -> bool {
    p.len() <= s.len() && s.take(p.len() as int) == p
}

/// Whether `p[..plen]` is a prefix of `s`.
pub fn has_prefix(s: &[char], p: &[char], plen: usize) -> (r: bool)
    requires
        plen <= p.len(),
    ensures
        r == starts_with(s@, p@.take(plen as int)),
{
    if plen > s.len() {
        return false;
    }
    let mut i: usize = 0;
    while i < plen
        invariant
            i <= plen <= s.len(),
            plen <= p.len(),
            forall|j: int| 0 <= j < i ==> s@[j] == p@[j],
        decreases plen - i,
    {
        if s[i] != p[i] {
            assert(s@.take(plen as int)[i as int] != p@.take(plen as int)[i as int]);
            return false;
        }
        i = i + 1;
    }
    assert(s@.take(plen as int) =~= p@.take(plen as int));
    true
}

} // verus!
