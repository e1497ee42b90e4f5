//! Character-level text utilities: string/char-vector conversion, decimal
//! number rendering and parsing, and JSON string escaping with its inverse.
//! The round-trip lemmas here carry the token claims codec.
use vstd::prelude::*;

verus! {

/// Exact equality of two string slices, usable where contracts need it.
pub fn str_eq(a: &str, b: &str) -> (r: bool)
    ensures
        r == (a@ == b@),
{
    let alen: usize = a.unicode_len();
    let blen: usize = b.unicode_len();
    if alen != blen {
        assert(a@ != b@);
        return false;
    }
    let mut i: usize = 0;
    while i < alen
        invariant
            i <= alen,
            alen == a@.len(),
            blen == b@.len(),
            alen == blen,
            forall|j: int| 0 <= j < i ==> a@[j] == b@[j],
        decreases alen - i,
    {
        if a.get_char(i) != b.get_char(i) {
            return false;
        }
        i += 1;
    }
    proof {
        assert(a@ =~= b@);
    }
    true
}

/// Relies on `str::chars` and `Iterator::collect`: the characters of the
/// string, in order.
#[verifier::external_body]
pub fn string_chars(s: &str) -> (r: Vec<char>)
    ensures
        r@ == s@,
{
    s.chars().collect()
}

/// Relies on `String::from_iter` over `core::slice::Iter`: builds the string
/// whose characters are exactly those of the vector, in order.
#[verifier::external_body]
pub fn chars_string(v: &Vec<char>) -> (r: String)
    ensures
        r@ == v@,
{
    v.iter().collect()
}

/// Appends every character of `src` to `out`.
pub fn push_all(out: &mut Vec<char>, src: &Vec<char>)
    ensures
        final(out)@ == old(out)@ + src@,
{
    let mut i: usize = 0;
    while i < src.len()
        invariant
            i <= src.len(),
            out@ == old(out)@ + src@.subrange(0, i as int),
        decreases src.len() - i,
    {
        out.push(src[i]);
        i += 1;
    }
    proof {
        assert(src@.subrange(0, src@.len() as int) =~= src@);
    }
}

/// Whether `l` is a prefix of `s`.
pub open spec fn is_prefix(l: Seq<char>, s: Seq<char>) -> bool {
    l.len() <= s.len() && s.subrange(0, l.len() as int) == l
}

/// Whether the characters of `v` starting at `i` begin with the literal `l`.
pub fn has_prefix_at(v: &Vec<char>, i: usize, l: &Vec<char>) -> (r: bool)
    requires
        i <= v@.len(),
    ensures
        r == is_prefix(l@, v@.skip(i as int)),
{
    if v.len() - i < l.len() {
        return false;
    }
    let n: usize = v.len();
    let llen: usize = l.len();
    let mut j: usize = 0;
    while j < llen
        invariant
            j <= llen,
            llen == l@.len(),
            n == v@.len(),
            i + llen <= n,
            forall|k: int| 0 <= k < j ==> v@[i + k] == l@[k],
        decreases llen - j,
    {
        if v[i + j] != l[j] {
            assert(v@.skip(i as int).subrange(0, l@.len() as int)[j as int] != l@[j as int]);
            return false;
        }
        j += 1;
    }
    proof {
        assert(v@.skip(i as int).subrange(0, l@.len() as int) =~= l@);
    }
    true
}

// ---------------------------------------------------------------------------
// Decimal numbers
// ---------------------------------------------------------------------------

/// The decimal digit character for a value below ten.
pub open spec fn digit_char(d: int) -> char {
    if d == 0 { '0' } else if d == 1 { '1' } else if d == 2 { '2' } else if d == 3 { '3' }
    else if d == 4 { '4' } else if d == 5 { '5' } else if d == 6 { '6' } else if d == 7 { '7' }
    else if d == 8 { '8' } else { '9' }
}

/// Decimal representation of a natural number, most significant digit first.
pub open spec fn dec_rep(n: int) -> Seq<char>
    decreases n,
{
    if n < 10 {
        seq![digit_char(n)]
    } else {
        dec_rep(n / 10).push(digit_char(n % 10))
    }
}

pub open spec fn is_dec_digit(c: char) -> bool {
    '0' <= c && c <= '9'
}

pub open spec fn digit_val(c: char) -> int {
    (c as int) - ('0' as int)
}

/// Left fold of a digit string onto an accumulator; `None` on a non-digit or
/// when the value would leave `usize`.
pub open spec fn parse_dec(s: Seq<char>, acc: int) -> Option<int>
    decreases s.len(),
{
    if s.len() == 0 {
        Some(acc)
    } else if !is_dec_digit(s[0]) {
        None
    } else if acc * 10 + digit_val(s[0]) > usize::MAX {
        None
    } else {
        parse_dec(s.skip(1), acc * 10 + digit_val(s[0]))
    }
}

pub proof fn lemma_parse_dec_concat(a: Seq<char>, b: Seq<char>, acc: int)
    ensures
        parse_dec(a + b, acc) == (match parse_dec(a, acc) {
            Some(m) => parse_dec(b, m),
            None => None,
        }),
    decreases a.len(),
{
    if a.len() == 0 {
        assert(a + b =~= b);
    } else {
        assert((a + b)[0] == a[0]);
        if is_dec_digit(a[0]) && a[0] == a[0] {
            let acc2 = acc * 10 + digit_val(a[0]);
            if acc2 <= usize::MAX {
                assert((a + b).skip(1) =~= a.skip(1) + b);
                lemma_parse_dec_concat(a.skip(1), b, acc2);
            } else {
                assert(parse_dec(a + b, acc) is None);
            }
        }
    }
}

/// Parsing inverts rendering, for any value a `usize` can hold.
pub proof fn lemma_parse_dec_rep(n: int)
    requires
        0 <= n <= usize::MAX,
    ensures
        parse_dec(dec_rep(n), 0) == Some(n),
    decreases n,
{
    if n < 10 {
        assert(digit_char(n) as int == 48 + n);
        assert(is_dec_digit(digit_char(n)));
        assert(digit_val(digit_char(n)) == n);
        assert(dec_rep(n).skip(1) =~= Seq::<char>::empty());
        assert(parse_dec(dec_rep(n).skip(1), n) == Some(n));
    } else {
        lemma_parse_dec_rep(n / 10);
        assert(dec_rep(n) =~= dec_rep(n / 10) + seq![digit_char(n % 10)]);
        lemma_parse_dec_concat(dec_rep(n / 10), seq![digit_char(n % 10)], 0);
        let d = digit_char(n % 10);
        assert(is_dec_digit(d));
        assert(digit_val(d) == n % 10);
        assert((n / 10) * 10 + n % 10 == n);
        assert(seq![d].skip(1) =~= Seq::<char>::empty());
        assert(parse_dec(seq![d].skip(1), n) == Some(n));
        assert(parse_dec(seq![d], n / 10) == Some(n));
    }
}

/// Every character a rendering produces is a decimal digit.
pub proof fn lemma_dec_rep_digits(n: int)
    requires
        0 <= n,
    ensures
        dec_rep(n).len() >= 1,
        forall|i: int| 0 <= i < dec_rep(n).len() ==> is_dec_digit(#[trigger] dec_rep(n)[i]),
    decreases n,
{
    if n < 10 {
        assert(is_dec_digit(digit_char(n)));
    } else {
        lemma_dec_rep_digits(n / 10);
        assert(is_dec_digit(digit_char(n % 10)));
    }
}

/// Renders a number in decimal.
pub fn render_dec(n: usize) -> (r: Vec<char>)
    ensures
        r@ == dec_rep(n as int),
    decreases n,
{
    let d: usize = n % 10;
    let c: char = if d == 0 { '0' } else if d == 1 { '1' } else if d == 2 { '2' }
        else if d == 3 { '3' } else if d == 4 { '4' } else if d == 5 { '5' }
        else if d == 6 { '6' } else if d == 7 { '7' } else if d == 8 { '8' } else { '9' };
    proof {
        assert(c == digit_char(n as int % 10));
    }
    if n < 10 {
        let mut out: Vec<char> = Vec::new();
        out.push(c);
        proof {
            assert(out@ =~= seq![digit_char(n as int)]);
        }
        out
    } else {
        let mut out = render_dec(n / 10);
        out.push(c);
        out
    }
}

/// Parses a decimal digit string, exactly as `parse_dec` says.
pub fn parse_dec_chars(v: &Vec<char>, from: usize, to: usize) -> (r: Option<usize>)
    requires
        from <= to <= v@.len(),
    ensures
        (match r {
            Some(n) => v@.subrange(from as int, to as int).len() > 0 && parse_dec(
                v@.subrange(from as int, to as int),
                0,
            ) == Some(n as int),
            None => v@.subrange(from as int, to as int).len() == 0 || parse_dec(
                v@.subrange(from as int, to as int),
                0,
            ) is None,
        }),
{
    if from == to {
        return None;
    }
    let mut i: usize = from;
    let mut acc: usize = 0;
    while i < to
        invariant
            from <= i <= to <= v@.len(),
            parse_dec(v@.subrange(from as int, to as int), 0) == parse_dec(
                v@.subrange(i as int, to as int),
                acc as int,
            ),
        decreases to - i,
    {
        let c = v[i];
        if !(c >= '0' && c <= '9') {
            return None;
        }
        let d: usize = (c as usize) - ('0' as usize);
        assert(d == digit_val(c) && 0 <= d <= 9);
        if acc > (usize::MAX - d) / 10 {
            proof {
                assert(acc * 10 + d > usize::MAX) by (nonlinear_arith)
                    requires
                        acc > (usize::MAX - d) / 10,
                        0 <= d <= 9,
                ;
                assert(v@.subrange(i as int, to as int)[0] == c);
            }
            return None;
        }
        proof {
            assert(acc * 10 + d <= usize::MAX) by (nonlinear_arith)
                requires
                    acc <= (usize::MAX - d) / 10,
                    0 <= d <= 9,
            ;
            assert(v@.subrange(i as int, to as int)[0] == c);
            assert(v@.subrange(i as int, to as int).skip(1) =~= v@.subrange(
                i + 1,
                to as int,
            ));
        }
        acc = acc * 10 + d;
        i += 1;
    }
    proof {
        assert(v@.subrange(to as int, to as int) =~= Seq::<char>::empty());
    }
    Some(acc)
}

// ---------------------------------------------------------------------------
// JSON string escaping
// ---------------------------------------------------------------------------

/// The lowercase hexadecimal digit character for a value below sixteen.
pub open spec fn hex_char(d: int) -> char {
    if d < 10 {
        digit_char(d)
    } else if d == 10 { 'a' } else if d == 11 { 'b' } else if d == 12 { 'c' }
    else if d == 13 { 'd' } else if d == 14 { 'e' } else { 'f' }
}

pub open spec fn is_hex_digit(c: char) -> bool {
    ('0' <= c && c <= '9') || ('a' <= c && c <= 'f')
}

pub open spec fn hex_val(c: char) -> int {
    if '0' <= c && c <= '9' {
        (c as int) - ('0' as int)
    } else {
        (c as int) - ('a' as int) + 10
    }
}

/// How one character is written inside a JSON string.
pub open spec fn esc_char(c: char) -> Seq<char> {
    if c == '"' {
        seq!['\\', '"']
    } else if c == '\\' {
        seq!['\\', '\\']
    } else if (c as int) == 8 {
        seq!['\\', 'b']
    } else if (c as int) == 9 {
        seq!['\\', 't']
    } else if (c as int) == 10 {
        seq!['\\', 'n']
    } else if (c as int) == 12 {
        seq!['\\', 'f']
    } else if (c as int) == 13 {
        seq!['\\', 'r']
    } else if (c as int) < 32 {
        seq!['\\', 'u', '0', '0', hex_char((c as int) / 16), hex_char((c as int) % 16)]
    } else {
        seq![c]
    }
}

/// A whole string written inside JSON quotes.
pub open spec fn esc(s: Seq<char>) -> Seq<char>
    decreases s.len(),
{
    if s.len() == 0 {
        Seq::empty()
    } else {
        esc_char(s[0]) + esc(s.skip(1))
    }
}

pub proof fn lemma_esc_concat(a: Seq<char>, b: Seq<char>)
    ensures
        esc(a + b) == esc(a) + esc(b),
    decreases a.len(),
{
    if a.len() == 0 {
        assert(a + b =~= b);
        assert(esc(a) + esc(b) =~= esc(b));
    } else {
        assert((a + b)[0] == a[0]);
        assert((a + b).skip(1) =~= a.skip(1) + b);
        lemma_esc_concat(a.skip(1), b);
        assert(esc(a + b) =~= esc(a) + esc(b));
    }
}

/// Whether two characters have the same code point.
pub fn char_is(c: char, d: char) -> (r: bool)
    ensures
        r == ((c as int) == (d as int)),
{
    !(c < d) && !(d < c)
}

/// Writes one character of a JSON string, escaped as `esc_char` says.
#[verifier::rlimit(100)]
pub fn escape_char_into(out: &mut Vec<char>, c: char)
    ensures
        final(out)@ == old(out)@ + esc_char(c),
{
    {
        let space: char = ' ';
        if c == '"' {
            out.push('\\');
            out.push('"');
        } else if c == '\\' {
            out.push('\\');
            out.push('\\');
        } else if char_is(c, '\u{8}') {
            out.push('\\');
            out.push('b');
        } else if char_is(c, '\u{9}') {
            out.push('\\');
            out.push('t');
        } else if char_is(c, '\u{a}') {
            out.push('\\');
            out.push('n');
        } else if char_is(c, '\u{c}') {
            out.push('\\');
            out.push('f');
        } else if char_is(c, '\u{d}') {
            out.push('\\');
            out.push('r');
        } else if c < space {
            out.push('\\');
            out.push('u');
            out.push('0');
            out.push('0');
            if char_is(c, '\u{0}') {
                out.push('0');
                out.push('0');
            } else if char_is(c, '\u{1}') {
                out.push('0');
                out.push('1');
            } else if char_is(c, '\u{2}') {
                out.push('0');
                out.push('2');
            } else if char_is(c, '\u{3}') {
                out.push('0');
                out.push('3');
            } else if char_is(c, '\u{4}') {
                out.push('0');
                out.push('4');
            } else if char_is(c, '\u{5}') {
                out.push('0');
                out.push('5');
            } else if char_is(c, '\u{6}') {
                out.push('0');
                out.push('6');
            } else if char_is(c, '\u{7}') {
                out.push('0');
                out.push('7');
            } else if char_is(c, '\u{b}') {
                out.push('0');
                out.push('b');
            } else if char_is(c, '\u{e}') {
                out.push('0');
                out.push('e');
            } else if char_is(c, '\u{f}') {
                out.push('0');
                out.push('f');
            } else if char_is(c, '\u{10}') {
                out.push('1');
                out.push('0');
            } else if char_is(c, '\u{11}') {
                out.push('1');
                out.push('1');
            } else if char_is(c, '\u{12}') {
                out.push('1');
                out.push('2');
            } else if char_is(c, '\u{13}') {
                out.push('1');
                out.push('3');
            } else if char_is(c, '\u{14}') {
                out.push('1');
                out.push('4');
            } else if char_is(c, '\u{15}') {
                out.push('1');
                out.push('5');
            } else if char_is(c, '\u{16}') {
                out.push('1');
                out.push('6');
            } else if char_is(c, '\u{17}') {
                out.push('1');
                out.push('7');
            } else if char_is(c, '\u{18}') {
                out.push('1');
                out.push('8');
            } else if char_is(c, '\u{19}') {
                out.push('1');
                out.push('9');
            } else if char_is(c, '\u{1a}') {
                out.push('1');
                out.push('a');
            } else if char_is(c, '\u{1b}') {
                out.push('1');
                out.push('b');
            } else if char_is(c, '\u{1c}') {
                out.push('1');
                out.push('c');
            } else if char_is(c, '\u{1d}') {
                out.push('1');
                out.push('d');
            } else if char_is(c, '\u{1e}') {
                out.push('1');
                out.push('e');
            } else {
                out.push('1');
                out.push('f');
            }
        } else {
            out.push(c);
        }
    }
}

/// Escapes the characters of `src` into `out`.
pub fn escape_into(out: &mut Vec<char>, src: &Vec<char>)
    ensures
        final(out)@ == old(out)@ + esc(src@),
{
    let mut i: usize = 0;
    while i < src.len()
        invariant
            i <= src.len(),
            out@ == old(out)@ + esc(src@.subrange(0, i as int)),
        decreases src.len() - i,
    {
        let c = src[i];
        escape_char_into(out, c);
        proof {
            assert(src@.subrange(0, i + 1) =~= src@.subrange(0, i as int) + seq![src@[i as int]]);
            lemma_esc_concat(src@.subrange(0, i as int), seq![src@[i as int]]);
            assert(seq![src@[i as int]].skip(1) =~= Seq::<char>::empty());
            assert(esc(Seq::<char>::empty()) =~= Seq::<char>::empty());
            assert(esc(seq![src@[i as int]]) =~= esc_char(src@[i as int]));
            assert(out@ =~= old(out)@ + esc(src@.subrange(0, i + 1)));
        }
        i += 1;
    }
    proof {
        assert(src@.subrange(0, src@.len() as int) =~= src@);
    }
}


// ---------------------------------------------------------------------------
// JSON string scanning (the inverse of escaping)
// ---------------------------------------------------------------------------

/// The character a short escape stands for.
pub open spec fn unesc_short(e: char) -> char {
    if e == '"' { '"' }
    else if e == '\\' { '\\' }
    else if e == 'b' { '\u{8}' }
    else if e == 't' { '\u{9}' }
    else if e == 'n' { '\u{a}' }
    else if e == 'f' { '\u{c}' }
    else { '\u{d}' }
}

/// The control character with the given code point.
pub open spec fn ctrl_char(v: int) -> char {
    if v == 0 { '\u{0}' }
    else if v == 1 { '\u{1}' }
    else if v == 2 { '\u{2}' }
    else if v == 3 { '\u{3}' }
    else if v == 4 { '\u{4}' }
    else if v == 5 { '\u{5}' }
    else if v == 6 { '\u{6}' }
    else if v == 7 { '\u{7}' }
    else if v == 8 { '\u{8}' }
    else if v == 9 { '\u{9}' }
    else if v == 10 { '\u{a}' }
    else if v == 11 { '\u{b}' }
    else if v == 12 { '\u{c}' }
    else if v == 13 { '\u{d}' }
    else if v == 14 { '\u{e}' }
    else if v == 15 { '\u{f}' }
    else if v == 16 { '\u{10}' }
    else if v == 17 { '\u{11}' }
    else if v == 18 { '\u{12}' }
    else if v == 19 { '\u{13}' }
    else if v == 20 { '\u{14}' }
    else if v == 21 { '\u{15}' }
    else if v == 22 { '\u{16}' }
    else if v == 23 { '\u{17}' }
    else if v == 24 { '\u{18}' }
    else if v == 25 { '\u{19}' }
    else if v == 26 { '\u{1a}' }
    else if v == 27 { '\u{1b}' }
    else if v == 28 { '\u{1c}' }
    else if v == 29 { '\u{1d}' }
    else if v == 30 { '\u{1e}' }
    else { '\u{1f}' }
}

pub open spec fn is_short_escape(e: char) -> bool {
    e == '"' || e == '\\' || e == 'b' || e == 't' || e == 'n' || e == 'f' || e == 'r'
}

/// Reads the body of a JSON string up to its closing quote; yields the
/// unescaped content and what follows the quote.
pub open spec fn scan_str(s: Seq<char>) -> Option<(Seq<char>, Seq<char>)>
    decreases s.len(),
{
    if s.len() == 0 {
        None
    } else if s[0] == '"' {
        Some((Seq::empty(), s.skip(1)))
    } else if s[0] == '\\' {
        if s.len() < 2 {
            None
        } else if is_short_escape(s[1]) {
            match scan_str(s.skip(2)) {
                Some(p) => Some((seq![unesc_short(s[1])] + p.0, p.1)),
                None => None,
            }
        } else if s[1] == 'u' {
            if s.len() >= 6 && (s[2] as int) == ('0' as int) && (s[3] as int) == ('0' as int)
                && is_hex_digit(s[4]) && is_hex_digit(s[5])
                && 16 * hex_val(s[4]) + hex_val(s[5]) < 32 {
                match scan_str(s.skip(6)) {
                    Some(p) => Some(
                        (seq![ctrl_char(16 * hex_val(s[4]) + hex_val(s[5]))] + p.0, p.1),
                    ),
                    None => None,
                }
            } else {
                None
            }
        } else {
            None
        }
    } else {
        match scan_str(s.skip(1)) {
            Some(p) => Some((seq![s[0]] + p.0, p.1)),
            None => None,
        }
    }
}

/// No character is a control character.
pub open spec fn ctrl_free(s: Seq<char>) -> bool {
    forall|i: int| 0 <= i < s.len() ==> (#[trigger] s[i] as int) >= 32
}

/// Scanning inverts escaping, for content free of control characters.
pub proof fn lemma_scan_esc(u: Seq<char>, rest: Seq<char>)
    requires
        ctrl_free(u),
    ensures
        scan_str(esc(u) + seq!['"'] + rest) == Some((u, rest)),
    decreases u.len(),
{
    if u.len() == 0 {
        assert(esc(u) + seq!['"'] + rest =~= seq!['"'] + rest);
        assert((seq!['"'] + rest)[0] == '"');
        assert((seq!['"'] + rest).skip(1) =~= rest);
    } else {
        let c = u[0];
        let u2 = u.skip(1);
        assert(ctrl_free(u2));
        lemma_scan_esc(u2, rest);
        let s = esc(u) + seq!['"'] + rest;
        assert(esc(u) =~= esc_char(c) + esc(u2));
        if c == '"' || c == '\\' {
            assert(esc_char(c) =~= seq!['\\', c]);
            assert(s[0] == '\\' && s[1] == c);
            assert(is_short_escape(c));
            assert(unesc_short(c) == c);
            assert(s.skip(2) =~= esc(u2) + seq!['"'] + rest);
            assert(seq![c] + u2 =~= u);
        } else {
            assert((c as int) >= 32);
            assert(esc_char(c) =~= seq![c]);
            assert(s[0] == c);
            assert(s[0] != '"' && s[0] != '\\');
            assert(s.skip(1) =~= esc(u2) + seq!['"'] + rest);
            assert(seq![c] + u2 =~= u);
        }
    }
}

/// The value of one hexadecimal digit character.
pub fn hex_digit_val(c: char) -> (r: Option<u8>)
    ensures
        (match r {
            Some(v) => is_hex_digit(c) && v as int == hex_val(c) && v < 16,
            None => !is_hex_digit(c),
        }),
{
    if char_is(c, '0') { Some(0) }
 else if char_is(c, '1') { Some(1) }
 else if char_is(c, '2') { Some(2) }
 else if char_is(c, '3') { Some(3) }
 else if char_is(c, '4') { Some(4) }
 else if char_is(c, '5') { Some(5) }
 else if char_is(c, '6') { Some(6) }
 else if char_is(c, '7') { Some(7) }
 else if char_is(c, '8') { Some(8) }
 else if char_is(c, '9') { Some(9) }
 else if char_is(c, 'a') { Some(10) }
 else if char_is(c, 'b') { Some(11) }
 else if char_is(c, 'c') { Some(12) }
 else if char_is(c, 'd') { Some(13) }
 else if char_is(c, 'e') { Some(14) }
 else if char_is(c, 'f') { Some(15) } else { None }
}

/// The control character for a code point below thirty-two.
pub fn ctrl_char_of(v: u8) -> (r: char)
    requires
        v < 32,
    ensures
        r == ctrl_char(v as int),
{
    if v == 0 { '\u{0}' }
    else if v == 1 { '\u{1}' }
    else if v == 2 { '\u{2}' }
    else if v == 3 { '\u{3}' }
    else if v == 4 { '\u{4}' }
    else if v == 5 { '\u{5}' }
    else if v == 6 { '\u{6}' }
    else if v == 7 { '\u{7}' }
    else if v == 8 { '\u{8}' }
    else if v == 9 { '\u{9}' }
    else if v == 10 { '\u{a}' }
    else if v == 11 { '\u{b}' }
    else if v == 12 { '\u{c}' }
    else if v == 13 { '\u{d}' }
    else if v == 14 { '\u{e}' }
    else if v == 15 { '\u{f}' }
    else if v == 16 { '\u{10}' }
    else if v == 17 { '\u{11}' }
    else if v == 18 { '\u{12}' }
    else if v == 19 { '\u{13}' }
    else if v == 20 { '\u{14}' }
    else if v == 21 { '\u{15}' }
    else if v == 22 { '\u{16}' }
    else if v == 23 { '\u{17}' }
    else if v == 24 { '\u{18}' }
    else if v == 25 { '\u{19}' }
    else if v == 26 { '\u{1a}' }
    else if v == 27 { '\u{1b}' }
    else if v == 28 { '\u{1c}' }
    else if v == 29 { '\u{1d}' }
    else if v == 30 { '\u{1e}' }
    else { '\u{1f}' }
}

/// Reads a JSON string body starting at `from`; on success yields the
/// unescaped content and the position just past the closing quote.
pub fn scan_chars(v: &Vec<char>, from: usize) -> (r: Option<(Vec<char>, usize)>)
    requires
        from <= v@.len(),
    ensures
        (match r {
            Some(p) => from <= p.1 <= v@.len() && scan_str(v@.skip(from as int)) == Some(
                (p.0@, v@.skip(p.1 as int)),
            ),
            None => scan_str(v@.skip(from as int)) is None,
        }),
{
    let n: usize = v.len();
    let mut i: usize = from;
    let mut out: Vec<char> = Vec::new();
    loop
        invariant
            from <= i <= n,
            n == v@.len(),
            (match scan_str(v@.skip(i as int)) {
                Some(p) => scan_str(v@.skip(from as int)) == Some((out@ + p.0, p.1)),
                None => scan_str(v@.skip(from as int)) is None,
            }),
        decreases n - i,
    {
        if i == n {
            return None;
        }
        let c = v[i];
        if c == '"' {
            proof {
                assert(v@.skip(i as int)[0] == '"');
                assert(v@.skip(i as int).skip(1) =~= v@.skip(i + 1));
                assert(out@ + Seq::<char>::empty() =~= out@);
            }
            return Some((out, i + 1));
        } else if c == '\\' {
            proof {
                assert(v@.skip(i as int)[0] == '\\');
            }
            if i + 1 == n {
                return None;
            }
            let e = v[i + 1];
            proof {
                assert(v@.skip(i as int)[1] == e);
            }
            if e == '"' || e == '\\' || e == 'b' || e == 't' || e == 'n' || e == 'f' || e == 'r' {
                let d: char = if e == '"' {
                    '"'
                } else if e == '\\' {
                    '\\'
                } else if e == 'b' {
                    '\u{8}'
                } else if e == 't' {
                    '\u{9}'
                } else if e == 'n' {
                    '\u{a}'
                } else if e == 'f' {
                    '\u{c}'
                } else {
                    '\u{d}'
                };
                proof {
                    assert(d == unesc_short(e));
                    assert(v@.skip(i as int).skip(2) =~= v@.skip(i + 2));
                }
                let ghost out0 = out@;
                out.push(d);
                proof {
                    let tail = scan_str(v@.skip(i + 2));
                    if tail is Some {
                        assert(out@ + tail.unwrap().0 =~= out0 + (seq![d] + tail.unwrap().0));
                    }
                }
                i += 2;
            } else if e == 'u' {
                if n - i < 6 {
                    proof {
                        assert(v@.skip(i as int).len() < 6);
                    }
                    return None;
                }
                let z1 = v[i + 2];
                let z2 = v[i + 3];
                proof {
                    assert(v@.skip(i as int)[2] == z1);
                    assert(v@.skip(i as int)[3] == z2);
                    assert(v@.skip(i as int)[4] == v@[i + 4]);
                    assert(v@.skip(i as int)[5] == v@[i + 5]);
                }
                if !(char_is(z1, '0') && char_is(z2, '0')) {
                    return None;
                }
                let h1 = match hex_digit_val(v[i + 4]) {
                    Some(x) => x,
                    None => { return None; },
                };
                let h2 = match hex_digit_val(v[i + 5]) {
                    Some(x) => x,
                    None => { return None; },
                };
                let val: u8 = 16 * h1 + h2;
                if val >= 32 {
                    return None;
                }
                let d = ctrl_char_of(val);
                proof {
                    assert(v@.skip(i as int).skip(6) =~= v@.skip(i + 6));
                }
                let ghost out0 = out@;
                out.push(d);
                proof {
                    let tail = scan_str(v@.skip(i + 6));
                    if tail is Some {
                        assert(out@ + tail.unwrap().0 =~= out0 + (seq![d] + tail.unwrap().0));
                    }
                }
                i += 6;
            } else {
                return None;
            }
        } else {
            proof {
                assert(v@.skip(i as int)[0] == c);
                assert(v@.skip(i as int).skip(1) =~= v@.skip(i + 1));
            }
            let ghost out0 = out@;
            out.push(c);
            proof {
                let tail = scan_str(v@.skip(i + 1));
                if tail is Some {
                    assert(out@ + tail.unwrap().0 =~= out0 + (seq![c] + tail.unwrap().0));
                }
            }
            i += 1;
        }
    }
}


// ---------------------------------------------------------------------------
// Searching and slicing
// ---------------------------------------------------------------------------

/// The first position of `c` in `s`, or minus one.
pub open spec fn first_idx_of(s: Seq<char>, c: char) -> int
    decreases s.len(),
{
    if s.len() == 0 {
        -1
    } else if s[0] == c {
        0
    } else {
        let r = first_idx_of(s.skip(1), c);
        if r == -1 {
            -1
        } else {
            r + 1
        }
    }
}

pub proof fn lemma_first_idx_at(s: Seq<char>, c: char, d: int)
    requires
        0 <= d < s.len(),
        s[d] == c,
        forall|k: int| 0 <= k < d ==> s[k] != c,
    ensures
        first_idx_of(s, c) == d,
    decreases d,
{
    if d == 0 {
    } else {
        assert(s[0] != c);
        assert(s.skip(1)[d - 1] == c);
        assert(forall|k: int| 0 <= k < d - 1 ==> s.skip(1)[k] == s[k + 1] && s[k + 1] != c);
        lemma_first_idx_at(s.skip(1), c, d - 1);
    }
}

pub proof fn lemma_first_idx_none(s: Seq<char>, c: char)
    requires
        forall|k: int| 0 <= k < s.len() ==> s[k] != c,
    ensures
        first_idx_of(s, c) == -1,
    decreases s.len(),
{
    if s.len() > 0 {
        assert(forall|k: int| 0 <= k < s.skip(1).len() ==> s.skip(1)[k] == s[k + 1] && s[k
            + 1] != c);
        lemma_first_idx_none(s.skip(1), c);
    }
}

pub proof fn lemma_first_found(s: Seq<char>, c: char, d: int)
    requires
        0 <= d < s.len(),
        s[d] == c,
    ensures
        first_idx_of(s, c) >= 0,
    decreases d,
{
    if s[0] == c {
    } else {
        assert(d != 0);
        assert(s.skip(1)[d - 1] == c);
        lemma_first_found(s.skip(1), c, d - 1);
    }
}

/// Copies `v[from..to]` into a fresh vector.
pub fn copy_range(v: &Vec<char>, from: usize, to: usize) -> (r: Vec<char>)
    requires
        from <= to <= v@.len(),
    ensures
        r@ == v@.subrange(from as int, to as int),
{
    let mut out: Vec<char> = Vec::new();
    let mut i: usize = from;
    while i < to
        invariant
            from <= i <= to <= v@.len(),
            out@ == v@.subrange(from as int, i as int),
        decreases to - i,
    {
        out.push(v[i]);
        proof {
            assert(v@.subrange(from as int, i + 1) =~= v@.subrange(from as int, i as int)
                + seq![v@[i as int]]);
        }
        i += 1;
    }
    out
}


pub proof fn lemma_first_idx_bound(s: Seq<char>, c: char)
    ensures
        -1 <= first_idx_of(s, c) < s.len(),
        first_idx_of(s, c) >= 0 ==> s[first_idx_of(s, c)] == c,
    decreases s.len(),
{
    if s.len() == 0 {
    } else if s[0] == c {
    } else {
        lemma_first_idx_bound(s.skip(1), c);
    }
}

} // verus!
