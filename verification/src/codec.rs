use vstd::prelude::*;

verus! {

// ---------------------------------------------------------------------------
// JSON strings and numbers
//
// The wire format for signaling payloads is JSON text. The encoder
// escapes strings the minimal standard way: `"` and `\` get a backslash
// escape, control characters below U+0020 are written as `\u00XX` with
// lowercase hex, and every other character stands for itself. The
// parser takes the whole JSON string grammar: the eight single-letter
// escapes, `\uXXXX` in either case, and surrogate pairs.
// ---------------------------------------------------------------------------

/// The lowercase hex digit for a value below 16.
pub open spec fn hex_char(d: int) -> char {
    if d == 0 {
        '0'
    } else if d == 1 {
        '1'
    } else if d == 2 {
        '2'
    } else if d == 3 {
        '3'
    } else if d == 4 {
        '4'
    } else if d == 5 {
        '5'
    } else if d == 6 {
        '6'
    } else if d == 7 {
        '7'
    } else if d == 8 {
        '8'
    } else if d == 9 {
        '9'
    } else if d == 10 {
        'a'
    } else if d == 11 {
        'b'
    } else if d == 12 {
        'c'
    } else if d == 13 {
        'd'
    } else if d == 14 {
        'e'
    } else {
        'f'
    }
}

/// Whether a character is a hex digit of either case.
pub open spec fn is_hex(c: char) -> bool {
    ('0' <= c && c <= '9') || ('a' <= c && c <= 'f') || ('A' <= c && c <= 'F')
}

/// The value of a hex digit of either case.
pub open spec fn hex_val(c: char) -> int {
    if '0' <= c && c <= '9' {
        (c as int) - ('0' as int)
    } else if 'a' <= c && c <= 'f' {
        (c as int) - ('a' as int) + 10
    } else {
        (c as int) - ('A' as int) + 10
    }
}

/// The code unit named by four hex digits.
pub open spec fn hex4_val(a: char, b: char, c: char, d: char) -> int {
    hex_val(a) * 4096 + hex_val(b) * 256 + hex_val(c) * 16 + hex_val(d)
}

/// The character a single-letter escape stands for, if it is one of
/// the eight JSON defines.
pub open spec fn short_escape(e: char) -> Option<char> {
    if e == '"' {
        Some('"')
    } else if e == '\\' {
        Some('\\')
    } else if e == '/' {
        Some('/')
    } else if e == 'b' {
        Some('\u{8}')
    } else if e == 'f' {
        Some('\u{c}')
    } else if e == 'n' {
        Some('\n')
    } else if e == 'r' {
        Some('\r')
    } else if e == 't' {
        Some('\t')
    } else {
        None
    }
}

/// The escape of a single character inside a JSON string literal.
pub open spec fn esc_char(c: char) -> Seq<char> {
    if c == '"' {
        seq!['\\', '"']
    } else if c == '\\' {
        seq!['\\', '\\']
    } else if (c as u32) < 32 {
        seq![
            '\\',
            'u',
            '0',
            '0',
            hex_char(((c as u32) as int) / 16),
            hex_char(((c as u32) as int) % 16),
        ]
    } else {
        seq![c]
    }
}

/// The escape of a whole string body.
pub open spec fn esc(s: Seq<char>) -> Seq<char>
    decreases s.len(),
{
    if s.len() == 0 {
        Seq::empty()
    } else {
        esc_char(s[0]) + esc(s.drop_first())
    }
}

/// Escaping distributes over concatenation.
pub proof fn lemma_esc_append(a: Seq<char>, b: Seq<char>)
    ensures
        esc(a + b) == esc(a) + esc(b),
    decreases a.len(),
{
    if a.len() == 0 {
        assert(a + b =~= b);
        assert(esc(a) + esc(b) =~= esc(b));
    } else {
        assert((a + b).drop_first() =~= a.drop_first() + b);
        lemma_esc_append(a.drop_first(), b);
        assert(esc(a + b) =~= esc(a) + esc(b));
    }
}

/// The parser for the body of a JSON string literal, entered just after
/// the opening quote. It takes the whole JSON string grammar: the eight
/// single-letter escapes, `\uXXXX` with hex digits of either case, and
/// a surrogate pair of two such escapes for characters beyond the basic
/// plane; a lone surrogate is refused. On success it yields the
/// unescaped body and the input that remains after the closing quote.
pub open spec fn p_string(inp: Seq<char>) -> Option<(Seq<char>, Seq<char>)>
    decreases inp.len(),
{
    if inp.len() == 0 {
        None
    } else if inp[0] == '"' {
        Some((Seq::empty(), inp.drop_first()))
    } else if inp[0] == '\\' {
        if inp.len() < 2 {
            None
        } else if inp[1] == 'u' {
            if inp.len() < 6 {
                None
            } else if !(is_hex(inp[2]) && is_hex(inp[3]) && is_hex(inp[4]) && is_hex(inp[5])) {
                None
            } else {
                let u = hex4_val(inp[2], inp[3], inp[4], inp[5]);
                if 0xD800 <= u && u < 0xDC00 {
                    if inp.len() < 12 {
                        None
                    } else if !(inp[6] == '\\' && inp[7] == 'u' && is_hex(inp[8]) && is_hex(inp[9])
                        && is_hex(inp[10]) && is_hex(inp[11])) {
                        None
                    } else {
                        let u2 = hex4_val(inp[8], inp[9], inp[10], inp[11]);
                        if !(0xDC00 <= u2 && u2 < 0xE000) {
                            None
                        } else {
                            let cp = 0x10000 + (u - 0xD800) * 0x400 + (u2 - 0xDC00);
                            match p_string(inp.skip(12)) {
                                Some((s, r)) => Some((seq![((cp as u32) as char)] + s, r)),
                                None => None,
                            }
                        }
                    }
                } else if 0xDC00 <= u && u < 0xE000 {
                    None
                } else {
                    match p_string(inp.skip(6)) {
                        Some((s, r)) => Some((seq![((u as u32) as char)] + s, r)),
                        None => None,
                    }
                }
            }
        } else {
            match short_escape(inp[1]) {
                None => None,
                Some(c) => match p_string(inp.skip(2)) {
                    Some((s, r)) => Some((seq![c] + s, r)),
                    None => None,
                },
            }
        }
    } else if (inp[0] as u32) < 32 {
        None
    } else {
        match p_string(inp.drop_first()) {
            Some((s, r)) => Some((seq![inp[0]] + s, r)),
            None => None,
        }
    }
}

/// Hex digits invert their values.
proof fn lemma_hex_roundtrip(d: int)
    requires
        0 <= d < 16,
    ensures
        is_hex(hex_char(d)),
        hex_val(hex_char(d)) == d,
{
}

/// Parsing is a left inverse of escaping: the body parser, run on an
/// escaped string followed by the closing quote and anything after it,
/// recovers exactly the string that was escaped, and the trailing input.
pub proof fn lemma_p_string_of_esc(s: Seq<char>, rest: Seq<char>)
    ensures
        p_string(esc(s) + seq!['"'] + rest) == Some((s, rest)),
    decreases s.len(),
{
    let inp = esc(s) + seq!['"'] + rest;
    if s.len() == 0 {
        assert(inp =~= seq!['"'] + rest);
        assert(inp[0] == '"');
        assert(inp.drop_first() =~= rest);
        assert(Seq::<char>::empty() =~= s);
    } else {
        let c = s[0];
        let s2 = s.drop_first();
        let tail = esc(s2) + seq!['"'] + rest;
        assert(esc(s) == esc_char(c) + esc(s2));
        assert(inp =~= esc_char(c) + tail);
        lemma_p_string_of_esc(s2, rest);
        if c == '"' {
            assert(inp[0] == '\\' && inp[1] == '"');
            assert(short_escape(inp[1]) == Some('"'));
            assert(inp.skip(2) =~= tail);
            assert(seq!['"'] + s2 =~= s);
        } else if c == '\\' {
            assert(inp[0] == '\\' && inp[1] == '\\');
            assert(short_escape(inp[1]) == Some('\\'));
            assert(inp.skip(2) =~= tail);
            assert(seq!['\\'] + s2 =~= s);
        } else if (c as u32) < 32 {
            let cv = (c as u32) as int;
            assert(0 <= cv && cv < 32);
            lemma_hex_roundtrip(cv / 16);
            lemma_hex_roundtrip(cv % 16);
            assert(inp[0] == '\\' && inp[1] == 'u' && inp[2] == '0' && inp[3] == '0');
            assert(inp[4] == hex_char(cv / 16) && inp[5] == hex_char(cv % 16));
            assert(is_hex('0') && hex_val('0') == 0);
            let m = hex4_val(inp[2], inp[3], inp[4], inp[5]);
            assert(m == cv) by {
                vstd::arithmetic::div_mod::lemma_fundamental_div_mod(cv, 16);
            }
            assert(!(0xD800 <= m && m < 0xE000));
            assert((m as u32) == (c as u32));
            vstd::utf8::char_u32_cast(c, c as u32);
            assert(((m as u32) as char) == c);
            assert(inp.skip(6) =~= tail);
            assert(seq![((m as u32) as char)] + s2 =~= s);
        } else {
            assert(inp[0] == c);
            assert(inp.drop_first() =~= tail);
            assert(seq![inp[0]] + s2 =~= s);
        }
    }
}

// ---------------------------------------------------------------------------
// Decimal numbers
//
// The only number in the signaling schema is the SDP media-line index, an
// unsigned 16-bit value written in plain decimal.
// ---------------------------------------------------------------------------

/// Whether a character is a decimal digit.
pub open spec fn is_digit(c: char) -> bool {
    '0' <= c && c <= '9'
}

/// The value of a decimal digit.
pub open spec fn digit_val(c: char) -> int {
    (c as int) - ('0' as int)
}

/// Every character of the sequence is a decimal digit.
pub open spec fn all_digits(s: Seq<char>) -> bool {
    forall|i: int| 0 <= i < s.len() ==> is_digit(#[trigger] s[i])
}

/// The value of a digit string, most significant digit first.
pub open spec fn num_val(s: Seq<char>) -> int
    decreases s.len(),
{
    if s.len() == 0 {
        0
    } else {
        num_val(s.drop_last()) * 10 + digit_val(s.last())
    }
}

/// The canonical decimal rendering of a non-negative number.
pub open spec fn dec_of(n: int) -> Seq<char>
    decreases n,
{
    if n < 10 {
        seq![hex_char(n)]
    } else {
        dec_of(n / 10) + seq![hex_char(n % 10)]
    }
}

/// The canonical rendering consists of digits and reads back as the
/// number it was made from.
pub proof fn lemma_dec_of_val(n: int)
    requires
        0 <= n,
    ensures
        all_digits(dec_of(n)),
        num_val(dec_of(n)) == n,
        dec_of(n).len() >= 1,
    decreases n,
{
    if n < 10 {
        assert(is_digit(hex_char(n)));
        assert(digit_val(hex_char(n)) == n);
        assert(dec_of(n).drop_last() =~= Seq::<char>::empty());
        assert(dec_of(n).last() == hex_char(n));
        assert(num_val(dec_of(n)) == num_val(Seq::<char>::empty()) * 10 + digit_val(hex_char(n)));
    } else {
        lemma_dec_of_val(n / 10);
        let d = dec_of(n / 10);
        let last = hex_char(n % 10);
        assert((d + seq![last]).drop_last() =~= d);
        assert((d + seq![last]).last() == last);
        assert(digit_val(last) == n % 10);
        assert(num_val(dec_of(n)) == (n / 10) * 10 + n % 10);
        assert((n / 10) * 10 + n % 10 == n) by {
            vstd::arithmetic::div_mod::lemma_fundamental_div_mod(n, 10);
        }
        assert forall|i: int| 0 <= i < dec_of(n).len() implies is_digit(#[trigger] dec_of(n)[i]) by {
            if i < d.len() {
                assert(dec_of(n)[i] == d[i]);
            } else {
                assert(dec_of(n)[i] == last);
            }
        }
    }
}

/// A digit string has a non-negative value.
pub proof fn lemma_num_val_nonneg(s: Seq<char>)
    requires
        all_digits(s),
    ensures
        num_val(s) >= 0,
    decreases s.len(),
{
    if s.len() > 0 {
        assert(all_digits(s.drop_last())) by {
            assert(forall|i: int|
                0 <= i < s.drop_last().len() ==> s.drop_last()[i] == #[trigger] s[i]);
        }
        lemma_num_val_nonneg(s.drop_last());
        assert(is_digit(s.last()));
    }
}

/// Appending further digits never shrinks the value of a digit string.
pub proof fn lemma_num_val_append_ge(a: Seq<char>, t: Seq<char>)
    requires
        all_digits(a),
        all_digits(t),
    ensures
        num_val(a + t) >= num_val(a),
    decreases t.len(),
{
    if t.len() == 0 {
        assert(a + t =~= a);
    } else {
        let t2 = t.drop_last();
        assert(all_digits(t2)) by {
            assert(forall|i: int| 0 <= i < t2.len() ==> t2[i] == #[trigger] t[i]);
        }
        lemma_num_val_append_ge(a, t2);
        assert((a + t).drop_last() =~= a + t2);
        assert((a + t).last() == t.last());
        assert(all_digits(a + t2)) by {
            assert(forall|i: int|
                0 <= i < (a + t2).len() ==> is_digit(#[trigger] (a + t2)[i]));
        }
        lemma_num_val_nonneg(a + t2);
        assert(is_digit(t.last()));
        assert(num_val(a + t) == num_val(a + t2) * 10 + digit_val(t.last()));
        assert(num_val(a + t2) * 10 >= num_val(a + t2)) by {
            lemma_num_val_nonneg(a + t2);
        }
    }
}

/// Split the input at the end of its leading run of digits.
pub open spec fn split_digits(inp: Seq<char>) -> (Seq<char>, Seq<char>)
    decreases inp.len(),
{
    if inp.len() == 0 || !is_digit(inp[0]) {
        (Seq::empty(), inp)
    } else {
        let (d, r) = split_digits(inp.drop_first());
        (seq![inp[0]] + d, r)
    }
}

/// Splitting recovers a digit string that is followed by a non-digit.
pub proof fn lemma_split_digits_of(d: Seq<char>, rest: Seq<char>)
    requires
        all_digits(d),
        rest.len() == 0 || !is_digit(rest[0]),
    ensures
        split_digits(d + rest) == (d, rest),
    decreases d.len(),
{
    if d.len() == 0 {
        assert(d + rest =~= rest);
    } else {
        let d2 = d.drop_first();
        assert(all_digits(d2)) by {
            assert(forall|i: int| 0 <= i < d2.len() ==> d2[i] == #[trigger] d[i + 1]);
        }
        lemma_split_digits_of(d2, rest);
        assert((d + rest)[0] == d[0]);
        assert(is_digit(d[0]));
        assert((d + rest).drop_first() =~= d2 + rest);
        assert(seq![d[0]] + d2 =~= d);
    }
}

/// The parser for the media-line index: a non-empty run of digits whose
/// value fits in 16 bits, yielding the value and the input after the run.
pub open spec fn p_num(inp: Seq<char>) -> Option<(u16, Seq<char>)> {
    let (d, r) = split_digits(inp);
    if d.len() == 0 || num_val(d) > 65535 {
        None
    } else {
        Some((num_val(d) as u16, r))
    }
}

// ---------------------------------------------------------------------------
// Executable helpers
// ---------------------------------------------------------------------------

/// Whether one sequence begins with another.
pub open spec fn starts_with(s: Seq<char>, p: Seq<char>) -> bool {
    p.len() <= s.len() && s.take(p.len() as int) == p
}

/// The characters of a string slice, as a vector.
pub fn str_to_chars(s: &str) -> (v: Vec<char>)
    ensures
        v@ == s@,
{
    let n = s.unicode_len();
    let mut v: Vec<char> = Vec::new();
    let mut i: usize = 0;
    while i < n
        invariant
            i <= n,
            n == s@.len(),
            v@ == s@.take(i as int),
        decreases n - i,
    {
        let c = s.get_char(i);
        v.push(c);
        proof {
            assert(s@.take(i as int).push(s@[i as int]) =~= s@.take(i as int + 1));
        }
        i += 1;
    }
    proof {
        assert(v@ =~= s@);
    }
    v
}

/// Whether two character vectors hold the same text.
pub fn chars_eq(a: &Vec<char>, b: &Vec<char>) -> (r: bool)
    ensures
        r == (a@ == b@),
{
    if a.len() != b.len() {
        proof {
            assert(a@ != b@);
        }
        return false;
    }
    let mut i: usize = 0;
    while i < a.len()
        invariant
            i <= a.len(),
            a@.len() == b@.len(),
            forall|k: int| 0 <= k < i ==> a@[k] == b@[k],
        decreases a.len() - i,
    {
        if a[i] != b[i] {
            proof {
                assert(a@ != b@);
            }
            return false;
        }
        i += 1;
    }
    proof {
        assert(a@ =~= b@);
    }
    true
}

/// Whether the input continues with the given segment at position `i`.
pub(crate) fn matches_at(inp: &Vec<char>, i: usize, seg: &Vec<char>) -> (r: bool)
    requires
        i <= inp.len(),
    ensures
        r == starts_with(inp@.skip(i as int), seg@),
{
    if inp.len() - i < seg.len() {
        proof {
            assert(inp@.skip(i as int).len() < seg@.len());
        }
        return false;
    }
    let mut k: usize = 0;
    while k < seg.len()
        invariant
            k <= seg.len(),
            i <= inp.len(),
            seg.len() <= inp.len() - i,
            forall|t: int| 0 <= t < k ==> inp@[i + t] == seg@[t],
        decreases seg.len() - k,
    {
        if inp[i + k] != seg[k] {
            proof {
                assert(inp@.skip(i as int)[k as int] == inp@[i + k]);
                assert(inp@.skip(i as int).take(seg@.len() as int) != seg@);
            }
            return false;
        }
        k += 1;
    }
    proof {
        assert forall|t: int| 0 <= t < seg@.len() implies inp@.skip(i as int).take(
            seg@.len() as int,
        )[t] == seg@[t] by {
            assert(inp@.skip(i as int)[t] == inp@[i + t]);
        }
        assert(inp@.skip(i as int).take(seg@.len() as int) =~= seg@);
    }
    true
}

/// The lowercase hex digit for a value below 16, as executable code.
pub(crate) fn hex_char_exec(d: u8) -> (c: char)
    requires
        d < 16,
    ensures
        c == hex_char(d as int),
{
    if d == 0 {
        '0'
    } else if d == 1 {
        '1'
    } else if d == 2 {
        '2'
    } else if d == 3 {
        '3'
    } else if d == 4 {
        '4'
    } else if d == 5 {
        '5'
    } else if d == 6 {
        '6'
    } else if d == 7 {
        '7'
    } else if d == 8 {
        '8'
    } else if d == 9 {
        '9'
    } else if d == 10 {
        'a'
    } else if d == 11 {
        'b'
    } else if d == 12 {
        'c'
    } else if d == 13 {
        'd'
    } else if d == 14 {
        'e'
    } else {
        'f'
    }
}

/// Relies on core's `char::from_u32`: it returns the character with
/// the given code point, and `None` exactly on a surrogate or a value
/// beyond the largest code point.
pub assume_specification[ char::from_u32 ](i: u32) -> (r: Option<char>)
    ensures
        r is Some <==> (i < 0xD800 || (0xE000 <= i && i <= 0x10FFFF)),
        r matches Some(c) ==> c as u32 == i,
;

/// Whether a character is a hex digit, as executable code.
pub(crate) fn is_hex_exec(c: char) -> (r: bool)
    ensures
        r == is_hex(c),
{
    ('0' <= c && c <= '9') || ('a' <= c && c <= 'f') || ('A' <= c && c <= 'F')
}

/// The value of a hex digit, as executable code.
pub(crate) fn hex_val_exec(c: char) -> (d: u8)
    requires
        is_hex(c),
    ensures
        d as int == hex_val(c),
        d < 16,
{
    if '0' <= c && c <= '9' {
        ((c as u32) - ('0' as u32)) as u8
    } else if 'a' <= c && c <= 'f' {
        (((c as u32) - ('a' as u32)) + 10) as u8
    } else {
        (((c as u32) - ('A' as u32)) + 10) as u8
    }
}

/// The character a single-letter escape stands for, as executable code.
pub(crate) fn short_escape_exec(e: char) -> (r: Option<char>)
    ensures
        r == short_escape(e),
{
    if e == '"' {
        Some('"')
    } else if e == '\\' {
        Some('\\')
    } else if e == '/' {
        Some('/')
    } else if e == 'b' {
        Some('\u{8}')
    } else if e == 'f' {
        Some('\u{c}')
    } else if e == 'n' {
        Some('\n')
    } else if e == 'r' {
        Some('\r')
    } else if e == 't' {
        Some('\t')
    } else {
        None
    }
}

/// Append the escaped form of `s` to `out`.
pub(crate) fn push_escaped(out: &mut Vec<char>, s: &Vec<char>)
    ensures
        final(out)@ == old(out)@ + esc(s@),
{
    let ghost out0 = old(out)@;
    let mut i: usize = 0;
    while i < s.len()
        invariant
            i <= s.len(),
            out@ == out0 + esc(s@.take(i as int)),
        decreases s.len() - i,
    {
        let c = s[i];
        proof {
            assert(s@.take(i as int) + seq![s@[i as int]] =~= s@.take(i as int + 1));
            lemma_esc_append(s@.take(i as int), seq![s@[i as int]]);
            assert(seq![c].drop_first() =~= Seq::<char>::empty());
            assert(esc(seq![c]) == esc_char(c) + esc(Seq::<char>::empty()));
            assert(esc(seq![c]) =~= esc_char(c));
        }
        if c == '"' {
            out.push('\\');
            out.push('"');
        } else if c == '\\' {
            out.push('\\');
            out.push('\\');
        } else if (c as u32) < 32 {
            let cu = c as u32;
            out.push('\\');
            out.push('u');
            out.push('0');
            out.push('0');
            out.push(hex_char_exec((cu / 16) as u8));
            out.push(hex_char_exec((cu % 16) as u8));
        } else {
            out.push(c);
        }
        proof {
            assert(out@ =~= out0 + esc(s@.take(i as int + 1)));
        }
        i += 1;
    }
    proof {
        assert(s@.take(s@.len() as int) =~= s@);
    }
}

/// Append the decimal rendering of `n` to `out`.
pub(crate) fn push_number(out: &mut Vec<char>, n: u16)
    ensures
        final(out)@ == old(out)@ + dec_of(n as int),
    decreases n,
{
    if n < 10 {
        out.push(hex_char_exec(n as u8));
        proof {
            assert(out@ =~= old(out)@ + dec_of(n as int));
        }
    } else {
        push_number(out, n / 10);
        out.push(hex_char_exec((n % 10) as u8));
        proof {
            assert((n / 10) as int == (n as int) / 10);
            assert((n % 10) as int == (n as int) % 10);
            assert(out@ =~= old(out)@ + dec_of(n as int));
        }
    }
}

/// Parse a JSON string body starting at `i`, which must sit just after
/// the opening quote; on success return the unescaped text and the
/// position after the closing quote.
#[verifier::rlimit(100)]
#[verifier::spinoff_prover]
pub(crate) fn parse_string_at(inp: &Vec<char>, i: usize) -> (r: Option<(Vec<char>, usize)>)
    requires
        i <= inp.len(),
    ensures
        match r {
            Some(sj) => {
                &&& i <= sj.1 <= inp.len()
                &&& p_string(inp@.skip(i as int)) == Some((sj.0@, inp@.skip(sj.1 as int)))
            },
            None => p_string(inp@.skip(i as int)) is None,
        },
{
    let mut acc: Vec<char> = Vec::new();
    let mut cur: usize = i;
    loop
        invariant
            i <= cur <= inp.len(),
            match p_string(inp@.skip(cur as int)) {
                Some(sr) => p_string(inp@.skip(i as int)) == Some((acc@ + sr.0, sr.1)),
                None => p_string(inp@.skip(i as int)) is None,
            },
        decreases inp.len() - cur,
    {
        let ghost here = inp@.skip(cur as int);
        if cur == inp.len() {
            return None;
        }
        let c = inp[cur];
        proof {
            assert(here[0] == inp@[cur as int]);
            assert(here.drop_first() =~= inp@.skip(cur as int + 1));
        }
        if c == '"' {
            proof {
                assert(p_string(here) == Some((Seq::<char>::empty(), here.drop_first())));
                assert(acc@ + Seq::<char>::empty() =~= acc@);
            }
            return Some((acc, cur + 1));
        } else if c == '\\' {
            if inp.len() - cur < 2 {
                proof {
                    assert(here.len() < 2);
                }
                return None;
            }
            let e = inp[cur + 1];
            proof {
                assert(here[1] == inp@[cur as int + 1]);
            }
            if e == 'u' {
                if inp.len() - cur < 6 {
                    proof {
                        assert(here.len() < 6);
                    }
                    return None;
                }
                proof {
                    assert(here[2] == inp@[cur as int + 2]);
                    assert(here[3] == inp@[cur as int + 3]);
                    assert(here[4] == inp@[cur as int + 4]);
                    assert(here[5] == inp@[cur as int + 5]);
                }
                let a = inp[cur + 2];
                let b = inp[cur + 3];
                let d1 = inp[cur + 4];
                let d2 = inp[cur + 5];
                if !(is_hex_exec(a) && is_hex_exec(b) && is_hex_exec(d1) && is_hex_exec(d2)) {
                    return None;
                }
                let u: u32 = (hex_val_exec(a) as u32) * 4096 + (hex_val_exec(b) as u32) * 256
                    + (hex_val_exec(d1) as u32) * 16 + (hex_val_exec(d2) as u32);
                proof {
                    assert(u as int == hex4_val(here[2], here[3], here[4], here[5]));
                }
                if 0xD800 <= u && u < 0xDC00 {
                    // A high surrogate must pair with a low one.
                    if inp.len() - cur < 12 {
                        proof {
                            assert(here.len() < 12);
                        }
                        return None;
                    }
                    proof {
                        assert(here[6] == inp@[cur as int + 6]);
                        assert(here[7] == inp@[cur as int + 7]);
                        assert(here[8] == inp@[cur as int + 8]);
                        assert(here[9] == inp@[cur as int + 9]);
                        assert(here[10] == inp@[cur as int + 10]);
                        assert(here[11] == inp@[cur as int + 11]);
                    }
                    if inp[cur + 6] != '\\' || inp[cur + 7] != 'u' {
                        return None;
                    }
                    let a2 = inp[cur + 8];
                    let b2 = inp[cur + 9];
                    let c2 = inp[cur + 10];
                    let e2 = inp[cur + 11];
                    if !(is_hex_exec(a2) && is_hex_exec(b2) && is_hex_exec(c2) && is_hex_exec(e2))
                    {
                        return None;
                    }
                    let u2: u32 = (hex_val_exec(a2) as u32) * 4096 + (hex_val_exec(b2) as u32)
                        * 256 + (hex_val_exec(c2) as u32) * 16 + (hex_val_exec(e2) as u32);
                    proof {
                        assert(u2 as int == hex4_val(here[8], here[9], here[10], here[11]));
                    }
                    if !(0xDC00 <= u2 && u2 < 0xE000) {
                        return None;
                    }
                    let cp: u32 = 0x10000 + (u - 0xD800) * 0x400 + (u2 - 0xDC00);
                    let decoded: char = match char::from_u32(cp) {
                        Some(d) => d,
                        None => {
                            proof {
                                assert(0x10000 <= cp && cp <= 0x10FFFF);
                                assert(false);
                            }
                            return None;
                        },
                    };
                    proof {
                        let cps = 0x10000 + (hex4_val(here[2], here[3], here[4], here[5]) - 0xD800)
                            * 0x400 + (hex4_val(here[8], here[9], here[10], here[11]) - 0xDC00);
                        assert(cp as int == cps);
                        vstd::utf8::char_u32_cast(decoded, decoded as u32);
                        assert(decoded == ((cps as u32) as char));
                        assert(here.skip(12) =~= inp@.skip(cur as int + 12));
                        match p_string(inp@.skip(cur as int + 12)) {
                            Some(sr) => {
                                assert(p_string(here) == Some((seq![decoded] + sr.0, sr.1)));
                                assert((acc@ + (seq![decoded] + sr.0)) =~= (acc@.push(decoded)
                                    + sr.0));
                            },
                            None => {},
                        }
                    }
                    acc.push(decoded);
                    cur = cur + 12;
                } else if 0xDC00 <= u && u < 0xE000 {
                    return None;
                } else {
                    let decoded: char = match char::from_u32(u) {
                        Some(d) => d,
                        None => {
                            proof {
                                assert(u < 0xD800 || (0xE000 <= u && u <= 0xFFFF));
                                assert(false);
                            }
                            return None;
                        },
                    };
                    proof {
                        let us = hex4_val(here[2], here[3], here[4], here[5]);
                        vstd::utf8::char_u32_cast(decoded, decoded as u32);
                        assert(decoded == ((us as u32) as char));
                        assert(here.skip(6) =~= inp@.skip(cur as int + 6));
                        match p_string(inp@.skip(cur as int + 6)) {
                            Some(sr) => {
                                assert(p_string(here) == Some((seq![decoded] + sr.0, sr.1)));
                                assert((acc@ + (seq![decoded] + sr.0)) =~= (acc@.push(decoded)
                                    + sr.0));
                            },
                            None => {},
                        }
                    }
                    acc.push(decoded);
                    cur = cur + 6;
                }
            } else {
                let decoded: char = match short_escape_exec(e) {
                    Some(d) => d,
                    None => {
                        return None;
                    },
                };
                proof {
                    assert(here.skip(2) =~= inp@.skip(cur as int + 2));
                    match p_string(inp@.skip(cur as int + 2)) {
                        Some(sr) => {
                            assert(p_string(here) == Some((seq![decoded] + sr.0, sr.1)));
                            assert((acc@ + (seq![decoded] + sr.0)) =~= (acc@.push(decoded)
                                + sr.0));
                        },
                        None => {},
                    }
                }
                acc.push(decoded);
                cur = cur + 2;
            }
        } else if (c as u32) < 32 {
            return None;
        } else {
            proof {
                match p_string(inp@.skip(cur as int + 1)) {
                    Some(sr) => {
                        assert(p_string(here) == Some((seq![c] + sr.0, sr.1)));
                        assert((acc@ + (seq![c] + sr.0)) =~= (acc@.push(c) + sr.0));
                    },
                    None => {},
                }
            }
            acc.push(c);
            cur = cur + 1;
        }
    }
}

/// Parse the media-line index starting at `i`: a run of digits whose
/// value fits in 16 bits.
pub(crate) fn parse_number_at(inp: &Vec<char>, i: usize) -> (r: Option<(u16, usize)>)
    requires
        i <= inp.len(),
    ensures
        match r {
            Some(nj) => {
                &&& i <= nj.1 <= inp.len()
                &&& p_num(inp@.skip(i as int)) == Some((nj.0, inp@.skip(nj.1 as int)))
            },
            None => p_num(inp@.skip(i as int)) is None,
        },
{
    let ghost inp0 = inp@.skip(i as int);
    let mut j: usize = i;
    let mut acc: u32 = 0;
    loop
        invariant
            i <= j <= inp.len(),
            inp0 == inp@.skip(i as int),
            all_digits(inp@.subrange(i as int, j as int)),
            acc as int == num_val(inp@.subrange(i as int, j as int)),
            acc <= 65535,
            split_digits(inp0).0 == inp@.subrange(i as int, j as int) + split_digits(
                inp@.skip(j as int),
            ).0,
            split_digits(inp0).1 == split_digits(inp@.skip(j as int)).1,
        decreases inp.len() - j,
    {
        let ghost seen = inp@.subrange(i as int, j as int);
        let ghost here = inp@.skip(j as int);
        if j == inp.len() || !('0' <= inp[j] && inp[j] <= '9') {
            proof {
                if j < inp.len() {
                    assert(here[0] == inp@[j as int]);
                }
                assert(split_digits(here) == (Seq::<char>::empty(), here));
                assert(seen + Seq::<char>::empty() =~= seen);
                assert(split_digits(inp0).0 == seen);
                assert(split_digits(inp0).1 == here);
            }
            if j == i {
                proof {
                    assert(seen.len() == 0);
                }
                return None;
            }
            proof {
                assert(seen.len() > 0);
            }
            return Some((acc as u16, j));
        }
        let c = inp[j];
        proof {
            assert(here[0] == inp@[j as int]);
            assert(is_digit(c));
            assert(here.drop_first() =~= inp@.skip(j as int + 1));
            assert(split_digits(here).0 == seq![c] + split_digits(inp@.skip(j as int + 1)).0);
            assert(split_digits(here).1 == split_digits(inp@.skip(j as int + 1)).1);
        }
        let d: u32 = (c as u32) - ('0' as u32);
        proof {
            assert(d as int == digit_val(c));
        }
        let next: u32 = acc * 10 + d;
        if next > 65535 {
            proof {
                let seen2 = seen.push(c);
                assert(seen2.drop_last() =~= seen);
                assert(seen2.last() == c);
                assert(num_val(seen2) == acc * 10 + d);
                assert(all_digits(seen2)) by {
                    assert(forall|t: int|
                        0 <= t < seen.len() ==> seen2[t] == #[trigger] seen[t]);
                }
                let more = split_digits(inp@.skip(j as int + 1)).0;
                lemma_split_digits_all(inp@.skip(j as int + 1));
                assert(split_digits(inp0).0 =~= seen2 + more);
                lemma_num_val_append_ge(seen2, more);
                assert(num_val(split_digits(inp0).0) > 65535);
            }
            return None;
        }
        proof {
            let seen2 = seen.push(c);
            assert(seen2.drop_last() =~= seen);
            assert(seen2.last() == c);
            assert(num_val(seen2) == acc * 10 + d);
            assert(all_digits(seen2)) by {
                assert(forall|t: int| 0 <= t < seen.len() ==> seen2[t] == #[trigger] seen[t]);
            }
            assert(inp@.subrange(i as int, j as int + 1) =~= seen2);
            assert(seen2 + split_digits(inp@.skip(j as int + 1)).0 =~= split_digits(inp0).0);
        }
        acc = next;
        j = j + 1;
    }
}

/// The digit run that `split_digits` yields consists of digits.
proof fn lemma_split_digits_all(inp: Seq<char>)
    ensures
        all_digits(split_digits(inp).0),
    decreases inp.len(),
{
    if inp.len() == 0 || !is_digit(inp[0]) {
    } else {
        lemma_split_digits_all(inp.drop_first());
        let d2 = split_digits(inp.drop_first()).0;
        assert(split_digits(inp).0 == seq![inp[0]] + d2);
        assert forall|t: int| 0 <= t < split_digits(inp).0.len() implies is_digit(
            #[trigger] split_digits(inp).0[t],
        ) by {
            if t == 0 {
                assert(split_digits(inp).0[0] == inp[0]);
            } else {
                assert(split_digits(inp).0[t] == d2[t - 1]);
            }
        }
    }
}

} // verus!
