//! The lexical layer of the configuration document codec.
//!
//! A configuration is stored as a JSON document.  This module holds the
//! character-level building blocks: rendering and parsing of JSON
//! strings (with escaping), of decimal numbers, and of fixed literal
//! tokens — each parser stated as a total spec function over character
//! sequences that returns the parsed value and the unconsumed remainder
//! — and the whitespace stripper that drops insignificant whitespace
//! between tokens while leaving quoted strings intact.  The central
//! facts proved here: parsing a rendered piece consumes exactly that
//! piece and yields the original value back, and rendered pieces pass
//! through the stripper unchanged.

use vstd::prelude::*;

verus! {

/// Whether `c` is one of the digits `0` to `9`.
pub open spec fn is_decimal_digit(c: char) -> bool {
    48 <= c as u32 <= 57
}

/// The numeric value of a decimal digit.
pub open spec fn decimal_digit_value(c: char) -> nat {
    (c as u32 - 48) as nat
}

/// The digit character for a value below ten.
pub open spec fn decimal_digit_char(d: nat) -> char {
    ((48 + d) as u32) as char
}

/// Whether `c` is a hexadecimal digit, either case.
pub open spec fn is_hex_digit(c: char) -> bool {
    is_decimal_digit(c) || 97 <= c as u32 <= 102 || 65 <= c as u32 <= 70
}

/// The numeric value of a hexadecimal digit.
pub open spec fn hex_digit_value(c: char) -> nat {
    if is_decimal_digit(c) {
        decimal_digit_value(c)
    } else if 97 <= c as u32 <= 102 {
        (c as u32 - 87) as nat
    } else {
        (c as u32 - 55) as nat
    }
}

/// The lower-case hexadecimal digit character for a value below sixteen.
pub open spec fn hex_digit_char(d: nat) -> char {
    if d < 10 {
        ((48 + d) as u32) as char
    } else {
        ((87 + d) as u32) as char
    }
}

/// A decimal digit character round-trips through its value.
pub proof fn lemma_decimal_digit_char(d: nat)
    requires
        d < 10,
    ensures
        is_decimal_digit(decimal_digit_char(d)),
        decimal_digit_value(decimal_digit_char(d)) == d,
{
}

/// A hexadecimal digit character round-trips through its value.
pub proof fn lemma_hex_digit_char(d: nat)
    requires
        d < 16,
    ensures
        is_hex_digit(hex_digit_char(d)),
        hex_digit_value(hex_digit_char(d)) == d,
{
}

// ---------------------------------------------------------------------
// fixed literal tokens
// ---------------------------------------------------------------------

/// Consume the exact literal `lit` from the front of `s`.
pub open spec fn spec_parse_exact(s: Seq<char>, lit: Seq<char>) -> Option<Seq<char>> {
    if lit.len() <= s.len() && s.take(lit.len() as int) == lit {
        Some(s.skip(lit.len() as int))
    } else {
        None
    }
}

/// Parsing a literal off its own rendering consumes exactly the literal.
pub proof fn lemma_parse_exact_render(lit: Seq<char>, rest: Seq<char>)
    ensures
        spec_parse_exact(lit + rest, lit) == Some(rest),
{
    assert((lit + rest).take(lit.len() as int) =~= lit);
    assert((lit + rest).skip(lit.len() as int) =~= rest);
}

/// A consumed literal shortens the input by its own length.
pub proof fn lemma_parse_exact_len(s: Seq<char>, lit: Seq<char>)
    ensures
        spec_parse_exact(s, lit) matches Some(r) ==> r.len() + lit.len() == s.len(),
{
}

// ---------------------------------------------------------------------
// decimal numbers
// ---------------------------------------------------------------------

/// Consume the longest digit prefix, folding it onto `acc`.
pub open spec fn take_digits(s: Seq<char>, acc: nat) -> (nat, Seq<char>)
    decreases s.len(),
{
    if s.len() > 0 && is_decimal_digit(s[0]) {
        take_digits(s.skip(1), acc * 10 + decimal_digit_value(s[0]))
    } else {
        (acc, s)
    }
}

/// Parse a decimal number: at least one digit, maximal, any size.
pub open spec fn spec_parse_number(s: Seq<char>) -> Option<(nat, Seq<char>)> {
    if s.len() > 0 && is_decimal_digit(s[0]) {
        Some(take_digits(s, 0))
    } else {
        None
    }
}

/// Render `n` in decimal, most significant digit first.
pub open spec fn render_number(n: nat) -> Seq<char>
    decreases n,
{
    if n < 10 {
        seq![decimal_digit_char(n)]
    } else {
        render_number(n / 10) + seq![decimal_digit_char(n % 10)]
    }
}

/// How many digits `n` renders to.
pub open spec fn number_width(n: nat) -> nat
    decreases n,
{
    if n < 10 {
        1
    } else {
        1 + number_width(n / 10)
    }
}

/// Ten to the `k`.
pub open spec fn pow10(k: nat) -> nat
    decreases k,
{
    if k == 0 {
        1nat
    } else {
        10 * pow10((k - 1) as nat)
    }
}

/// A rendered number is non-empty and starts with a digit.
pub proof fn lemma_render_number_first(n: nat)
    ensures
        render_number(n).len() >= 1,
        is_decimal_digit(render_number(n)[0]),
    decreases n,
{
    if n < 10 {
        lemma_decimal_digit_char(n);
    } else {
        lemma_render_number_first(n / 10);
    }
}

/// Scanning digits across a rendered number folds the number onto the
/// accumulator, scaled by the number's width.
pub proof fn lemma_take_digits_render(n: nat, acc: nat, rest: Seq<char>)
    ensures
        take_digits(render_number(n) + rest, acc) == take_digits(
            rest,
            acc * pow10(number_width(n)) + n,
        ),
    decreases n,
{
    if n < 10 {
        lemma_decimal_digit_char(n);
        assert((render_number(n) + rest).skip(1) =~= rest);
        reveal_with_fuel(pow10, 2);
        assert(pow10(1) == 10);
    } else {
        let d = n % 10;
        let q = n / 10;
        lemma_decimal_digit_char(d);
        assert(render_number(n) + rest =~= render_number(q) + (seq![decimal_digit_char(d)]
            + rest));
        lemma_take_digits_render(q, acc, seq![decimal_digit_char(d)] + rest);
        let acc2 = acc * pow10(number_width(q)) + q;
        assert((seq![decimal_digit_char(d)] + rest).skip(1) =~= rest);
        assert(take_digits(seq![decimal_digit_char(d)] + rest, acc2) == take_digits(
            rest,
            acc2 * 10 + d,
        ));
        assert(acc2 * 10 + d == acc * pow10(number_width(n)) + n) by (nonlinear_arith)
            requires
                acc2 == acc * pow10(number_width(q)) + q,
                pow10(number_width(n)) == 10 * pow10(number_width(q)),
                q == n / 10,
                d == n % 10,
                n >= 10,
        ;
    }
}

/// Parsing a number off its own rendering yields the number back, as long
/// as what follows does not begin with a digit.
pub proof fn lemma_parse_number_render(n: nat, rest: Seq<char>)
    requires
        rest.len() == 0 || !is_decimal_digit(rest[0]),
    ensures
        spec_parse_number(render_number(n) + rest) == Some((n, rest)),
{
    lemma_render_number_first(n);
    assert((render_number(n) + rest)[0] == render_number(n)[0]);
    lemma_take_digits_render(n, 0, rest);
    assert(0 * pow10(number_width(n)) == 0) by (nonlinear_arith);
}

/// Scanning digits never lengthens the input.
pub proof fn lemma_take_digits_len(s: Seq<char>, acc: nat)
    ensures
        take_digits(s, acc).1.len() <= s.len(),
    decreases s.len(),
{
    if s.len() > 0 && is_decimal_digit(s[0]) {
        lemma_take_digits_len(s.skip(1), acc * 10 + decimal_digit_value(s[0]));
    }
}

/// The remainder of a digit scan does not depend on the accumulator.
pub proof fn lemma_take_digits_rem(s: Seq<char>, a: nat, b: nat)
    ensures
        take_digits(s, a).1 == take_digits(s, b).1,
    decreases s.len(),
{
    if s.len() > 0 && is_decimal_digit(s[0]) {
        lemma_take_digits_rem(
            s.skip(1),
            a * 10 + decimal_digit_value(s[0]),
            b * 10 + decimal_digit_value(s[0]),
        );
    }
}

/// A parsed number consumes at least one character.
pub proof fn lemma_parse_number_len(s: Seq<char>)
    ensures
        spec_parse_number(s) matches Some(p) ==> p.1.len() < s.len(),
{
    if s.len() > 0 && is_decimal_digit(s[0]) {
        lemma_take_digits_len(s.skip(1), decimal_digit_value(s[0]));
    }
}

/// The folded value only grows as digits are taken.
pub proof fn lemma_take_digits_ge(s: Seq<char>, acc: nat)
    ensures
        take_digits(s, acc).0 >= acc,
    decreases s.len(),
{
    if s.len() > 0 && is_decimal_digit(s[0]) {
        lemma_take_digits_ge(s.skip(1), acc * 10 + decimal_digit_value(s[0]));
        assert(acc * 10 >= acc) by (nonlinear_arith);
    }
}

// ---------------------------------------------------------------------
// strings
// ---------------------------------------------------------------------

/// Whether `c` must be written escaped inside a JSON string.
pub open spec fn needs_escape(c: char) -> bool {
    c == '"' || c == '\\' || (c as u32) < 32
}

/// The rendering of one character inside a JSON string.
pub open spec fn escape_char(c: char) -> Seq<char> {
    if c == '"' {
        seq!['\\', '"']
    } else if c == '\\' {
        seq!['\\', '\\']
    } else if (c as u32) < 32 {
        seq!['\\', 'u', '0', '0', hex_digit_char((c as u32 / 16) as nat), hex_digit_char(
            (c as u32 % 16) as nat,
        )]
    } else {
        seq![c]
    }
}

/// The rendering of a text's characters, escaped, without the quotes.
pub open spec fn escape_text(s: Seq<char>) -> Seq<char>
    decreases s.len(),
{
    if s.len() == 0 {
        Seq::empty()
    } else {
        escape_char(s[0]) + escape_text(s.skip(1))
    }
}

/// The rendering of a text as a JSON string, quotes included.
pub open spec fn render_text(s: Seq<char>) -> Seq<char> {
    seq!['"'] + escape_text(s) + seq!['"']
}

/// Whether `code` is a unicode scalar value below the surrogate range.
pub open spec fn is_low_scalar(code: nat) -> bool {
    code < 0xD800
}

/// Whether `code` is a scalar value of the basic plane above the
/// surrogate range.
pub open spec fn is_high_bmp_scalar(code: nat) -> bool {
    0xE000 <= code && code <= 0xFFFF
}

/// Whether `code` is a high (leading) surrogate.
pub open spec fn is_high_surrogate(code: nat) -> bool {
    0xD800 <= code && code < 0xDC00
}

/// Whether `code` is a low (trailing) surrogate.
pub open spec fn is_low_surrogate(code: nat) -> bool {
    0xDC00 <= code && code < 0xE000
}

/// The code of the four hexadecimal digits at `s[from..from+4]`.
pub open spec fn hex_quad_value(s: Seq<char>, from: int) -> nat {
    hex_digit_value(s[from]) * 4096 + hex_digit_value(s[from + 1]) * 256 + hex_digit_value(
        s[from + 2],
    ) * 16 + hex_digit_value(s[from + 3])
}

/// Whether `s[from..from+4]` are four hexadecimal digits.
pub open spec fn is_hex_quad(s: Seq<char>, from: int) -> bool {
    is_hex_digit(s[from]) && is_hex_digit(s[from + 1]) && is_hex_digit(s[from + 2])
        && is_hex_digit(s[from + 3])
}

/// The scalar value written by a surrogate pair.
pub open spec fn surrogate_scalar(high: nat, low: nat) -> nat {
    (0x10000 + (high - 0xD800) * 0x400 + (low - 0xDC00)) as nat
}

/// Scan the inside of a JSON string up to the closing quote, unescaping,
/// collecting onto `acc`.  The full escape set of the JSON grammar is
/// read: the two-character escapes, `\u` with a basic-plane scalar, and
/// `\u` surrogate pairs for the supplementary planes.
pub open spec fn take_string_chars(s: Seq<char>, acc: Seq<char>) -> Option<
    (Seq<char>, Seq<char>),
>
    decreases s.len(),
{
    if s.len() == 0 {
        None
    } else if s[0] == '"' {
        Some((acc, s.skip(1)))
    } else if s[0] == '\\' {
        if s.len() < 2 {
            None
        } else if s[1] == '"' {
            take_string_chars(s.skip(2), acc.push('"'))
        } else if s[1] == '\\' {
            take_string_chars(s.skip(2), acc.push('\\'))
        } else if s[1] == '/' {
            take_string_chars(s.skip(2), acc.push('/'))
        } else if s[1] == 'b' {
            take_string_chars(s.skip(2), acc.push((8 as u32) as char))
        } else if s[1] == 'f' {
            take_string_chars(s.skip(2), acc.push((12 as u32) as char))
        } else if s[1] == 'n' {
            take_string_chars(s.skip(2), acc.push('\n'))
        } else if s[1] == 'r' {
            take_string_chars(s.skip(2), acc.push('\r'))
        } else if s[1] == 't' {
            take_string_chars(s.skip(2), acc.push('\t'))
        } else if s[1] == 'u' {
            if s.len() < 6 {
                None
            } else if is_hex_quad(s, 2) {
                let code = hex_quad_value(s, 2);
                if is_low_scalar(code) || is_high_bmp_scalar(code) {
                    take_string_chars(s.skip(6), acc.push((code as u32) as char))
                } else if is_high_surrogate(code) {
                    if s.len() < 12 {
                        None
                    } else if s[6] == '\\' && s[7] == 'u' && is_hex_quad(s, 8) {
                        let low = hex_quad_value(s, 8);
                        if is_low_surrogate(low) {
                            take_string_chars(
                                s.skip(12),
                                acc.push((surrogate_scalar(code, low) as u32) as char),
                            )
                        } else {
                            None
                        }
                    } else {
                        None
                    }
                } else {
                    None
                }
            } else {
                None
            }
        } else {
            None
        }
    } else {
        take_string_chars(s.skip(1), acc.push(s[0]))
    }
}

/// Parse a JSON string, quotes and escapes included.
#[verifier::opaque]
pub open spec fn spec_parse_text(s: Seq<char>) -> Option<(Seq<char>, Seq<char>)> {
    if s.len() > 0 && s[0] == '"' {
        take_string_chars(s.skip(1), Seq::empty())
    } else {
        None
    }
}

/// Scanning the inside of a rendered string consumes its escaped
/// characters and the closing quote, and collects the original text.
#[verifier::rlimit(100)]
pub proof fn lemma_take_string_render(s: Seq<char>, acc: Seq<char>, rest: Seq<char>)
    ensures
        take_string_chars(escape_text(s) + (seq!['"'] + rest), acc) == Some((acc + s, rest)),
    decreases s.len(),
{
    if s.len() == 0 {
        assert(escape_text(s) + (seq!['"'] + rest) =~= seq!['"'] + rest);
        assert((seq!['"'] + rest).skip(1) =~= rest);
        assert(acc + s =~= acc);
    } else {
        let c = s[0];
        let tail = s.skip(1);
        let input = escape_text(s) + (seq!['"'] + rest);
        assert(input =~= escape_char(c) + (escape_text(tail) + (seq!['"'] + rest)));
        let cont = escape_text(tail) + (seq!['"'] + rest);
        if c == '"' {
            assert(input[0] == '\\' && input[1] == '"');
            assert(input.skip(2) =~= cont);
            lemma_take_string_render(tail, acc.push('"'), rest);
            assert(acc.push(c) + tail =~= acc + s);
        } else if c == '\\' {
            assert(input[0] == '\\' && input[1] == '\\');
            assert(input.skip(2) =~= cont);
            lemma_take_string_render(tail, acc.push('\\'), rest);
            assert(acc.push(c) + tail =~= acc + s);
        } else if (c as u32) < 32 {
            let hi = (c as u32 / 16) as nat;
            let lo = (c as u32 % 16) as nat;
            lemma_hex_digit_char(hi);
            lemma_hex_digit_char(lo);
            assert(input[0] == '\\' && input[1] == 'u' && input[2] == '0' && input[3] == '0'
                && input[4] == hex_digit_char(hi) && input[5] == hex_digit_char(lo));
            assert(input.len() >= 6);
            assert(hex_digit_value(input[2]) == 0 && hex_digit_value(input[3]) == 0);
            let code = hex_digit_value(input[2]) * 4096 + hex_digit_value(input[3]) * 256
                + hex_digit_value(input[4]) * 16 + hex_digit_value(input[5]);
            assert(code == hi * 16 + lo);
            assert(code == c as u32) by (nonlinear_arith)
                requires
                    code == hi * 16 + lo,
                    hi == (c as u32 / 16) as nat,
                    lo == (c as u32 % 16) as nat,
            ;
            vstd::utf8::char_u32_cast(c, c as u32);
            assert((code as u32) as char == c);
            assert(input.skip(6) =~= cont);
            lemma_take_string_render(tail, acc.push(c), rest);
            assert(acc.push(c) + tail =~= acc + s);
        } else {
            assert(input[0] == c);
            assert(input[0] != '"' && input[0] != '\\');
            assert(input.skip(1) =~= cont);
            lemma_take_string_render(tail, acc.push(c), rest);
            assert(acc.push(c) + tail =~= acc + s);
        }
    }
}

/// Parsing a JSON string off its own rendering yields the text back.
pub proof fn lemma_parse_text_render(s: Seq<char>, rest: Seq<char>)
    ensures
        spec_parse_text(render_text(s) + rest) == Some((s, rest)),
{
    reveal(crate::json::spec_parse_text);
    let input = render_text(s) + rest;
    assert(input[0] == '"');
    assert(input.skip(1) =~= escape_text(s) + (seq!['"'] + rest));
    lemma_take_string_render(s, Seq::empty(), rest);
    assert(Seq::<char>::empty() + s =~= s);
}

/// Scanning the inside of a string strictly shortens the input.
pub proof fn lemma_take_string_len(s: Seq<char>, acc: Seq<char>)
    ensures
        take_string_chars(s, acc) matches Some(p) ==> p.1.len() < s.len(),
    decreases s.len(),
{
    if s.len() == 0 {
    } else if s[0] == '"' {
    } else if s[0] == '\\' {
        if s.len() >= 2 {
            if s[1] == '"' {
                lemma_take_string_len(s.skip(2), acc.push('"'));
            } else if s[1] == '\\' {
                lemma_take_string_len(s.skip(2), acc.push('\\'));
            } else if s[1] == '/' {
                lemma_take_string_len(s.skip(2), acc.push('/'));
            } else if s[1] == 'b' {
                lemma_take_string_len(s.skip(2), acc.push((8 as u32) as char));
            } else if s[1] == 'f' {
                lemma_take_string_len(s.skip(2), acc.push((12 as u32) as char));
            } else if s[1] == 'n' {
                lemma_take_string_len(s.skip(2), acc.push('\n'));
            } else if s[1] == 'r' {
                lemma_take_string_len(s.skip(2), acc.push('\r'));
            } else if s[1] == 't' {
                lemma_take_string_len(s.skip(2), acc.push('\t'));
            } else if s[1] == 'u' && s.len() >= 6 && is_hex_quad(s, 2) {
                let code = hex_quad_value(s, 2);
                if is_low_scalar(code) || is_high_bmp_scalar(code) {
                    lemma_take_string_len(s.skip(6), acc.push((code as u32) as char));
                } else if is_high_surrogate(code) && s.len() >= 12 && s[6] == '\\' && s[7] == 'u'
                    && is_hex_quad(s, 8) {
                    let low = hex_quad_value(s, 8);
                    if is_low_surrogate(low) {
                        lemma_take_string_len(
                            s.skip(12),
                            acc.push((surrogate_scalar(code, low) as u32) as char),
                        );
                    }
                }
            }
        }
    } else {
        lemma_take_string_len(s.skip(1), acc.push(s[0]));
    }
}

/// A parsed string strictly shortens the input.
pub proof fn lemma_parse_text_len(s: Seq<char>)
    ensures
        spec_parse_text(s) matches Some(p) ==> p.1.len() < s.len(),
{
    reveal(crate::json::spec_parse_text);
    if s.len() > 0 && s[0] == '"' {
        lemma_take_string_len(s.skip(1), Seq::empty());
    }
}

/// Escaping changes nothing in a text free of the characters that are
/// written escaped.
pub proof fn lemma_escape_text_id(w: Seq<char>)
    requires
        forall|i: int|
            0 <= i < w.len() ==> #[trigger] w[i] != '"' && w[i] != '\\' && (w[i] as u32) >= 32,
    ensures
        escape_text(w) == w,
    decreases w.len(),
{
    if w.len() > 0 {
        lemma_escape_text_id(w.skip(1));
        assert(escape_char(w[0]) =~= seq![w[0]]);
        assert(seq![w[0]] + w.skip(1) =~= w);
    }
}

/// Escaping one more character appends that character's escape.
pub proof fn lemma_escape_text_push(s: Seq<char>, c: char)
    ensures
        escape_text(s.push(c)) == escape_text(s) + escape_char(c),
    decreases s.len(),
{
    if s.len() == 0 {
        let p = s.push(c);
        assert(p[0] == c);
        assert(p.skip(1) =~= Seq::<char>::empty());
        assert(escape_text(p) == escape_char(c) + escape_text(Seq::<char>::empty()));
        assert(escape_char(c) + Seq::<char>::empty() =~= escape_char(c));
        assert(escape_text(s) + escape_char(c) =~= escape_char(c));
    } else {
        assert(s.push(c)[0] == s[0]);
        assert(s.push(c).skip(1) =~= s.skip(1).push(c));
        lemma_escape_text_push(s.skip(1), c);
        assert(escape_char(s[0]) + (escape_text(s.skip(1)) + escape_char(c)) =~= (escape_char(s[0])
            + escape_text(s.skip(1))) + escape_char(c));
    }
}

// ---------------------------------------------------------------------
// skipping arbitrary values
// ---------------------------------------------------------------------

/// Step over one JSON value of any shape — string, number, literal,
/// array or object — without keeping it.  `fuel` bounds the walk; every
/// opening bracket and every separator costs one unit, so an input's own
/// length is always enough.
pub open spec fn spec_skip_value(s: Seq<char>, fuel: nat) -> Option<Seq<char>>
    decreases fuel, 0nat,
{
    if fuel == 0 || s.len() == 0 {
        None
    } else if s[0] == '"' {
        match spec_parse_text(s) {
            None => None,
            Some(p) => Some(p.1),
        }
    } else if is_decimal_digit(s[0]) {
        match spec_parse_number(s) {
            None => None,
            Some(p) => Some(p.1),
        }
    } else if s[0] == 'n' {
        spec_parse_exact(s, "null"@)
    } else if s[0] == 't' {
        spec_parse_exact(s, "true"@)
    } else if s[0] == 'f' {
        spec_parse_exact(s, "false"@)
    } else if s[0] == '[' {
        if s.len() >= 2 && s[1] == ']' {
            Some(s.skip(2))
        } else {
            spec_skip_items(s.skip(1), (fuel - 1) as nat)
        }
    } else if s[0] == '{' {
        if s.len() >= 2 && s[1] == '}' {
            Some(s.skip(2))
        } else {
            spec_skip_members(s.skip(1), (fuel - 1) as nat)
        }
    } else {
        None
    }
}

/// Step over the elements of a non-empty array, up to the closing
/// bracket.
pub open spec fn spec_skip_items(s: Seq<char>, fuel: nat) -> Option<Seq<char>>
    decreases fuel, 1nat,
{
    if fuel == 0 {
        None
    } else {
        match spec_skip_value(s, fuel) {
            None => None,
            Some(r) => if r.len() > 0 && r[0] == ',' {
                spec_skip_items(r.skip(1), (fuel - 1) as nat)
            } else if r.len() > 0 && r[0] == ']' {
                Some(r.skip(1))
            } else {
                None
            },
        }
    }
}

/// Step over the members of a non-empty object, up to the closing brace.
pub open spec fn spec_skip_members(s: Seq<char>, fuel: nat) -> Option<Seq<char>>
    decreases fuel, 1nat,
{
    if fuel == 0 {
        None
    } else {
        match spec_parse_text(s) {
            None => None,
            Some((key, s1)) => match spec_parse_exact(s1, ":"@) {
                None => None,
                Some(s2) => match spec_skip_value(s2, fuel) {
                    None => None,
                    Some(r) => if r.len() > 0 && r[0] == ',' {
                        spec_skip_members(r.skip(1), (fuel - 1) as nat)
                    } else if r.len() > 0 && r[0] == '}' {
                        Some(r.skip(1))
                    } else {
                        None
                    },
                },
            },
        }
    }
}

/// A skipped value strictly shortens the input.
pub proof fn lemma_skip_value_len(s: Seq<char>, fuel: nat)
    ensures
        spec_skip_value(s, fuel) matches Some(r) ==> r.len() < s.len(),
    decreases fuel, 0nat,
{
    reveal(crate::json::spec_parse_text);
    if fuel == 0 || s.len() == 0 {
    } else {
        lemma_parse_text_len(s);
        lemma_parse_number_len(s);
        lemma_parse_exact_len(s, "null"@);
        lemma_parse_exact_len(s, "true"@);
        lemma_parse_exact_len(s, "false"@);
        reveal_strlit("null");
        reveal_strlit("true");
        reveal_strlit("false");
        if s[0] == '[' && !(s.len() >= 2 && s[1] == ']') {
            lemma_skip_items_len(s.skip(1), (fuel - 1) as nat);
        }
        if s[0] == '{' && !(s.len() >= 2 && s[1] == '}') {
            lemma_skip_members_len(s.skip(1), (fuel - 1) as nat);
        }
    }
}

/// Skipped array elements strictly shorten the input.
pub proof fn lemma_skip_items_len(s: Seq<char>, fuel: nat)
    ensures
        spec_skip_items(s, fuel) matches Some(r) ==> r.len() < s.len(),
    decreases fuel, 1nat,
{
    if fuel == 0 {
    } else {
        lemma_skip_value_len(s, fuel);
        match spec_skip_value(s, fuel) {
            None => {},
            Some(r) => {
                if r.len() > 0 && r[0] == ',' {
                    lemma_skip_items_len(r.skip(1), (fuel - 1) as nat);
                }
            },
        }
    }
}

/// Skipped object members strictly shorten the input.
pub proof fn lemma_skip_members_len(s: Seq<char>, fuel: nat)
    ensures
        spec_skip_members(s, fuel) matches Some(r) ==> r.len() < s.len(),
    decreases fuel, 1nat,
{
    if fuel == 0 {
    } else {
        lemma_parse_text_len(s);
        match spec_parse_text(s) {
            None => {},
            Some((key, s1)) => {
                lemma_parse_exact_len(s1, ":"@);
                match spec_parse_exact(s1, ":"@) {
                    None => {},
                    Some(s2) => {
                        lemma_skip_value_len(s2, fuel);
                        match spec_skip_value(s2, fuel) {
                            None => {},
                            Some(r) => {
                                if r.len() > 0 && r[0] == ',' {
                                    lemma_skip_members_len(r.skip(1), (fuel - 1) as nat);
                                }
                            },
                        }
                    },
                }
            },
        }
    }
}

// ---------------------------------------------------------------------
// whitespace
// ---------------------------------------------------------------------

/// Where the whitespace stripper stands while walking a document:
/// between tokens, inside a quoted string, or right after a backslash
/// inside a quoted string.
#[derive(Clone, Copy)]
pub enum StripMode {
    /// Between tokens; whitespace here is insignificant.
    Between,
    /// Inside a quoted string; every character is kept.
    Quoted,
    /// Inside a quoted string, right after a backslash.
    QuotedEscape,
}

/// The insignificant characters of the document grammar.
pub open spec fn is_json_ws(c: char) -> bool {
    c == ' ' || c == '\t' || c == '\n' || c == '\r'
}

/// What the stripper does with one character: whether it is kept, and
/// the mode it leaves behind.
pub open spec fn strip_step(c: char, mode: StripMode) -> (bool, StripMode) {
    match mode {
        StripMode::Between => if is_json_ws(c) {
            (false, StripMode::Between)
        } else if c == '"' {
            (true, StripMode::Quoted)
        } else {
            (true, StripMode::Between)
        },
        StripMode::Quoted => if c == '"' {
            (true, StripMode::Between)
        } else if c == '\\' {
            (true, StripMode::QuotedEscape)
        } else {
            (true, StripMode::Quoted)
        },
        StripMode::QuotedEscape => (true, StripMode::Quoted),
    }
}

/// Walk `s` in mode `mode`, dropping whitespace between tokens and
/// keeping quoted strings intact; yields what is kept and the end mode.
pub open spec fn strip_ws_from(s: Seq<char>, mode: StripMode) -> (Seq<char>, StripMode)
    decreases s.len(),
{
    if s.len() == 0 {
        (Seq::empty(), mode)
    } else {
        let step = strip_step(s[0], mode);
        let rest = strip_ws_from(s.skip(1), step.1);
        if step.0 {
            (seq![s[0]] + rest.0, rest.1)
        } else {
            rest
        }
    }
}

/// Drop the insignificant whitespace of a document.
pub open spec fn strip_ws(s: Seq<char>) -> Seq<char> {
    strip_ws_from(s, StripMode::Between).0
}

/// One step of the stripper, on an input given as head and tail.
pub proof fn lemma_strip_step(c: char, rest: Seq<char>, mode: StripMode)
    ensures
        strip_ws_from(seq![c] + rest, mode) == ({
            let step = strip_step(c, mode);
            let r = strip_ws_from(rest, step.1);
            if step.0 {
                (seq![c] + r.0, r.1)
            } else {
                r
            }
        }),
{
    assert((seq![c] + rest)[0] == c);
    assert((seq![c] + rest).skip(1) =~= rest);
}

/// Stripping distributes over concatenation, threading the mode through.
pub proof fn lemma_strip_append(x: Seq<char>, y: Seq<char>, mode: StripMode)
    ensures
        strip_ws_from(x + y, mode).0 == strip_ws_from(x, mode).0 + strip_ws_from(
            y,
            strip_ws_from(x, mode).1,
        ).0,
        strip_ws_from(x + y, mode).1 == strip_ws_from(y, strip_ws_from(x, mode).1).1,
    decreases x.len(),
{
    if x.len() == 0 {
        assert(x + y =~= y);
        assert(Seq::<char>::empty() + strip_ws_from(y, mode).0 =~= strip_ws_from(y, mode).0);
    } else {
        assert((x + y)[0] == x[0]);
        assert((x + y).skip(1) =~= x.skip(1) + y);
        let step = strip_step(x[0], mode);
        lemma_strip_append(x.skip(1), y, step.1);
        if step.0 {
            assert(seq![x[0]] + (strip_ws_from(x.skip(1), step.1).0 + strip_ws_from(
                y,
                strip_ws_from(x.skip(1), step.1).1,
            ).0) =~= (seq![x[0]] + strip_ws_from(x.skip(1), step.1).0) + strip_ws_from(
                y,
                strip_ws_from(x.skip(1), step.1).1,
            ).0);
        }
    }
}

/// How many quotes a piece of text holds.
pub open spec fn quote_count(s: Seq<char>) -> nat
    decreases s.len(),
{
    if s.len() == 0 {
        0
    } else {
        (if s[0] == '"' {
            1nat
        } else {
            0nat
        }) + quote_count(s.skip(1))
    }
}

/// The other side of a quote: between tokens becomes quoted, and the
/// other way round.
pub open spec fn flip_mode(mode: StripMode) -> StripMode {
    match mode {
        StripMode::Between => StripMode::Quoted,
        StripMode::Quoted => StripMode::Between,
        StripMode::QuotedEscape => StripMode::QuotedEscape,
    }
}

/// A piece with no whitespace and no backslash passes through the
/// stripper unchanged; its quotes flip the mode as many times as they
/// occur.
pub proof fn lemma_strip_plain(s: Seq<char>, mode: StripMode)
    requires
        forall|i: int| 0 <= i < s.len() ==> !is_json_ws(#[trigger] s[i]) && s[i] != '\\',
        !(mode is QuotedEscape),
    ensures
        strip_ws_from(s, mode).0 == s,
        strip_ws_from(s, mode).1 == (if quote_count(s) % 2 == 0 {
            mode
        } else {
            flip_mode(mode)
        }),
    decreases s.len(),
{
    if s.len() == 0 {
    } else {
        let next: StripMode = if s[0] == '"' {
            flip_mode(mode)
        } else {
            mode
        };
        lemma_strip_plain(s.skip(1), next);
        assert(seq![s[0]] + s.skip(1) =~= s);
    }
}

/// The escaped body of a rendered string passes through the stripper
/// unchanged and leaves it inside the string.
pub proof fn lemma_strip_escape_text(s: Seq<char>)
    ensures
        strip_ws_from(escape_text(s), StripMode::Quoted).0 == escape_text(s),
        strip_ws_from(escape_text(s), StripMode::Quoted).1 is Quoted,
    decreases s.len(),
{
    if s.len() == 0 {
    } else {
        let c = s[0];
        lemma_strip_escape_text(s.skip(1));
        lemma_strip_append(escape_char(c), escape_text(s.skip(1)), StripMode::Quoted);
        assert(strip_ws_from(escape_char(c), StripMode::Quoted) == (
            escape_char(c),
            StripMode::Quoted,
        )) by {
            if c == '"' {
                lemma_strip_step('\\', seq!['"'], StripMode::Quoted);
                lemma_strip_step('"', Seq::empty(), StripMode::QuotedEscape);
                assert(seq!['"'] + Seq::<char>::empty() =~= seq!['"']);
                assert(seq!['\\'] + seq!['"'] =~= escape_char(c));
            } else if c == '\\' {
                lemma_strip_step('\\', seq!['\\'], StripMode::Quoted);
                lemma_strip_step('\\', Seq::empty(), StripMode::QuotedEscape);
                assert(seq!['\\'] + Seq::<char>::empty() =~= seq!['\\']);
                assert(seq!['\\'] + seq!['\\'] =~= escape_char(c));
            } else if (c as u32) < 32 {
                let hi = hex_digit_char((c as u32 / 16) as nat);
                let lo = hex_digit_char((c as u32 % 16) as nat);
                lemma_hex_digit_char((c as u32 / 16) as nat);
                lemma_hex_digit_char((c as u32 % 16) as nat);
                let tail4 = seq!['0', '0', hi, lo];
                lemma_strip_step('\\', seq!['u'] + tail4, StripMode::Quoted);
                lemma_strip_step('u', tail4, StripMode::QuotedEscape);
                lemma_strip_plain(tail4, StripMode::Quoted);
                assert(quote_count(tail4) == 0) by {
                    lemma_quote_count_zero(tail4);
                }
                assert(seq!['\\'] + (seq!['u'] + tail4) =~= escape_char(c));
                assert(seq!['u'] + tail4 =~= seq!['u'] + tail4);
            } else {
                lemma_strip_step(c, Seq::empty(), StripMode::Quoted);
                assert(seq![c] + Seq::<char>::empty() =~= seq![c]);
                assert(seq![c] =~= escape_char(c));
            }
        }
        assert(escape_char(c) + escape_text(s.skip(1)) =~= escape_text(s));
    }
}

/// A rendered string passes through the stripper unchanged, from between
/// tokens back to between tokens.
pub proof fn lemma_strip_render_text(s: Seq<char>)
    ensures
        strip_ws_from(render_text(s), StripMode::Between).0 == render_text(s),
        strip_ws_from(render_text(s), StripMode::Between).1 is Between,
{
    let body = escape_text(s) + seq!['"'];
    assert(render_text(s) =~= seq!['"'] + body);
    lemma_strip_step('"', body, StripMode::Between);
    lemma_strip_append(escape_text(s), seq!['"'], StripMode::Quoted);
    lemma_strip_escape_text(s);
    lemma_strip_step('"', Seq::empty(), StripMode::Quoted);
    assert(seq!['"'] + Seq::<char>::empty() =~= seq!['"']);
    assert(seq!['"'] + (escape_text(s) + seq!['"']) =~= render_text(s));
}

/// A rendered number passes through the stripper unchanged.
pub proof fn lemma_strip_render_number(n: nat, mode: StripMode)
    requires
        !(mode is QuotedEscape),
    ensures
        strip_ws_from(render_number(n), mode).0 == render_number(n),
        strip_ws_from(render_number(n), mode).1 == mode,
{
    lemma_render_number_all_digits(n);
    lemma_quote_count_zero(render_number(n));
    lemma_strip_plain(render_number(n), mode);
}

/// Every character of a rendered number is a digit.
pub proof fn lemma_render_number_all_digits(n: nat)
    ensures
        forall|i: int|
            0 <= i < render_number(n).len() ==> is_decimal_digit(#[trigger] render_number(n)[i]),
    decreases n,
{
    if n < 10 {
        lemma_decimal_digit_char(n);
    } else {
        lemma_render_number_all_digits(n / 10);
        lemma_decimal_digit_char(n % 10);
        assert forall|i: int| 0 <= i < render_number(n).len() implies is_decimal_digit(
            #[trigger] render_number(n)[i],
        ) by {
            if i < render_number(n / 10).len() {
                assert(render_number(n)[i] == render_number(n / 10)[i]);
            } else {
                assert(render_number(n)[i] == decimal_digit_char(n % 10));
            }
        }
    }
}

/// Quote counting distributes over concatenation.
pub proof fn lemma_quote_count_append(x: Seq<char>, y: Seq<char>)
    ensures
        quote_count(x + y) == quote_count(x) + quote_count(y),
    decreases x.len(),
{
    if x.len() == 0 {
        assert(x + y =~= y);
    } else {
        assert((x + y)[0] == x[0]);
        assert((x + y).skip(1) =~= x.skip(1) + y);
        lemma_quote_count_append(x.skip(1), y);
    }
}

/// The quote count of a single character.
pub proof fn lemma_quote_count_single(c: char)
    ensures
        quote_count(seq![c]) == (if c == '"' {
            1nat
        } else {
            0nat
        }),
{
    assert(seq![c].skip(1) =~= Seq::<char>::empty());
    assert(quote_count(Seq::<char>::empty()) == 0);
    assert(quote_count(seq![c]) == (if c == '"' {
        1nat
    } else {
        0nat
    }) + quote_count(seq![c].skip(1)));
}

/// A piece without quote characters holds no quotes.
pub proof fn lemma_quote_count_zero(s: Seq<char>)
    requires
        forall|i: int| 0 <= i < s.len() ==> #[trigger] s[i] != '"',
    ensures
        quote_count(s) == 0,
    decreases s.len(),
{
    if s.len() > 0 {
        lemma_quote_count_zero(s.skip(1));
    }
}

// ---------------------------------------------------------------------
// executable primitives
// ---------------------------------------------------------------------

/// Relies on `char::from_u32`: every code point outside the surrogate
/// range and at most 0x10FFFF is a valid scalar value, so the call
/// returns `Some`, and the returned char carries exactly that code.
#[verifier::external_body]
fn char_from_scalar(code: u32) -> (r: char)
    requires
        code < 0xD800 || (0xE000 <= code && code <= 0x10FFFF),
    ensures
        r == code as char,
{
    char::from_u32(code).unwrap()
}

/// Relies on `String::from_iter` (through `collect`): the built string
/// holds exactly the given characters, in order.
#[verifier::external_body]
pub(crate) fn chars_to_string(v: &Vec<char>) -> (r: String)
    ensures
        r@ == v@,
{
    v.iter().collect()
}

/// Drop the insignificant whitespace of a document: whitespace between
/// tokens goes, quoted strings stay intact.
pub fn strip_ws_chars(chars: &Vec<char>) -> (r: Vec<char>)
    ensures
        r@ == strip_ws(chars@),
{
    let mut out: Vec<char> = Vec::new();
    let mut mode = StripMode::Between;
    let n = chars.len();
    let mut i: usize = 0;
    proof {
        assert(chars@.skip(0) =~= chars@);
    }
    while i < n
        invariant
            n == chars@.len(),
            i <= n,
            strip_ws_from(chars@, StripMode::Between).0 == out@ + strip_ws_from(
                chars@.skip(i as int),
                mode,
            ).0,
            strip_ws_from(chars@, StripMode::Between).1 == strip_ws_from(
                chars@.skip(i as int),
                mode,
            ).1,
        decreases n - i,
    {
        let c = chars[i];
        let ghost before = chars@.skip(i as int);
        proof {
            assert(before[0] == c);
            assert(before.skip(1) =~= chars@.skip(i as int + 1));
        }
        let keep: bool;
        match mode {
            StripMode::Between => {
                if c == ' ' || c == '\t' || c == '\n' || c == '\r' {
                    keep = false;
                } else if c == '"' {
                    keep = true;
                    mode = StripMode::Quoted;
                } else {
                    keep = true;
                }
            },
            StripMode::Quoted => {
                keep = true;
                if c == '"' {
                    mode = StripMode::Between;
                } else if c == '\\' {
                    mode = StripMode::QuotedEscape;
                }
            },
            StripMode::QuotedEscape => {
                keep = true;
                mode = StripMode::Quoted;
            },
        }
        if keep {
            out.push(c);
            proof {
                assert(out@ + strip_ws_from(chars@.skip(i as int + 1), mode).0 =~= (out@.drop_last()
                    + (seq![c] + strip_ws_from(chars@.skip(i as int + 1), mode).0)));
            }
        }
        i += 1;
    }
    proof {
        assert(chars@.skip(n as int) =~= Seq::<char>::empty());
        assert(out@ + Seq::<char>::empty() =~= out@);
    }
    out
}

/// The characters of `s`, as a vector.
pub fn text_chars(s: &str) -> (r: Vec<char>)
    ensures
        r@ == s@,
{
    let n = s.unicode_len();
    let mut r: Vec<char> = Vec::new();
    let mut i: usize = 0;
    while i < n
        invariant
            n == s@.len(),
            i <= n,
            r@ == s@.take(i as int),
        decreases n - i,
    {
        r.push(s.get_char(i));
        proof {
            assert(r@ =~= s@.take(i as int + 1));
        }
        i += 1;
    }
    proof {
        assert(s@.take(n as int) =~= s@);
    }
    r
}

/// Append the literal `lit` to `out`.
pub fn push_exact(out: &mut Vec<char>, lit: &str)
    ensures
        final(out)@ == old(out)@ + lit@,
{
    let n = lit.unicode_len();
    let mut i: usize = 0;
    while i < n
        invariant
            n == lit@.len(),
            i <= n,
            out@ == old(out)@ + lit@.take(i as int),
        decreases n - i,
    {
        out.push(lit.get_char(i));
        proof {
            assert(old(out)@ + lit@.take(i as int + 1) =~= (old(out)@ + lit@.take(i as int)).push(
                lit@[i as int],
            ));
        }
        i += 1;
    }
    proof {
        assert(lit@.take(n as int) =~= lit@);
    }
}

/// Append one character of a JSON string, escaped as needed.
fn push_escaped(out: &mut Vec<char>, c: char)
    ensures
        final(out)@ == old(out)@ + escape_char(c),
{
    if c == '"' {
        out.push('\\');
        out.push('"');
        proof {
            assert(out@ =~= old(out)@ + escape_char(c));
        }
    } else if c == '\\' {
        out.push('\\');
        out.push('\\');
        proof {
            assert(out@ =~= old(out)@ + escape_char(c));
        }
    } else if (c as u32) < 32 {
        let code = c as u32;
        out.push('\\');
        out.push('u');
        out.push('0');
        out.push('0');
        out.push(char_from_scalar(48 + code / 16));
        let lo = code % 16;
        let lo_char = if lo < 10 {
            char_from_scalar(48 + lo)
        } else {
            char_from_scalar(87 + lo)
        };
        out.push(lo_char);
        proof {
            assert(code / 16 < 10);
            assert(hex_digit_char((code / 16) as nat) == (48 + code / 16) as char);
            assert(lo_char == hex_digit_char((code % 16) as nat));
            assert(out@ =~= old(out)@ + escape_char(c));
        }
    } else {
        out.push(c);
        proof {
            assert(out@ =~= old(out)@ + escape_char(c));
        }
    }
}

/// Append the rendering of `s` as a JSON string, quotes included.
pub fn push_text(out: &mut Vec<char>, s: &String)
    ensures
        final(out)@ == old(out)@ + render_text(s@),
{
    out.push('"');
    let ghost opened = out@;
    let n = s.as_str().unicode_len();
    let mut i: usize = 0;
    while i < n
        invariant
            n == s@.len(),
            i <= n,
            opened == old(out)@.push('"'),
            out@ == opened + escape_text(s@.take(i as int)),
        decreases n - i,
    {
        push_escaped(out, s.as_str().get_char(i));
        proof {
            lemma_escape_text_push(s@.take(i as int), s@[i as int]);
            assert(s@.take(i as int).push(s@[i as int]) =~= s@.take(i as int + 1));
        }
        i += 1;
    }
    out.push('"');
    proof {
        assert(s@.take(n as int) =~= s@);
        assert(out@ =~= old(out)@ + render_text(s@));
    }
}

/// The digit character of a value below ten.
fn decimal_digit(d: u64) -> (r: char)
    requires
        d < 10,
    ensures
        r == decimal_digit_char(d as nat),
{
    char_from_scalar(48 + d as u32)
}

/// Append the decimal rendering of `n`.
pub fn push_number(out: &mut Vec<char>, n: u64)
    ensures
        final(out)@ == old(out)@ + render_number(n as nat),
    decreases n,
{
    if n < 10 {
        out.push(decimal_digit(n));
        proof {
            assert(out@ =~= old(out)@ + render_number(n as nat));
        }
    } else {
        push_number(out, n / 10);
        out.push(decimal_digit(n % 10));
        proof {
            assert(out@ =~= old(out)@ + render_number(n as nat));
        }
    }
}

/// Whether `c` is a decimal digit.
fn is_digit(c: char) -> (r: bool)
    ensures
        r == is_decimal_digit(c),
{
    let u = c as u32;
    48 <= u && u <= 57
}

/// Consume the literal `lit` at `pos`, or report that it is absent.
pub fn parse_exact(chars: &Vec<char>, pos: usize, lit: &str) -> (r: Option<usize>)
    requires
        pos <= chars@.len(),
    ensures
        (r is Some) <==> (spec_parse_exact(chars@.skip(pos as int), lit@) is Some),
        r matches Some(p) ==> pos <= p <= chars@.len() && spec_parse_exact(
            chars@.skip(pos as int),
            lit@,
        ) == Some(chars@.skip(p as int)),
{
    let ghost s = chars@.skip(pos as int);
    let n = lit.unicode_len();
    let total = chars.len();
    if n > total - pos {
        return None;
    }
    let mut i: usize = 0;
    while i < n
        invariant
            n == lit@.len(),
            total == chars@.len(),
            pos + n <= total,
            i <= n,
            s == chars@.skip(pos as int),
            forall|j: int| 0 <= j < i ==> s[j] == lit@[j],
        decreases n - i,
    {
        if chars[pos + i] != lit.get_char(i) {
            proof {
                assert(s.take(lit@.len() as int)[i as int] != lit@[i as int]);
            }
            return None;
        }
        i += 1;
    }
    proof {
        assert(s.take(lit@.len() as int) =~= lit@);
        assert(s.skip(lit@.len() as int) =~= chars@.skip(pos as int + n as int));
    }
    Some(pos + n)
}

/// Parse a decimal number at `pos` that fits a `u64`; a well-formed
/// number too large for a `u64` parses as absent.
pub fn parse_u64(chars: &Vec<char>, pos: usize) -> (r: Option<(u64, usize)>)
    requires
        pos <= chars@.len(),
    ensures
        match spec_parse_number(chars@.skip(pos as int)) {
            Some(p) => {
                if p.0 <= u64::MAX {
                    r matches Some(x) && x.0 == p.0 && pos <= x.1 <= chars@.len() && chars@.skip(
                        x.1 as int,
                    ) == p.1
                } else {
                    r is None
                }
            },
            None => r is None,
        },
{
    let ghost s = chars@.skip(pos as int);
    if pos == chars.len() {
        return None;
    }
    if !is_digit(chars[pos]) {
        proof {
            assert(s[0] == chars@[pos as int]);
        }
        return None;
    }
    let mut acc: u64 = 0;
    let mut i: usize = pos;
    while i < chars.len() && is_digit(chars[i])
        invariant
            pos <= i <= chars@.len(),
            s == chars@.skip(pos as int),
            s.len() > 0 && is_decimal_digit(s[0]),
            take_digits(s, 0) == take_digits(chars@.skip(i as int), acc as nat),
        decreases chars@.len() - i,
    {
        let ghost before = chars@.skip(i as int);
        let c = chars[i];
        proof {
            assert(before[0] == chars@[i as int]);
            assert(before.skip(1) =~= chars@.skip(i as int + 1));
        }
        let d = (c as u32 - 48) as u64;
        if acc > (u64::MAX - d) / 10 {
            proof {
                assert((acc as nat) * 10 + (d as nat) > u64::MAX) by (nonlinear_arith)
                    requires
                        acc as nat > ((u64::MAX - d) as nat) / 10,
                        d < 10,
                ;
                lemma_take_digits_ge(
                    chars@.skip(i as int + 1),
                    (acc as nat) * 10 + decimal_digit_value(before[0]),
                );
            }
            return None;
        }
        acc = acc * 10 + d;
        i += 1;
    }
    proof {
        let rem = chars@.skip(i as int);
        if i < chars@.len() {
            assert(rem[0] == chars@[i as int]);
        }
        assert(take_digits(rem, acc as nat) == (acc as nat, rem));
    }
    Some((acc, i))
}

/// Parse a JSON string at `pos`, quotes and escapes included.
#[verifier::rlimit(100)]
pub fn parse_text(chars: &Vec<char>, pos: usize) -> (r: Option<(String, usize)>)
    requires
        pos <= chars@.len(),
    ensures
        (r is Some) <==> (spec_parse_text(chars@.skip(pos as int)) is Some),
        r matches Some(x) ==> spec_parse_text(chars@.skip(pos as int)) matches Some(y) && x.0@
            == y.0 && pos <= x.1 <= chars@.len() && chars@.skip(x.1 as int) == y.1,
{
    proof {
        reveal(crate::json::spec_parse_text);
    }
    let ghost s = chars@.skip(pos as int);
    if pos == chars.len() {
        return None;
    }
    if chars[pos] != '"' {
        proof {
            assert(s[0] == chars@[pos as int]);
        }
        return None;
    }
    proof {
        assert(s[0] == '"');
        assert(s.skip(1) =~= chars@.skip(pos as int + 1));
    }
    let mut acc: Vec<char> = Vec::new();
    let mut i: usize = pos + 1;
    loop
        invariant
            pos + 1 <= i <= chars@.len(),
            s == chars@.skip(pos as int),
            s.len() > 0 && s[0] == '"',
            spec_parse_text(chars@.skip(pos as int)) == take_string_chars(
                s.skip(1),
                Seq::empty(),
            ),
            take_string_chars(s.skip(1), Seq::empty()) == take_string_chars(
                chars@.skip(i as int),
                acc@,
            ),
        decreases chars@.len() - i,
    {
        if i == chars.len() {
            return None;
        }
        let ghost before = chars@.skip(i as int);
        proof {
            assert(before[0] == chars@[i as int]);
        }
        let c = chars[i];
        if c == '"' {
            proof {
                assert(before.skip(1) =~= chars@.skip(i as int + 1));
            }
            let text = chars_to_string(&acc);
            return Some((text, i + 1));
        } else if c == '\\' {
            if i + 1 == chars.len() {
                proof {
                    assert(before.len() < 2);
                }
                return None;
            }
            let e = chars[i + 1];
            proof {
                assert(before[1] == chars@[i as int + 1]);
            }
            if e == '"' {
                proof {
                    assert(before.skip(2) =~= chars@.skip(i as int + 2));
                }
                acc.push('"');
                i = i + 2;
            } else if e == '\\' {
                proof {
                    assert(before.skip(2) =~= chars@.skip(i as int + 2));
                }
                acc.push('\\');
                i = i + 2;
            } else if e == '/' {
                proof {
                    assert(before.skip(2) =~= chars@.skip(i as int + 2));
                }
                acc.push('/');
                i = i + 2;
            } else if e == 'b' {
                proof {
                    assert(before.skip(2) =~= chars@.skip(i as int + 2));
                }
                acc.push(char_from_scalar(8));
                i = i + 2;
            } else if e == 'f' {
                proof {
                    assert(before.skip(2) =~= chars@.skip(i as int + 2));
                }
                acc.push(char_from_scalar(12));
                i = i + 2;
            } else if e == 'n' {
                proof {
                    assert(before.skip(2) =~= chars@.skip(i as int + 2));
                }
                acc.push('\n');
                i = i + 2;
            } else if e == 'r' {
                proof {
                    assert(before.skip(2) =~= chars@.skip(i as int + 2));
                }
                acc.push('\r');
                i = i + 2;
            } else if e == 't' {
                proof {
                    assert(before.skip(2) =~= chars@.skip(i as int + 2));
                }
                acc.push('\t');
                i = i + 2;
            } else if e == 'u' {
                if chars.len() - i < 6 {
                    proof {
                        assert(before.len() < 6);
                    }
                    return None;
                }
                proof {
                    assert(before[2] == chars@[i as int + 2]);
                    assert(before[3] == chars@[i as int + 3]);
                    assert(before[4] == chars@[i as int + 4]);
                    assert(before[5] == chars@[i as int + 5]);
                }
                let h1 = hex_value(chars[i + 2]);
                let h2 = hex_value(chars[i + 3]);
                let h3 = hex_value(chars[i + 4]);
                let h4 = hex_value(chars[i + 5]);
                match (h1, h2, h3, h4) {
                    (Some(a), Some(b), Some(cc), Some(dd)) => {
                        let code: u32 = a * 4096 + b * 256 + cc * 16 + dd;
                        if code < 0xD800 || (0xE000 <= code && code <= 0xFFFF) {
                            proof {
                                assert(before.skip(6) =~= chars@.skip(i as int + 6));
                            }
                            acc.push(char_from_scalar(code));
                            i = i + 6;
                        } else if code < 0xDC00 {
                            if chars.len() - i < 12 {
                                proof {
                                    assert(before.len() < 12);
                                }
                                return None;
                            }
                            proof {
                                assert(before[6] == chars@[i as int + 6]);
                                assert(before[7] == chars@[i as int + 7]);
                                assert(before[8] == chars@[i as int + 8]);
                                assert(before[9] == chars@[i as int + 9]);
                                assert(before[10] == chars@[i as int + 10]);
                                assert(before[11] == chars@[i as int + 11]);
                            }
                            if chars[i + 6] != '\\' || chars[i + 7] != 'u' {
                                return None;
                            }
                            let l1 = hex_value(chars[i + 8]);
                            let l2 = hex_value(chars[i + 9]);
                            let l3 = hex_value(chars[i + 10]);
                            let l4 = hex_value(chars[i + 11]);
                            match (l1, l2, l3, l4) {
                                (Some(la), Some(lb), Some(lc), Some(ld)) => {
                                    let low: u32 = la * 4096 + lb * 256 + lc * 16 + ld;
                                    if low < 0xDC00 || low >= 0xE000 {
                                        return None;
                                    }
                                    let scalar: u32 = 0x10000 + (code - 0xD800) * 0x400 + (low
                                        - 0xDC00);
                                    proof {
                                        assert(before.skip(12) =~= chars@.skip(i as int + 12));
                                        assert(scalar as nat == crate::json::surrogate_scalar(
                                            code as nat,
                                            low as nat,
                                        ));
                                    }
                                    acc.push(char_from_scalar(scalar));
                                    i = i + 12;
                                },
                                _ => {
                                    return None;
                                },
                            }
                        } else {
                            return None;
                        }
                    },
                    _ => {
                        return None;
                    },
                }
            } else {
                return None;
            }
        } else {
            proof {
                assert(before.skip(1) =~= chars@.skip(i as int + 1));
            }
            acc.push(c);
            i = i + 1;
        }
    }
}

/// Step over one JSON value at `pos`, whatever its shape, bounded by
/// `fuel`.
fn skip_value(chars: &Vec<char>, pos: usize, fuel: usize) -> (r: Option<usize>)
    requires
        pos <= chars@.len(),
    ensures
        (r is Some) <==> (spec_skip_value(chars@.skip(pos as int), fuel as nat) is Some),
        r matches Some(p) ==> spec_skip_value(chars@.skip(pos as int), fuel as nat) == Some(
            chars@.skip(p as int),
        ) && pos <= p <= chars@.len(),
    decreases fuel, 0nat,
{
    let ghost s = chars@.skip(pos as int);
    if fuel == 0 || pos == chars.len() {
        return None;
    }
    let c = chars[pos];
    proof {
        assert(s[0] == c);
    }
    if c == '"' {
        match parse_text(chars, pos) {
            Some((t, p)) => Some(p),
            None => None,
        }
    } else if 48 <= c as u32 && c as u32 <= 57 {
        let n = chars.len();
        let mut j = pos + 1;
        proof {
            assert(s.skip(1) =~= chars@.skip(pos as int + 1));
            lemma_take_digits_rem(s.skip(1), decimal_digit_value(s[0]), 0);
        }
        while j < n && 48 <= chars[j] as u32 && chars[j] as u32 <= 57
            invariant
                n == chars@.len(),
                pos < j <= n,
                s == chars@.skip(pos as int),
                s.len() > 0 && is_decimal_digit(s[0]),
                take_digits(s, 0).1 == take_digits(chars@.skip(j as int), 0).1,
            decreases n - j,
        {
            let ghost before = chars@.skip(j as int);
            proof {
                assert(before[0] == chars@[j as int]);
                assert(before.skip(1) =~= chars@.skip(j as int + 1));
                lemma_take_digits_rem(before.skip(1), decimal_digit_value(before[0]), 0);
            }
            j += 1;
        }
        proof {
            let rem = chars@.skip(j as int);
            if j < n {
                assert(rem[0] == chars@[j as int]);
            }
            assert(take_digits(rem, 0) == (0nat, rem));
        }
        Some(j)
    } else if c == 'n' {
        parse_exact(chars, pos, "null")
    } else if c == 't' {
        parse_exact(chars, pos, "true")
    } else if c == 'f' {
        parse_exact(chars, pos, "false")
    } else if c == '[' {
        if pos + 1 < chars.len() && chars[pos + 1] == ']' {
            proof {
                assert(s[1] == chars@[pos as int + 1]);
                assert(s.skip(2) =~= chars@.skip(pos as int + 2));
            }
            Some(pos + 2)
        } else {
            proof {
                if pos + 1 < chars@.len() {
                    assert(s[1] == chars@[pos as int + 1]);
                }
                assert(s.skip(1) =~= chars@.skip(pos as int + 1));
            }
            skip_items(chars, pos + 1, fuel - 1)
        }
    } else if c == '{' {
        if pos + 1 < chars.len() && chars[pos + 1] == '}' {
            proof {
                assert(s[1] == chars@[pos as int + 1]);
                assert(s.skip(2) =~= chars@.skip(pos as int + 2));
            }
            Some(pos + 2)
        } else {
            proof {
                if pos + 1 < chars@.len() {
                    assert(s[1] == chars@[pos as int + 1]);
                }
                assert(s.skip(1) =~= chars@.skip(pos as int + 1));
            }
            skip_members(chars, pos + 1, fuel - 1)
        }
    } else {
        None
    }
}

/// Step over the elements of a non-empty array at `pos`.
fn skip_items(chars: &Vec<char>, pos: usize, fuel: usize) -> (r: Option<usize>)
    requires
        pos <= chars@.len(),
    ensures
        (r is Some) <==> (spec_skip_items(chars@.skip(pos as int), fuel as nat) is Some),
        r matches Some(p) ==> spec_skip_items(chars@.skip(pos as int), fuel as nat) == Some(
            chars@.skip(p as int),
        ) && pos <= p <= chars@.len(),
    decreases fuel, 1nat,
{
    if fuel == 0 {
        return None;
    }
    let q = match skip_value(chars, pos, fuel) {
        Some(v) => v,
        None => {
            return None;
        },
    };
    if q < chars.len() && chars[q] == ',' {
        proof {
            let rem = chars@.skip(q as int);
            assert(rem[0] == chars@[q as int]);
            assert(rem.skip(1) =~= chars@.skip(q as int + 1));
        }
        skip_items(chars, q + 1, fuel - 1)
    } else if q < chars.len() && chars[q] == ']' {
        proof {
            let rem = chars@.skip(q as int);
            assert(rem[0] == chars@[q as int]);
            assert(rem.skip(1) =~= chars@.skip(q as int + 1));
        }
        Some(q + 1)
    } else {
        proof {
            let rem = chars@.skip(q as int);
            if rem.len() > 0 {
                assert(rem[0] == chars@[q as int]);
            }
        }
        None
    }
}

/// Step over the members of a non-empty object at `pos`.
fn skip_members(chars: &Vec<char>, pos: usize, fuel: usize) -> (r: Option<usize>)
    requires
        pos <= chars@.len(),
    ensures
        (r is Some) <==> (spec_skip_members(chars@.skip(pos as int), fuel as nat) is Some),
        r matches Some(p) ==> spec_skip_members(chars@.skip(pos as int), fuel as nat) == Some(
            chars@.skip(p as int),
        ) && pos <= p <= chars@.len(),
    decreases fuel, 1nat,
{
    if fuel == 0 {
        return None;
    }
    let (key, q1) = match parse_text(chars, pos) {
        Some(v) => v,
        None => {
            return None;
        },
    };
    let q2 = match parse_exact(chars, q1, ":") {
        Some(v) => v,
        None => {
            return None;
        },
    };
    let q = match skip_value(chars, q2, fuel) {
        Some(v) => v,
        None => {
            return None;
        },
    };
    if q < chars.len() && chars[q] == ',' {
        proof {
            let rem = chars@.skip(q as int);
            assert(rem[0] == chars@[q as int]);
            assert(rem.skip(1) =~= chars@.skip(q as int + 1));
        }
        skip_members(chars, q + 1, fuel - 1)
    } else if q < chars.len() && chars[q] == '}' {
        proof {
            let rem = chars@.skip(q as int);
            assert(rem[0] == chars@[q as int]);
            assert(rem.skip(1) =~= chars@.skip(q as int + 1));
        }
        Some(q + 1)
    } else {
        proof {
            let rem = chars@.skip(q as int);
            if rem.len() > 0 {
                assert(rem[0] == chars@[q as int]);
            }
        }
        None
    }
}

/// Step over one JSON value at `pos`; the input's remaining length is
/// always fuel enough for any value it actually holds.
pub fn skip_any_value(chars: &Vec<char>, pos: usize) -> (r: Option<usize>)
    requires
        pos <= chars@.len(),
    ensures
        (r is Some) <==> (spec_skip_value(
            chars@.skip(pos as int),
            chars@.skip(pos as int).len(),
        ) is Some),
        r matches Some(p) ==> spec_skip_value(
            chars@.skip(pos as int),
            chars@.skip(pos as int).len(),
        ) == Some(chars@.skip(p as int)) && pos <= p <= chars@.len(),
{
    let fuel = chars.len() - pos;
    skip_value(chars, pos, fuel)
}

/// The value of a hexadecimal digit, if `c` is one.
fn hex_value(c: char) -> (r: Option<u32>)
    ensures
        (r is Some) <==> is_hex_digit(c),
        r matches Some(v) ==> v == hex_digit_value(c) && v < 16,
{
    let u = c as u32;
    if 48 <= u && u <= 57 {
        Some(u - 48)
    } else if 97 <= u && u <= 102 {
        Some(u - 87)
    } else if 65 <= u && u <= 70 {
        Some(u - 55)
    } else {
        None
    }
}

} // verus!
