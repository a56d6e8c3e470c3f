//! Decoding of literal lexemes into values.
//!
//! The AST keeps literal lexemes losslessly as strings; these helpers turn a
//! lexeme into its value. Integer literals decode to `i128`.

use vstd::prelude::*;
use crate::text::{chars_of, push_char, push_str};
use vstd::utf8::encode_utf8;

verus! {

broadcast use vstd::seq_lib::group_seq_properties;

/// `s` without any occurrence of `c`.
pub open spec fn remove_char(s: Seq<char>, c: char) -> Seq<char>
    decreases s.len(),
{
    if s.len() == 0 {
        seq![]
    } else if s.last() == c {
        remove_char(s.drop_last(), c)
    } else {
        remove_char(s.drop_last(), c).push(s.last())
    }
}

/// Whether `c` is a digit in `radix` (2, 10 or 16; letters in either case).
pub open spec fn valid_digit(c: char, radix: u32) -> bool {
    if radix == 16 {
        ('0' <= c && c <= '9') || ('a' <= c && c <= 'f') || ('A' <= c && c <= 'F')
    } else if radix == 2 {
        '0' <= c && c <= '1'
    } else {
        '0' <= c && c <= '9'
    }
}

/// Value of a valid digit.
pub open spec fn digit_value(c: char) -> int {
    if '0' <= c && c <= '9' {
        c as int - '0' as int
    } else if 'a' <= c && c <= 'f' {
        c as int - 'a' as int + 10
    } else if 'A' <= c && c <= 'F' {
        c as int - 'A' as int + 10
    } else {
        0
    }
}

pub open spec fn all_valid_digits(s: Seq<char>, radix: u32) -> bool {
    forall|i: int| 0 <= i < s.len() ==> valid_digit(#[trigger] s[i], radix)
}

/// Positional value of a digit string.
pub open spec fn digits_value(s: Seq<char>, radix: u32) -> int
    decreases s.len(),
{
    if s.len() == 0 {
        0
    } else {
        digits_value(s.drop_last(), radix) * radix + digit_value(s.last())
    }
}

/// What `i128::from_str_radix` gives: an optional `+` (or `-`) sign, then at
/// least one digit of `radix`; `None` on any other character, on a lone sign,
/// on empty input, or when the value is outside `i128`.
pub open spec fn from_str_radix_spec(src: Seq<char>, radix: u32) -> Option<int> {
    if src.len() == 0 {
        None
    } else if src.len() == 1 && (src[0] == '+' || src[0] == '-') {
        None
    } else {
        let neg = src[0] == '-';
        let body = if src[0] == '+' || src[0] == '-' { src.drop_first() } else { src };
        if !all_valid_digits(body, radix) {
            None
        } else {
            let v = if neg { -digits_value(body, radix) } else { digits_value(body, radix) };
            if i128::MIN <= v <= i128::MAX {
                Some(v)
            } else {
                None
            }
        }
    }
}

/// Radix and digit string after the sign: `0x`/`0X` is hexadecimal,
/// `0b`/`0B` binary, anything else decimal.
pub open spec fn radix_split(u: Seq<char>) -> (u32, Seq<char>) {
    if u.len() >= 2 && u[0] == '0' && (u[1] == 'x' || u[1] == 'X') {
        (16, u.skip(2))
    } else if u.len() >= 2 && u[0] == '0' && (u[1] == 'b' || u[1] == 'B') {
        (2, u.skip(2))
    } else {
        (10, u)
    }
}

/// The value of an integer lexeme: `_` is ignored, one leading `-` negates
/// (otherwise one leading `+` is dropped), then a radix prefix and digits.
/// A negated magnitude of exactly `2^127` is `i128::MIN`, so every `i128`
/// written out decodes back; negating `i128::MIN` wraps to `i128::MIN`.
pub open spec fn int_literal_value(s: Seq<char>) -> Option<i128> {
    let clean = remove_char(s, '_');
    let neg = clean.len() > 0 && clean[0] == '-';
    let unsigned = if neg {
        clean.drop_first()
    } else if clean.len() > 0 && clean[0] == '+' {
        clean.drop_first()
    } else {
        clean
    };
    let (radix, digits) = radix_split(unsigned);
    match from_str_radix_spec(digits, radix) {
        Some(m) => Some(
            if neg {
                if m == i128::MIN { i128::MIN } else { (-m) as i128 }
            } else {
                m as i128
            },
        ),
        None => if neg && digits.len() > 0 && digits[0] != '+' && digits[0] != '-' {
            match from_str_radix_spec(seq!['-'] + digits, radix) {
                Some(v) => Some(v as i128),
                None => None,
            }
        } else {
            None
        },
    }
}

/// `prefix + s@ + suffix`
pub open spec fn quoted_message(prefix: Seq<char>, s: Seq<char>, suffix: Seq<char>) -> Seq<char> {
    prefix + s + suffix
}

fn message(prefix: &str, s: &str, suffix: &str) -> (r: String)
    ensures
        r@ == quoted_message(prefix@, s@, suffix@),
{
    let mut out = String::new();
    push_str(&mut out, prefix);
    push_str(&mut out, s);
    push_str(&mut out, suffix);
    assert(out@ =~= prefix@ + s@ + suffix@);
    out
}

fn is_valid_digit(c: char, radix: u32) -> (r: bool)
    ensures
        r == valid_digit(c, radix),
{
    if radix == 16 {
        ('0' <= c && c <= '9') || ('a' <= c && c <= 'f') || ('A' <= c && c <= 'F')
    } else if radix == 2 {
        '0' <= c && c <= '1'
    } else {
        '0' <= c && c <= '9'
    }
}

fn digit_of(c: char) -> (r: i128)
    ensures
        r == digit_value(c),
        0 <= r < 16,
{
    if '0' <= c && c <= '9' {
        (c as u32 - '0' as u32) as i128
    } else if 'a' <= c && c <= 'f' {
        (c as u32 - 'a' as u32 + 10) as i128
    } else if 'A' <= c && c <= 'F' {
        (c as u32 - 'A' as u32 + 10) as i128
    } else {
        0
    }
}

/// Digit values never shrink as digits are appended.
proof fn lemma_digits_value_grows(s: Seq<char>, radix: u32, k: int)
    requires
        radix >= 2,
        0 <= k <= s.len(),
    ensures
        0 <= digits_value(s.take(k), radix) <= digits_value(s, radix),
    decreases s.len() - k,
{
    if k < s.len() {
        lemma_digits_value_grows(s, radix, k + 1);
        assert(s.take(k + 1).drop_last() =~= s.take(k));
        lemma_digits_value_nonneg(s.take(k), radix);
        let v = digits_value(s.take(k), radix);
        assert(v * radix >= v) by (nonlinear_arith)
            requires
                v >= 0,
                radix >= 2,
        ;
    } else {
        assert(s.take(k) =~= s);
        lemma_digits_value_nonneg(s, radix);
    }
}

proof fn lemma_digits_value_nonneg(s: Seq<char>, radix: u32)
    requires
        radix >= 2,
    ensures
        digits_value(s, radix) >= 0,
    decreases s.len(),
{
    if s.len() > 0 {
        lemma_digits_value_nonneg(s.drop_last(), radix);
        let v = digits_value(s.drop_last(), radix);
        assert(v * radix >= 0) by (nonlinear_arith)
            requires
                v >= 0,
                radix >= 2,
        ;
    }
}

/// `i128::from_str_radix` on a character vector.
#[verifier::spinoff_prover]
#[verifier::rlimit(40)]
fn parse_radix(src: &Vec<char>, radix: u32) -> (r: Option<i128>)
    requires
        radix == 2 || radix == 10 || radix == 16,
    ensures
        match from_str_radix_spec(src@, radix) {
            Some(v) => r == Some(v as i128),
            None => r is None,
        },
{
    if src.len() == 0 {
        return None;
    }
    if src.len() == 1 && (src[0] == '+' || src[0] == '-') {
        return None;
    }
    let neg = src[0] == '-';
    let start: usize = if src[0] == '+' || src[0] == '-' { 1 } else { 0 };
    let ghost body = if src@[0] == '+' || src@[0] == '-' { src@.drop_first() } else { src@ };
    assert(body =~= src@.skip(start as int));
    let r128 = radix as i128;
    let mut acc: i128 = 0;
    let mut i: usize = start;
    while i < src.len()
        invariant
            start <= i <= src@.len(),
            src@.len() > 0,
            !(src@.len() == 1 && (src@[0] == '+' || src@[0] == '-')),
            body == (if src@[0] == '+' || src@[0] == '-' { src@.drop_first() } else { src@ }),
            body == src@.skip(start as int),
            neg == (src@[0] == '-'),
            r128 == radix as i128,
            radix == 2 || radix == 10 || radix == 16,
            all_valid_digits(body.take(i - start), radix),
            acc == if neg { -digits_value(body.take(i - start), radix) } else { digits_value(
                body.take(i - start),
                radix,
            ) },
        decreases src@.len() - i,
    {
        let c = src[i];
        assert(body[i - start] == c);
        if !is_valid_digit(c, radix) {
            assert(!valid_digit(body[(i - start) as int], radix));
            assert(!all_valid_digits(body, radix));
            return None;
        }
        let d = digit_of(c);
        let ghost prev = body.take(i - start);
        let ghost next = body.take(i + 1 - start);
        let ghost pv = digits_value(prev, radix);
        proof {
            assert(next.drop_last() =~= prev);
            assert(next.last() == c);
            assert(digits_value(next, radix) == pv * radix + digit_value(c));
            lemma_digits_value_nonneg(prev, radix);
            lemma_digits_value_grows(body, radix, i + 1 - start);
            assert(digits_value(body, radix) >= pv * radix + digit_value(c));
            if neg {
                assert(acc * r128 == -(pv * radix)) by (nonlinear_arith)
                    requires
                        acc == -pv,
                        r128 == radix,
                ;
            } else {
                assert(acc * r128 == pv * radix) by (nonlinear_arith)
                    requires
                        acc == pv,
                        r128 == radix,
                ;
            }
            assert(pv * radix >= 0) by (nonlinear_arith)
                requires
                    pv >= 0,
                    radix >= 2,
            ;
        }
        let step = acc.checked_mul(r128);
        match step {
            None => {
                return None;
            },
            Some(m) => {
                let next_acc = if neg { m.checked_sub(d) } else { m.checked_add(d) };
                match next_acc {
                    None => {
                        return None;
                    },
                    Some(a) => {
                        proof {
                            assert forall|k: int| 0 <= k < next.len() implies valid_digit(
                                #[trigger] next[k],
                                radix,
                            ) by {
                                if k < prev.len() {
                                    assert(next[k] == prev[k]);
                                }
                            }
                        }
                        acc = a;
                    },
                }
            },
        }
        i += 1;
    }
    assert(body.take(i - start) =~= body);
    Some(acc)
}

/// What `u64::from_str` gives: an optional `+`, then decimal digits.
pub open spec fn u64_decimal_value(s: Seq<char>) -> Option<u64> {
    if s.len() > 0 && s[0] == '-' {
        None
    } else {
        match from_str_radix_spec(s, 10) {
            Some(v) => if 0 <= v <= u64::MAX { Some(v as u64) } else { None },
            None => None,
        }
    }
}

/// `u64::from_str` (decimal, optional `+`).
pub fn parse_u64_decimal(s: &str) -> (r: Option<u64>)
    ensures
        r == u64_decimal_value(s@),
{
    let cs = chars_of(s);
    if cs.len() > 0 && cs[0] == '-' {
        return None;
    }
    match parse_radix(&cs, 10) {
        Some(v) => {
            if 0 <= v && v <= u64::MAX as i128 {
                Some(v as u64)
            } else {
                None
            }
        },
        None => None,
    }
}

/// Decode an integer literal lexeme (`"-900"`, `"+0x1F"`, `"-0b101"`, `"1_000"`)
/// into its `i128` value; `Err` with a message naming the lexeme otherwise.
pub fn decode_int_literal(s: &str) -> (r: Result<i128, String>)
    ensures
        match int_literal_value(s@) {
            Some(v) => r == Ok::<i128, String>(v),
            None => r matches Err(m) && m@ == quoted_message("invalid integer literal '"@, s@, "'"@),
        },
{
    let cs = chars_of(s);
    let mut clean: Vec<char> = Vec::new();
    let mut i: usize = 0;
    while i < cs.len()
        invariant
            0 <= i <= cs@.len(),
            cs@ == s@,
            clean@ == remove_char(cs@.take(i as int), '_'),
        decreases cs@.len() - i,
    {
        proof {
            assert(cs@.take(i + 1).drop_last() =~= cs@.take(i as int));
        }
        if cs[i] != '_' {
            clean.push(cs[i]);
        }
        i += 1;
    }
    assert(cs@.take(i as int) =~= s@);
    let neg = clean.len() > 0 && clean[0] == '-';
    let ustart: usize = if neg || (clean.len() > 0 && clean[0] == '+') { 1 } else { 0 };
    let mut unsigned: Vec<char> = Vec::new();
    let mut j = ustart;
    while j < clean.len()
        invariant
            ustart <= j <= clean@.len(),
            unsigned@ == clean@.subrange(ustart as int, j as int),
        decreases clean@.len() - j,
    {
        unsigned.push(clean[j]);
        proof {
            assert(unsigned@ =~= clean@.subrange(ustart as int, j + 1));
        }
        j += 1;
    }
    let ghost u = unsigned@;
    assert(u =~= if neg { clean@.drop_first() } else if clean@.len() > 0 && clean@[0] == '+' {
        clean@.drop_first()
    } else {
        clean@
    });
    let hex = unsigned.len() >= 2 && unsigned[0] == '0' && (unsigned[1] == 'x' || unsigned[1] == 'X');
    let bin = unsigned.len() >= 2 && unsigned[0] == '0' && (unsigned[1] == 'b' || unsigned[1] == 'B');
    let radix: u32 = if hex { 16 } else if bin { 2 } else { 10 };
    let dstart: usize = if hex || bin { 2 } else { 0 };
    let mut digits: Vec<char> = Vec::new();
    let mut k = dstart;
    while k < unsigned.len()
        invariant
            dstart <= k <= unsigned@.len(),
            dstart <= unsigned@.len(),
            digits@ == unsigned@.subrange(dstart as int, k as int),
        decreases unsigned@.len() - k,
    {
        digits.push(unsigned[k]);
        proof {
            assert(digits@ =~= unsigned@.subrange(dstart as int, k + 1));
        }
        k += 1;
    }
    assert(digits@ =~= radix_split(u).1);
    match parse_radix(&digits, radix) {
        Some(m) => {
            if neg {
                if m == i128::MIN {
                    Ok(i128::MIN)
                } else {
                    Ok(-m)
                }
            } else {
                Ok(m)
            }
        },
        None => {
            if neg && digits.len() > 0 && digits[0] != '+' && digits[0] != '-' {
                // The magnitude of `i128::MIN` only fits once negated.
                let mut signed: Vec<char> = vec!['-'];
                let mut t: usize = 0;
                while t < digits.len()
                    invariant
                        0 <= t <= digits@.len(),
                        signed@ == seq!['-'] + digits@.take(t as int),
                    decreases digits@.len() - t,
                {
                    signed.push(digits[t]);
                    proof {
                        assert(signed@ =~= seq!['-'] + digits@.take(t + 1));
                    }
                    t += 1;
                }
                assert(digits@.take(t as int) =~= digits@);
                match parse_radix(&signed, radix) {
                    Some(v) => Ok(v),
                    None => Err(message("invalid integer literal '", s, "'")),
                }
            } else {
                Err(message("invalid integer literal '", s, "'"))
            }
        },
    }
}

/// The code point an escape letter stands for in a rune (`n`, `r`, `t`, `v`,
/// `b`, `a`, `f`, `\\`, `'`, `"`).
pub open spec fn escape_value(c: char) -> Option<u32> {
    if c == 'n' {
        Some(0x0a)
    } else if c == 'r' {
        Some(0x0d)
    } else if c == 't' {
        Some(0x09)
    } else if c == 'v' {
        Some(0x0b)
    } else if c == 'b' {
        Some(0x08)
    } else if c == 'a' {
        Some(0x07)
    } else if c == 'f' {
        Some(0x0c)
    } else if c == '\\' {
        Some(0x5c)
    } else if c == '\'' {
        Some(0x27)
    } else if c == '"' {
        Some(0x22)
    } else {
        None
    }
}

fn escape_of(c: char) -> (r: Option<u32>)
    ensures
        r == escape_value(c),
{
    if c == 'n' {
        Some(0x0a)
    } else if c == 'r' {
        Some(0x0d)
    } else if c == 't' {
        Some(0x09)
    } else if c == 'v' {
        Some(0x0b)
    } else if c == 'b' {
        Some(0x08)
    } else if c == 'a' {
        Some(0x07)
    } else if c == 'f' {
        Some(0x0c)
    } else if c == '\\' {
        Some(0x5c)
    } else if c == '\'' {
        Some(0x27)
    } else if c == '"' {
        Some(0x22)
    } else {
        None
    }
}

/// Outcome of decoding a rune lexeme: a code point, or which error it is.
pub enum RuneOutcome {
    Value(u32),
    /// Not enclosed in `'...'`.
    Invalid,
    Empty,
    /// More than one character without an escape.
    NotSingle,
    IncompleteEscape,
    BadEscape,
}

/// How a rune lexeme decodes: the text between the quotes is one character,
/// or a backslash and an escape letter (anything after the escape letter is
/// ignored).
pub open spec fn rune_outcome(s: Seq<char>) -> RuneOutcome {
    if s.len() < 2 || s[0] != '\'' || s.last() != '\'' {
        RuneOutcome::Invalid
    } else {
        let inner = s.subrange(1, s.len() - 1);
        if inner.len() == 0 {
            RuneOutcome::Empty
        } else if inner[0] != '\\' {
            if inner.len() > 1 {
                RuneOutcome::NotSingle
            } else {
                RuneOutcome::Value(inner[0] as u32)
            }
        } else if inner.len() == 1 {
            RuneOutcome::IncompleteEscape
        } else {
            match escape_value(inner[1]) {
                Some(v) => RuneOutcome::Value(v),
                None => RuneOutcome::BadEscape,
            }
        }
    }
}

/// The message each rune error carries.
pub open spec fn rune_message(o: RuneOutcome, s: Seq<char>) -> Seq<char> {
    match o {
        RuneOutcome::Invalid => quoted_message("invalid rune literal '"@, s, "'"@),
        RuneOutcome::Empty => quoted_message("empty rune literal '"@, s, "'"@),
        RuneOutcome::NotSingle => quoted_message("rune must be a single character: '"@, s, "'"@),
        RuneOutcome::IncompleteEscape => quoted_message("incomplete escape in rune '"@, s, "'"@),
        RuneOutcome::BadEscape => quoted_message("invalid escape sequence in rune '"@, s, "'"@),
        RuneOutcome::Value(_) => seq![],
    }
}

/// Decode a rune literal lexeme (`'a'`, `'\n'`) into a Unicode code point.
pub fn decode_rune_literal(s: &str) -> (r: Result<u32, String>)
    ensures
        match rune_outcome(s@) {
            RuneOutcome::Value(v) => r == Ok::<u32, String>(v),
            o => r matches Err(m) && m@ == rune_message(o, s@),
        },
{
    let cs = chars_of(s);
    let n = cs.len();
    if n < 2 || cs[0] != '\'' || cs[n - 1] != '\'' {
        return Err(message("invalid rune literal '", s, "'"));
    }
    let ghost inner = s@.subrange(1, s@.len() - 1);
    if n == 2 {
        return Err(message("empty rune literal '", s, "'"));
    }
    assert(inner[0] == cs@[1]);
    let ch = cs[1];
    if ch != '\\' {
        if n > 3 {
            return Err(message("rune must be a single character: '", s, "'"));
        }
        return Ok(ch as u32);
    }
    if n == 3 {
        return Err(message("incomplete escape in rune '", s, "'"));
    }
    assert(inner[1] == cs@[2]);
    match escape_of(cs[2]) {
        Some(v) => Ok(v),
        None => Err(message("invalid escape sequence in rune '", s, "'")),
    }
}

/// Lower-cased ASCII letter.
pub open spec fn lower(c: char) -> char {
    if 'A' <= c && c <= 'Z' { ((c as u32) + 32) as char } else { c }
}

/// `s` equals the lower-case ASCII word `w` ignoring case.
pub open spec fn eq_ignore_case(s: Seq<char>, w: Seq<char>) -> bool {
    s.len() == w.len() && forall|i: int| 0 <= i < s.len() ==> lower(#[trigger] s[i]) == w[i]
}

pub open spec fn is_digit(c: char) -> bool {
    '0' <= c && c <= '9'
}

pub open spec fn all_digits(s: Seq<char>) -> bool {
    forall|i: int| 0 <= i < s.len() ==> is_digit(#[trigger] s[i])
}

/// `Number ::= (Digit+ | Digit+ '.' Digit* | Digit* '.' Digit+) Exp?` with
/// `Exp ::= ('e' | 'E') Sign? Digit+`, where `m` is the mantissa split at the first
/// `e`/`E`.
pub open spec fn mantissa_ok(m: Seq<char>) -> bool {
    ||| (m.len() > 0 && all_digits(m))
    ||| exists|d: int|
        0 <= d < m.len() && #[trigger] m[d] == '.' && all_digits(m.take(d)) && all_digits(
            m.skip(d + 1),
        ) && (d > 0 || m.len() - d - 1 > 0)
}

pub open spec fn exponent_ok(x: Seq<char>) -> bool {
    let digits = if x.len() > 0 && (x[0] == '+' || x[0] == '-') { x.drop_first() } else { x };
    digits.len() > 0 && all_digits(digits)
}

/// Index of the first `e`/`E`, if any.
pub open spec fn first_exp(s: Seq<char>) -> Option<int>
    decreases s.len(),
{
    if s.len() == 0 {
        None
    } else if s[0] == 'e' || s[0] == 'E' {
        Some(0)
    } else {
        match first_exp(s.drop_first()) {
            Some(i) => Some(i + 1),
            None => None,
        }
    }
}

pub open spec fn number_ok(s: Seq<char>) -> bool {
    match first_exp(s) {
        Some(e) => mantissa_ok(s.take(e)) && exponent_ok(s.skip(e + 1)),
        None => mantissa_ok(s),
    }
}

/// Whether `f64::from_str` accepts `s`: an optional sign, then `inf`,
/// `infinity`, `nan` (any case) or a decimal number with an optional exponent.
pub open spec fn float_text_ok(s: Seq<char>) -> bool {
    let body = if s.len() > 0 && (s[0] == '+' || s[0] == '-') { s.drop_first() } else { s };
    eq_ignore_case(body, "inf"@) || eq_ignore_case(body, "infinity"@) || eq_ignore_case(body, "nan"@)
        || number_ok(body)
}

fn lower_char(c: char) -> (r: char)
    ensures
        r == lower(c),
{
    if 'A' <= c && c <= 'Z' {
        let u: u32 = (c as u32) + 32;
        crate::text::char_of_code(u)
    } else {
        c
    }
}

fn matches_word(s: &Vec<char>, from: usize, w: &str) -> (r: bool)
    requires
        from <= s@.len(),
    ensures
        r == eq_ignore_case(s@.skip(from as int), w@),
{
    let wc = chars_of(w);
    let n = s.len();
    if n - from != wc.len() {
        return false;
    }
    let mut i: usize = 0;
    while i < wc.len()
        invariant
            0 <= i <= wc@.len(),
            wc@ == w@,
            s@.len() == from + wc@.len(),
            n == s@.len(),
            forall|k: int| 0 <= k < i ==> lower(#[trigger] s@.skip(from as int)[k]) == wc@[k],
        decreases wc@.len() - i,
    {
        assert(from + i < n);
        if lower_char(s[from + i]) != wc[i] {
            assert(lower(s@.skip(from as int)[i as int]) != w@[i as int]);
            return false;
        }
        i += 1;
    }
    true
}

fn digits_between(s: &Vec<char>, from: usize, to: usize) -> (r: bool)
    requires
        from <= to <= s@.len(),
    ensures
        r == all_digits(s@.subrange(from as int, to as int)),
{
    let mut i = from;
    while i < to
        invariant
            from <= i <= to <= s@.len(),
            forall|k: int| from <= k < i ==> is_digit(#[trigger] s@[k]),
        decreases to - i,
    {
        if !('0' <= s[i] && s[i] <= '9') {
            assert(!is_digit(s@.subrange(from as int, to as int)[i - from]));
            return false;
        }
        i += 1;
    }
    assert forall|k: int| 0 <= k < to - from implies is_digit(#[trigger] s@.subrange(from as int, to as int)[k]) by {
        assert(s@.subrange(from as int, to as int)[k] == s@[from + k]);
    }
    true
}

/// Whether `s[from..to]` is a valid mantissa.
fn mantissa_between(s: &Vec<char>, from: usize, to: usize) -> (r: bool)
    requires
        from <= to <= s@.len(),
    ensures
        r == mantissa_ok(s@.subrange(from as int, to as int)),
{
    let ghost m = s@.subrange(from as int, to as int);
    let mut dot = from;
    while dot < to && s[dot] != '.'
        invariant
            from <= dot <= to <= s@.len(),
            forall|k: int| from <= k < dot ==> s@[k] != '.',
        decreases to - dot,
    {
        dot += 1;
    }
    if dot == to {
        assert(forall|d: int| 0 <= d < m.len() ==> #[trigger] m[d] != '.');
        return to > from && digits_between(s, from, to);
    }
    let d = dot - from;
    assert(m[d as int] == '.');
    assert(m.take(d as int) =~= s@.subrange(from as int, dot as int));
    assert(m.skip(d + 1) =~= s@.subrange(dot + 1, to as int));
    let head = digits_between(s, from, dot);
    let tail = digits_between(s, dot + 1, to);
    if to > from && digits_between(s, from, to) {
        assert(all_digits(m));
        assert(!is_digit(m[d as int]));
        assert(false);
    }
    let ok = head && tail && (d > 0 || to - dot - 1 > 0);
    proof {
        if !ok && mantissa_ok(m) {
            let d2 = choose|d2: int|
                0 <= d2 < m.len() && #[trigger] m[d2] == '.' && all_digits(m.take(d2)) && all_digits(
                    m.skip(d2 + 1),
                ) && (d2 > 0 || m.len() - d2 - 1 > 0);
            if d2 < d {
                assert(m[d2] == s@[from + d2]);
            } else if d2 > d {
                assert(m.skip(d2 + 1).len() >= 0);
                assert(m.take(d2)[d as int] == '.');
                assert(!is_digit(m.take(d2)[d as int]));
            }
        }
    }
    ok
}

/// Whether `f64::from_str` accepts the text of `s`.
pub fn float_text_valid(s: &Vec<char>) -> (r: bool)
    ensures
        r == float_text_ok(s@),
{
    let from: usize = if s.len() > 0 && (s[0] == '+' || s[0] == '-') { 1 } else { 0 };
    let ghost body = if s@.len() > 0 && (s@[0] == '+' || s@[0] == '-') { s@.drop_first() } else { s@ };
    assert(body =~= s@.skip(from as int));
    if matches_word(s, from, "inf") || matches_word(s, from, "infinity") || matches_word(s, from, "nan") {
        return true;
    }
    let mut e = from;
    while e < s.len() && s[e] != 'e' && s[e] != 'E'
        invariant
            from <= e <= s@.len(),
            forall|k: int| from <= k < e ==> s@[k] != 'e' && s@[k] != 'E',
        decreases s@.len() - e,
    {
        e += 1;
    }
    proof {
        lemma_first_exp(body);
    }
    if e == s.len() {
        assert(first_exp(body) is None) by {
            if first_exp(body) is Some {
                let i = first_exp(body).unwrap();
                assert(body[i] == s@[from + i]);
            }
        }
        assert(s@.subrange(from as int, s@.len() as int) =~= body);
        return mantissa_between(s, from, s.len());
    }
    assert(first_exp(body) == Some(e - from)) by {
        assert(body[e - from] == s@[e as int]);
        let i = first_exp(body);
        if i is Some && i.unwrap() < e - from {
            assert(body[i.unwrap()] == s@[from + i.unwrap()]);
        }
    }
    assert(body.take(e - from) =~= s@.subrange(from as int, e as int));
    let m = mantissa_between(s, from, e);
    let x_from: usize = if e + 1 < s.len() && (s[e + 1] == '+' || s[e + 1] == '-') { e + 2 } else { e + 1 };
    let ghost x = body.skip(e - from + 1);
    assert(x =~= s@.skip(e + 1));
    assert(x_from <= s@.len());
    let ghost digits = if x.len() > 0 && (x[0] == '+' || x[0] == '-') { x.drop_first() } else { x };
    assert(digits =~= s@.subrange(x_from as int, s@.len() as int));
    let xd = s.len() > x_from && digits_between(s, x_from, s.len());
    m && xd
}

proof fn lemma_first_exp(s: Seq<char>)
    ensures
        match first_exp(s) {
            Some(i) => 0 <= i < s.len() && (s[i] == 'e' || s[i] == 'E') && forall|j: int|
                0 <= j < i ==> #[trigger] s[j] != 'e' && s[j] != 'E',
            None => forall|j: int| 0 <= j < s.len() ==> #[trigger] s[j] != 'e' && s[j] != 'E',
        },
    decreases s.len(),
{
    if s.len() > 0 {
        lemma_first_exp(s.drop_first());
        assert forall|j: int| 1 <= j < s.len() implies s[j] == s.drop_first()[j - 1] by {}
    }
}

/// Whether a float lexeme is accepted: `_` is ignored, the rest must parse as `f64`.
pub fn float_literal_valid(s: &str) -> (r: bool)
    ensures
        r == float_text_ok(remove_char(s@, '_')),
{
    let cs = chars_of(s);
    let mut clean: Vec<char> = Vec::new();
    let mut i: usize = 0;
    while i < cs.len()
        invariant
            0 <= i <= cs@.len(),
            cs@ == s@,
            clean@ == remove_char(cs@.take(i as int), '_'),
        decreases cs@.len() - i,
    {
        proof {
            assert(cs@.take(i + 1).drop_last() =~= cs@.take(i as int));
        }
        if cs[i] != '_' {
            clean.push(cs[i]);
        }
        i += 1;
    }
    assert(cs@.take(i as int) =~= s@);
    float_text_valid(&clean)
}

/// Decoded text of a string lexeme `"..."`: escapes as in runes (a backslash
/// and one escape letter), every other character as itself.
pub open spec fn string_body(inner: Seq<char>) -> Option<Seq<char>>
    decreases inner.len(),
{
    if inner.len() == 0 {
        Some(seq![])
    } else if inner[0] != '\\' {
        match string_body(inner.drop_first()) {
            Some(rest) => Some(seq![inner[0]] + rest),
            None => None,
        }
    } else if inner.len() == 1 {
        None
    } else {
        match (escape_value(inner[1]), string_body(inner.skip(2))) {
            (Some(v), Some(rest)) => Some(seq![v as char] + rest),
            _ => None,
        }
    }
}

pub open spec fn string_literal_value(s: Seq<char>) -> Option<Seq<char>> {
    if s.len() < 2 || s[0] != '"' || s.last() != '"' {
        None
    } else {
        string_body(s.subrange(1, s.len() - 1))
    }
}

/// Decode a string literal lexeme (`"std.io"`, `"a\tb"`) into its text.
pub fn decode_string_literal(s: &str) -> (r: Result<String, String>)
    ensures
        match string_literal_value(s@) {
            Some(v) => r matches Ok(t) && t@ == v,
            None => r matches Err(m) && m@ == quoted_message("invalid string literal "@, s@, ""@),
        },
{
    let cs = chars_of(s);
    let n = cs.len();
    if n < 2 || cs[0] != '"' || cs[n - 1] != '"' {
        return Err(message("invalid string literal ", s, ""));
    }
    let ghost inner = s@.subrange(1, s@.len() - 1);
    assert(inner =~= cs@.subrange(1, (n - 1) as int));
    let mut out = String::new();
    let mut i: usize = 1;
    let end = n - 1;
    while i < end
        invariant
            1 <= i <= end,
            end == n - 1,
            n == cs@.len(),
            cs@ == s@,
            inner == s@.subrange(1, s@.len() - 1),
            string_body(inner) == match string_body(cs@.subrange(i as int, end as int)) {
                Some(rest) => Some(out@ + rest),
                None => None,
            },
        decreases end - i,
    {
        let ghost rest_before = cs@.subrange(i as int, end as int);
        let c = cs[i];
        if c != '\\' {
            assert(rest_before.drop_first() =~= cs@.subrange(i + 1, end as int));
            push_char(&mut out, c);
            proof {
                match string_body(cs@.subrange(i + 1, end as int)) {
                    Some(r2) => {
                        assert(out@ + r2 =~= out@.drop_last() + (seq![c] + r2));
                    },
                    None => {},
                }
            }
            i += 1;
        } else {
            if i + 1 >= end {
                assert(rest_before.len() == 1);
                return Err(message("invalid string literal ", s, ""));
            }
            match escape_of(cs[i + 1]) {
                Some(v) => {
                    assert(rest_before.skip(2) =~= cs@.subrange(i + 2, end as int));
                    assert(v < 0x80);
                    let ch = crate::text::char_of_code(v);
                    push_char(&mut out, ch);
                    proof {
                        match string_body(cs@.subrange(i + 2, end as int)) {
                            Some(r2) => {
                                assert(out@ + r2 =~= out@.drop_last() + (seq![v as char] + r2));
                            },
                            None => {},
                        }
                    }
                    i += 2;
                },
                None => {
                    return Err(message("invalid string literal ", s, ""));
                },
            }
        }
    }
    assert(cs@.subrange(end as int, end as int) =~= Seq::<char>::empty());
    assert(out@ + seq![] =~= out@);
    Ok(out)
}


proof fn lemma_decimal_digits(n: nat)
    ensures
        crate::text::decimal_spec(n).len() >= 1,
        all_valid_digits(crate::text::decimal_spec(n), 10),
        digits_value(crate::text::decimal_spec(n), 10) == n,
        remove_char(crate::text::decimal_spec(n), '_') == crate::text::decimal_spec(n),
        n >= 1 ==> crate::text::decimal_spec(n)[0] != '0',
        crate::text::decimal_spec(n)[0] != '-' && crate::text::decimal_spec(n)[0] != '+',
        crate::text::decimal_spec(n).len() >= 2 ==> n >= 10,
    decreases n,
{
    let d = crate::text::decimal_spec(n);
    if n < 10 {
        assert(d == seq![crate::text::digit_char(n as int)]);
        assert(d.drop_last() =~= Seq::<char>::empty());
        assert(remove_char(d.drop_last(), '_') =~= Seq::<char>::empty());
        assert(remove_char(d, '_') =~= d);
        assert(digit_value(crate::text::digit_char(n as int)) == n);
        assert(digits_value(d, 10) == digits_value(d.drop_last(), 10) * 10 + digit_value(d.last()));
        assert(digits_value(d.drop_last(), 10) == 0);
    } else {
        let q = n / 10;
        let r = n % 10;
        lemma_decimal_digits(q);
        let head = crate::text::decimal_spec(q);
        assert(d == head + seq![crate::text::digit_char(r as int)]);
        assert(d.drop_last() =~= head);
        assert(d.last() == crate::text::digit_char(r as int));
        assert forall|i: int| 0 <= i < d.len() implies valid_digit(#[trigger] d[i], 10) by {
            if i < head.len() {
                assert(d[i] == head[i]);
            }
        }
        assert(digit_value(crate::text::digit_char(r as int)) == r);
        assert(digits_value(d, 10) == digits_value(head, 10) * 10 + digit_value(d.last()));
        assert(q * 10 + r == n);
        assert(d[0] == head[0]);
        assert(remove_char(d, '_') =~= d);
    }
}

/// Any non-negative value up to `i128::MAX`, written in decimal, decodes
/// back to itself.
pub proof fn lemma_decimal_literal_round_trip(n: nat)
    requires
        n <= i128::MAX,
    ensures
        int_literal_value(crate::text::decimal_spec(n)) == Some(n as i128),
{
    lemma_decimal_digits(n);
    let d = crate::text::decimal_spec(n);
    assert(radix_split(d) == (10u32, d));
    assert(from_str_radix_spec(d, 10) == Some(n as int));
}

/// The decimal text an integer prints as: a minus sign for a negative
/// value, then the digits of its magnitude.
pub open spec fn integer_text(v: int) -> Seq<char> {
    if v < 0 {
        seq!['-'] + crate::text::decimal_spec((-v) as nat)
    } else {
        crate::text::decimal_spec(v as nat)
    }
}

/// Every integer that fits an `i128` (so every value of an integer
/// primitive, `i128::MIN` included) decodes back from its decimal text.
pub proof fn lemma_integer_text_round_trip(v: i128)
    ensures
        int_literal_value(integer_text(v as int)) == Some(v),
{
    if v < 0 {
        lemma_negative_decimal_literal_round_trip((-(v as int)) as nat);
    } else {
        lemma_decimal_literal_round_trip(v as nat);
    }
}

/// A minus sign before the decimal text of any value up to `2^127`
/// decodes to its negation (down to `i128::MIN`).
pub proof fn lemma_negative_decimal_literal_round_trip(n: nat)
    requires
        n <= i128::MAX + 1,
    ensures
        int_literal_value(seq!['-'] + crate::text::decimal_spec(n)) == Some((-n) as i128),
{
    lemma_decimal_digits(n);
    let d = crate::text::decimal_spec(n);
    let s = seq!['-'] + d;
    assert(s.drop_last() =~= seq!['-'] + d.drop_last()) by {
        if d.len() > 0 {
        }
    }
    lemma_remove_char_prepend('-', d, '_');
    assert(remove_char(s, '_') =~= s);
    assert(s[0] == '-');
    assert(s.drop_first() =~= d);
    assert(radix_split(d) == (10u32, d));
    if n <= i128::MAX {
        assert(from_str_radix_spec(d, 10) == Some(n as int));
    } else {
        assert(from_str_radix_spec(d, 10) is None);
        assert(valid_digit(d[0], 10));
        assert((seq!['-'] + d).drop_first() =~= d);
        assert(from_str_radix_spec(seq!['-'] + d, 10) == Some(-(n as int)));
    }
}

proof fn lemma_remove_char_prepend(c: char, s: Seq<char>, x: char)
    requires
        c != x,
    ensures
        remove_char(seq![c] + s, x) == seq![c] + remove_char(s, x),
    decreases s.len(),
{
    if s.len() == 0 {
        assert(seq![c] + s =~= seq![c]);
        assert((seq![c] + s).drop_last() =~= Seq::<char>::empty());
        assert(remove_char(Seq::<char>::empty(), x) =~= Seq::<char>::empty());
        assert(remove_char(seq![c], x) == remove_char(seq![c].drop_last(), x).push(c));
        assert(remove_char(seq![c] + s, x) =~= seq![c]);
        assert(seq![c] + remove_char(s, x) =~= seq![c]);
    } else {
        lemma_remove_char_prepend(c, s.drop_last(), x);
        assert((seq![c] + s).drop_last() =~= seq![c] + s.drop_last());
        assert((seq![c] + s).last() == s.last());
        if s.last() == x {
        } else {
            assert(seq![c] + remove_char(s.drop_last(), x).push(s.last()) =~= (seq![c]
                + remove_char(s.drop_last(), x)).push(s.last()));
        }
    }
}

} // verus!
