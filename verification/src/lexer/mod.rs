//! The lexer: classifies the characters of one input text into tokens.

use vstd::prelude::*;

use self::cursor::{Cursor, Peekable};
use self::token::{kind_id, Token, TokenType};
use crate::decimal::{pow10, render_decimal, strip_spec, Decimal, MAX_MANTISSA, MAX_SCALE};
use crate::strutil::{nat_chars, zero_pad};

pub use self::error::LexerError;

pub mod cursor;
pub mod error;
pub mod token;

verus! {

/// The whitespace characters the lexer skips.
pub open spec fn is_ws(c: char) -> bool {
    c == ' ' || c == '\r' || c == '\t' || c == '\n'
}

/// The decimal digits.
pub open spec fn is_digit(c: char) -> bool {
    '0' <= c && c <= '9'
}

/// The characters that may begin an identifier.
pub open spec fn is_alpha(c: char) -> bool {
    ('a' <= c && c <= 'z') || ('A' <= c && c <= 'Z') || c == '_'
}

/// The characters that may continue an identifier.
pub open spec fn is_alnum(c: char) -> bool {
    is_digit(c) || is_alpha(c)
}

/// The first position at or after `i` that does not hold a digit.
pub open spec fn digit_run_end(s: Seq<char>, i: nat) -> nat
    decreases s.len() - i when i <= s.len()
{
    if i < s.len() && is_digit(s[i as int]) {
        digit_run_end(s, i + 1)
    } else {
        i
    }
}

/// The first position at or after `i` that does not hold an identifier
/// character.
pub open spec fn alnum_run_end(s: Seq<char>, i: nat) -> nat
    decreases s.len() - i when i <= s.len()
{
    if i < s.len() && is_alnum(s[i as int]) {
        alnum_run_end(s, i + 1)
    } else {
        i
    }
}

pub proof fn lemma_digit_run_end_bounds(s: Seq<char>, i: nat)
    requires
        i <= s.len(),
    ensures
        i <= digit_run_end(s, i) <= s.len(),
    decreases s.len() - i,
{
    if i < s.len() && is_digit(s[i as int]) {
        lemma_digit_run_end_bounds(s, i + 1);
    }
}

/// Where a numeric literal that starts at `i` ends: a maximal digit run,
/// then a point only when a digit follows it, then another maximal run.
pub open spec fn number_end(s: Seq<char>, i: nat) -> nat
    recommends
        i <= s.len(),
{
    let j = digit_run_end(s, i);
    if j + 1 < s.len() && s[j as int] == '.' && is_digit(s[(j + 1) as int]) {
        digit_run_end(s, j + 1)
    } else {
        j
    }
}

/// The integer value of a run of digit characters.
pub open spec fn digits_val(ds: Seq<char>) -> int
    decreases ds.len(),
{
    if ds.len() == 0 {
        0
    } else {
        digits_val(ds.drop_last()) * 10 + (ds.last() as u32 - 48)
    }
}

/// The digits of a numeric literal starting at `i`, with the point removed:
/// the mantissa the literal denotes.
pub open spec fn num_digits_at(s: Seq<char>, i: nat) -> Seq<char> {
    let j = digit_run_end(s, i);
    if j + 1 < s.len() && s[j as int] == '.' && is_digit(s[(j + 1) as int]) {
        s.subrange(i as int, j as int) + s.subrange(j as int + 1, digit_run_end(s, j + 1) as int)
    } else {
        s.subrange(i as int, j as int)
    }
}

/// How many digits of the numeric literal starting at `i` follow the point.
pub open spec fn num_frac_len_at(s: Seq<char>, i: nat) -> nat {
    let j = digit_run_end(s, i);
    if j + 1 < s.len() && s[j as int] == '.' && is_digit(s[(j + 1) as int]) {
        (digit_run_end(s, j + 1) - (j + 1)) as nat
    } else {
        0
    }
}

/// The first position at or after `i` holding a double quote, or the length
/// when none does.
pub open spec fn quote_end(s: Seq<char>, i: nat) -> nat
    decreases s.len() - i when i <= s.len()
{
    if i < s.len() && s[i as int] != '"' {
        quote_end(s, i + 1)
    } else {
        i
    }
}

pub proof fn lemma_quote_end_bounds(s: Seq<char>, i: nat)
    requires
        i <= s.len(),
    ensures
        i <= quote_end(s, i) <= s.len(),
    decreases s.len() - i,
{
    if i < s.len() && s[i as int] != '"' {
        lemma_quote_end_bounds(s, i + 1);
    }
}

/// How many newline characters sit in `[i, j)`.
pub open spec fn newline_count(s: Seq<char>, i: nat, j: nat) -> nat
    decreases j - i when i <= j <= s.len()
{
    if i < j {
        (if s[i as int] == '\n' {
            1nat
        } else {
            0nat
        }) + newline_count(s, i + 1, j)
    } else {
        0
    }
}

/// The first position at or after `i` holding a newline, or the length when
/// none does: where a line comment ends.
pub open spec fn line_end(s: Seq<char>, i: nat) -> nat
    decreases s.len() - i when i <= s.len()
{
    if i < s.len() && s[i as int] != '\n' {
        line_end(s, i + 1)
    } else {
        i
    }
}

/// The keyword token for a piece of text, if the text is one of the sixteen
/// reserved words.
pub open spec fn keyword_of(s: Seq<char>) -> Option<TokenType> {
    if s == "and"@ {
        Some(TokenType::And)
    } else if s == "class"@ {
        Some(TokenType::Class)
    } else if s == "else"@ {
        Some(TokenType::Else)
    } else if s == "false"@ {
        Some(TokenType::False)
    } else if s == "for"@ {
        Some(TokenType::For)
    } else if s == "fun"@ {
        Some(TokenType::Fun)
    } else if s == "if"@ {
        Some(TokenType::If)
    } else if s == "nil"@ {
        Some(TokenType::Nil)
    } else if s == "or"@ {
        Some(TokenType::Or)
    } else if s == "print"@ {
        Some(TokenType::Print)
    } else if s == "return"@ {
        Some(TokenType::Return)
    } else if s == "super"@ {
        Some(TokenType::Super)
    } else if s == "this"@ {
        Some(TokenType::This)
    } else if s == "true"@ {
        Some(TokenType::True)
    } else if s == "var"@ {
        Some(TokenType::Var)
    } else if s == "while"@ {
        Some(TokenType::While)
    } else {
        None
    }
}

/// Whether `c` is a decimal digit.
fn is_digit_exec(c: char) -> (r: bool)
    ensures
        r == is_digit(c),
{
    '0' <= c && c <= '9'
}

fn is_alpha_exec(c: char) -> (r: bool)
    ensures
        r == is_alpha(c),
{
    ('a' <= c && c <= 'z') || ('A' <= c && c <= 'Z') || c == '_'
}

fn is_alnum_exec(c: char) -> (r: bool)
    ensures
        r == is_alnum(c),
{
    is_digit_exec(c) || is_alpha_exec(c)
}

/// Whether `s` holds exactly the text of `lit`.
fn string_is(s: &String, lit: &str) -> (r: bool)
    ensures
        r == (s@ == lit@),
{
    let owned = lit.to_owned();
    *s == owned
}

/// The keyword token for `s`, when `s` is a reserved word.
fn keyword_lookup(s: &String) -> (r: Option<TokenType>)
    ensures
        r == keyword_of(s@),
{
    if string_is(s, "and") {
        Some(TokenType::And)
    } else if string_is(s, "class") {
        Some(TokenType::Class)
    } else if string_is(s, "else") {
        Some(TokenType::Else)
    } else if string_is(s, "false") {
        Some(TokenType::False)
    } else if string_is(s, "for") {
        Some(TokenType::For)
    } else if string_is(s, "fun") {
        Some(TokenType::Fun)
    } else if string_is(s, "if") {
        Some(TokenType::If)
    } else if string_is(s, "nil") {
        Some(TokenType::Nil)
    } else if string_is(s, "or") {
        Some(TokenType::Or)
    } else if string_is(s, "print") {
        Some(TokenType::Print)
    } else if string_is(s, "return") {
        Some(TokenType::Return)
    } else if string_is(s, "super") {
        Some(TokenType::Super)
    } else if string_is(s, "this") {
        Some(TokenType::This)
    } else if string_is(s, "true") {
        Some(TokenType::True)
    } else if string_is(s, "var") {
        Some(TokenType::Var)
    } else if string_is(s, "while") {
        Some(TokenType::While)
    } else {
        None
    }
}

/// Every character a number prints to is a digit, and there is at least
/// one.
proof fn lemma_nat_chars_digits(n: nat)
    ensures
        nat_chars(n).len() >= 1,
        forall|k: int| 0 <= k < nat_chars(n).len() ==> is_digit(#[trigger] nat_chars(n)[k]),
    decreases n,
{
    if n < 10 {
        assert(nat_chars(n) =~= seq![crate::strutil::digit_char(n)]);
    } else {
        lemma_nat_chars_digits(n / 10);
        assert(nat_chars(n) == nat_chars(n / 10).push(crate::strutil::digit_char(n % 10)));
        assert forall|k: int| 0 <= k < nat_chars(n).len() implies is_digit(
            #[trigger] nat_chars(n)[k],
        ) by {
            if k < nat_chars(n / 10).len() {
                assert(nat_chars(n)[k] == nat_chars(n / 10)[k]);
            } else {
                assert(nat_chars(n)[k] == crate::strutil::digit_char(n % 10));
            }
        }
    }
}

/// Reading the printed digits of a number back gives the number: the digit
/// run of `nat_chars` has the value it was printed from.
pub proof fn lemma_digits_val_nat_chars(n: nat)
    ensures
        digits_val(nat_chars(n)) == n,
    decreases n,
{
    if n < 10 {
        assert(nat_chars(n) =~= seq![crate::strutil::digit_char(n)]);
        assert(nat_chars(n).drop_last() =~= Seq::<char>::empty());
        assert(digits_val(Seq::<char>::empty()) == 0);
    } else {
        lemma_digits_val_nat_chars(n / 10);
        let whole = nat_chars(n / 10).push(crate::strutil::digit_char(n % 10));
        assert(whole.drop_last() =~= nat_chars(n / 10));
        assert(whole.last() == crate::strutil::digit_char(n % 10));
        assert(digits_val(whole) == digits_val(nat_chars(n / 10)) * 10 + (n % 10));
        vstd::arithmetic::div_mod::lemma_fundamental_div_mod(n as int, 10);
        assert((n / 10) * 10 == 10 * (n / 10)) by (nonlinear_arith);
    }
}

/// Zero digits on the left change neither the digit run's value nor its
/// being all digits.
proof fn lemma_digits_val_prepend_zero(ds: Seq<char>)
    ensures
        digits_val(seq!['0'] + ds) == digits_val(ds),
    decreases ds.len(),
{
    if ds.len() == 0 {
        assert(seq!['0'] + ds =~= seq!['0']);
        assert((seq!['0']).drop_last() =~= Seq::<char>::empty());
        assert(digits_val(Seq::<char>::empty()) == 0);
        assert((seq!['0']).last() == '0');
        assert(digits_val(seq!['0']) == 0 * 10 + ('0' as u32 - 48));
    } else {
        lemma_digits_val_prepend_zero(ds.drop_last());
        let whole = seq!['0'] + ds;
        assert(whole.drop_last() =~= seq!['0'] + ds.drop_last());
        assert(whole.last() == ds.last());
    }
}

/// Any count of zero digits on the left preserves a digit run's value.
proof fn lemma_digits_val_prepend_zeros(z: nat, ds: Seq<char>)
    ensures
        digits_val(Seq::new(z, |i: int| '0') + ds) == digits_val(ds),
    decreases z,
{
    if z == 0 {
        assert(Seq::new(0, |i: int| '0') + ds =~= ds);
    } else {
        let rest = Seq::new((z - 1) as nat, |i: int| '0') + ds;
        lemma_digits_val_prepend_zeros((z - 1) as nat, ds);
        lemma_digits_val_prepend_zero(rest);
        assert(Seq::new(z, |i: int| '0') + ds =~= seq!['0'] + rest);
    }
}

/// Left-padding with zero digits preserves a digit run's value.
proof fn lemma_digits_val_zero_pad(ds: Seq<char>, k: nat)
    ensures
        digits_val(zero_pad(ds, k)) == digits_val(ds),
        forall|j: int|
            0 <= j < zero_pad(ds, k).len() && (forall|i: int|
                0 <= i < ds.len() ==> is_digit(#[trigger] ds[i])) ==> is_digit(
                #[trigger] zero_pad(ds, k)[j],
            ),
{
    if ds.len() >= k {
        assert(zero_pad(ds, k) == ds);
    } else {
        let pad = Seq::new((k - ds.len()) as nat, |i: int| '0');
        lemma_digits_val_prepend_zeros((k - ds.len()) as nat, ds);
        assert forall|j: int| 0 <= j < (pad + ds).len() && (forall|i: int|
            0 <= i < ds.len() ==> is_digit(#[trigger] ds[i])) implies is_digit(
            #[trigger] (pad + ds)[j],
        ) by {
            if j < pad.len() {
                assert((pad + ds)[j] == '0');
            } else {
                assert((pad + ds)[j] == ds[j - pad.len()]);
            }
        }
    }
}

/// A digit run ends exactly at the first position that fails to hold a
/// digit.
proof fn lemma_digit_run_end_exact(s: Seq<char>, i: nat, j: nat)
    requires
        i <= j <= s.len(),
        forall|k: int| i <= k < j ==> is_digit(#[trigger] s[k]),
        j == s.len() || !is_digit(s[j as int]),
    ensures
        digit_run_end(s, i) == j,
    decreases j - i,
{
    if i < j {
        lemma_digit_run_end_exact(s, i + 1, j);
    }
}

/// Removing trailing zero digits keeps the value and never grows the
/// mantissa or the scale.
proof fn lemma_strip_spec_value(m: int, s: nat)
    requires
        m >= 0,
    ensures
        ({
            let st = strip_spec(m, s);
            &&& st.0 * pow10(s) == m * pow10(st.1)
            &&& st.1 <= s
            &&& 0 <= st.0 <= m
        }),
    decreases s,
{
    if s > 0 && m % 10 == 0 {
        lemma_strip_spec_value(m / 10, (s - 1) as nat);
        let st = strip_spec(m / 10, (s - 1) as nat);
        vstd::arithmetic::div_mod::lemma_fundamental_div_mod(m, 10);
        crate::decimal::lemma_pow10_pos((s - 1) as nat);
        assert(st.0 * pow10(s) == m * pow10(st.1)) by (nonlinear_arith)
            requires
                st.0 * pow10((s - 1) as nat) == (m / 10) * pow10(st.1),
                pow10(s) == 10 * pow10((s - 1) as nat),
                m == 10 * (m / 10),
        ;
        assert(m / 10 <= m) by (nonlinear_arith)
            requires
                m >= 0,
        ;
    } else {
        crate::decimal::lemma_pow10_pos(s);
    }
}

/// Printing a number and scanning the print back preserves the value: the
/// canonical printed form of a nonnegative in-bounds decimal is one whole
/// numeric literal, in bounds, whose mantissa digits and fraction length
/// stand for the same rational as the printed number. With `scan_token`'s
/// numeric clause this makes the print of a number re-scan to one Number
/// token of equal value.
pub proof fn lemma_rendered_number_scans_back(d: Decimal)
    requires
        d.wf(),
        d.mantissa >= 0,
    ensures
        ({
            let t = render_decimal(d);
            &&& t.len() > 0 && is_digit(t[0])
            &&& number_end(t, 0) == t.len()
            &&& digits_val(num_digits_at(t, 0)) <= MAX_MANTISSA
            &&& num_frac_len_at(t, 0) <= MAX_SCALE
            &&& (Decimal {
                mantissa: digits_val(num_digits_at(t, 0)) as i128,
                scale: num_frac_len_at(t, 0) as u32,
            }).same_value(d)
        }),
{
    let m = d.mantissa as int;
    let s = d.scale as nat;
    lemma_strip_spec_value(m, s);
    let st = strip_spec(m, s);
    let m2 = st.0;
    let s2 = st.1;
    let t = render_decimal(d);
    let ds = nat_chars(m2 as nat);
    lemma_nat_chars_digits(m2 as nat);
    lemma_digits_val_nat_chars(m2 as nat);
    lemma_digits_val_zero_pad(ds, s2 + 1);
    let padded = zero_pad(ds, s2 + 1);
    assert(forall|i: int| 0 <= i < ds.len() ==> is_digit(#[trigger] ds[i]));
    assert(forall|j: int| 0 <= j < padded.len() ==> is_digit(#[trigger] padded[j]));
    assert(padded.len() >= s2 + 1);
    assert(digits_val(padded) == m2);
    crate::decimal::lemma_pow10_pos(s);
    if s2 == 0 {
        assert(t == padded);
        lemma_digit_run_end_exact(t, 0, t.len());
        assert(number_end(t, 0) == t.len());
        assert(t.subrange(0, t.len() as int) =~= t);
        assert(num_digits_at(t, 0) == t);
        assert(digits_val(num_digits_at(t, 0)) == m2);
        assert(num_frac_len_at(t, 0) == 0);
        assert(pow10(0) == 1);
        assert(m2 * pow10(s) == m * pow10(0)) by (nonlinear_arith)
            requires
                m2 * pow10(s) == m * pow10(0nat),
        ;
    } else {
        let cut = padded.len() - s2;
        let a_part = padded.subrange(0, cut);
        let b_part = padded.subrange(cut, padded.len() as int);
        assert(t == a_part + seq!['.'] + b_part);
        assert(t.len() == padded.len() + 1);
        assert(cut >= 1);
        assert forall|k: int| 0 <= k < cut implies is_digit(#[trigger] t[k]) by {
            assert(t[k] == padded[k]);
        }
        assert(t[cut] == '.');
        assert(!is_digit('.'));
        assert forall|k: int| cut < k < t.len() implies is_digit(#[trigger] t[k]) by {
            assert(t[k] == padded[k - 1]);
        }
        lemma_digit_run_end_exact(t, 0, cut as nat);
        assert(digit_run_end(t, 0) == cut);
        assert(cut + 1 < t.len());
        assert(is_digit(t[cut + 1]));
        lemma_digit_run_end_exact(t, (cut + 1) as nat, t.len());
        assert(digit_run_end(t, (cut + 1) as nat) == t.len());
        assert(number_end(t, 0) == t.len());
        assert(num_digits_at(t, 0) == t.subrange(0, cut as int) + t.subrange(
            cut as int + 1,
            t.len() as int,
        ));
        assert(t.subrange(0, cut as int) =~= a_part);
        assert(t.subrange(cut as int + 1, t.len() as int) =~= b_part);
        assert(a_part + b_part =~= padded);
        assert(digits_val(num_digits_at(t, 0)) == m2);
        assert(num_frac_len_at(t, 0) == s2);
    }
}

/// The mathematical shape of one scan result: a token by its kind number,
/// payload text or numeric value, and position, or one of the three error
/// shapes.
pub enum ScanItem {
    TokText { kind: int, text: Seq<char>, line: nat, col: nat },
    TokNum { value: Decimal, line: nat, col: nat },
    ErrUnterminated { line: nat, col: nat },
    ErrUnexpected { character: char, line: nat, col: nat },
    ErrNumber { lexeme: Seq<char>, line: nat, col: nat },
}

/// The payload text of a token type: the characters of an identifier or
/// string literal, nothing for every other kind.
pub open spec fn token_payload_text(tt: TokenType) -> Seq<char> {
    match tt {
        TokenType::Identifier(s) => s@,
        TokenType::Str(s) => s@,
        _ => Seq::empty(),
    }
}

/// A scan result agrees with its mathematical shape.
pub open spec fn item_matches(r: Result<Token, LexerError>, v: ScanItem) -> bool {
    match (r, v) {
        (Ok(t), ScanItem::TokText { kind, text, line, col }) => !(t.token_type is Number)
            && kind_id(t.token_type) == kind && token_payload_text(t.token_type) == text && t.line
            == line && t.col == col,
        (Ok(t), ScanItem::TokNum { value, line, col }) => t.token_type == TokenType::Number(value)
            && t.line == line && t.col == col,
        (Err(e), ScanItem::ErrUnterminated { line, col }) => e == (LexerError::UnterminatedString {
            line: line as usize,
            col: col as usize,
        }),
        (Err(e), ScanItem::ErrUnexpected { character, line, col }) => e
            == (LexerError::UnexpectedCharacter {
            character,
            line: line as usize,
            col: col as usize,
        }),
        (Err(e), ScanItem::ErrNumber { lexeme, line, col }) => e
            matches LexerError::NumberParsingError { lexeme: lx, line: l, col: c } && lx@ == lexeme
            && l == line && c == col,
        _ => false,
    }
}

/// What one scan does from a position, line and column: the produced item,
/// or nothing at the end of the input, and the position, line and column
/// afterwards. Whitespace and comments are consumed by moving on to the
/// next meaningful character.
#[verifier::opaque]
pub open spec fn scan_step(s: Seq<char>, i: nat, line: nat, col: nat) -> (
    Option<ScanItem>,
    nat,
    nat,
    nat,
)
    decreases s.len() - i,
{
    if i >= s.len() {
        (None, i, line, col)
    } else {
        let c = s[i as int];
        if c == '(' {
            (
                Some(ScanItem::TokText { kind: kind_id(TokenType::LeftParen), text: Seq::empty(), line, col: col + 1 }),
                i + 1,
                line,
                col + 1,
            )
        } else if c == ')' {
            (
                Some(ScanItem::TokText { kind: kind_id(TokenType::RightParen), text: Seq::empty(), line, col: col + 1 }),
                i + 1,
                line,
                col + 1,
            )
        } else if c == '{' {
            (
                Some(ScanItem::TokText { kind: kind_id(TokenType::LeftBrace), text: Seq::empty(), line, col: col + 1 }),
                i + 1,
                line,
                col + 1,
            )
        } else if c == '}' {
            (
                Some(ScanItem::TokText { kind: kind_id(TokenType::RightBrace), text: Seq::empty(), line, col: col + 1 }),
                i + 1,
                line,
                col + 1,
            )
        } else if c == ',' {
            (
                Some(ScanItem::TokText { kind: kind_id(TokenType::Comma), text: Seq::empty(), line, col: col + 1 }),
                i + 1,
                line,
                col + 1,
            )
        } else if c == '.' {
            (
                Some(ScanItem::TokText { kind: kind_id(TokenType::Dot), text: Seq::empty(), line, col: col + 1 }),
                i + 1,
                line,
                col + 1,
            )
        } else if c == '-' {
            (
                Some(ScanItem::TokText { kind: kind_id(TokenType::Minus), text: Seq::empty(), line, col: col + 1 }),
                i + 1,
                line,
                col + 1,
            )
        } else if c == '+' {
            (
                Some(ScanItem::TokText { kind: kind_id(TokenType::Plus), text: Seq::empty(), line, col: col + 1 }),
                i + 1,
                line,
                col + 1,
            )
        } else if c == ';' {
            (
                Some(ScanItem::TokText { kind: kind_id(TokenType::Semicolon), text: Seq::empty(), line, col: col + 1 }),
                i + 1,
                line,
                col + 1,
            )
        } else if c == '*' {
            (
                Some(ScanItem::TokText { kind: kind_id(TokenType::Star), text: Seq::empty(), line, col: col + 1 }),
                i + 1,
                line,
                col + 1,
            )
        } else if c == '!' {
            if followed_by_eq(s, i as int) {
                (
                    Some(ScanItem::TokText { kind: kind_id(TokenType::BangEqual), text: Seq::empty(), line, col: col + 2 }),
                    i + 2,
                    line,
                    col + 2,
                )
            } else {
                (
                    Some(ScanItem::TokText { kind: kind_id(TokenType::Bang), text: Seq::empty(), line, col: col + 1 }),
                    i + 1,
                    line,
                    col + 1,
                )
            }
        } else if c == '=' {
            if followed_by_eq(s, i as int) {
                (
                    Some(ScanItem::TokText { kind: kind_id(TokenType::EqualEqual), text: Seq::empty(), line, col: col + 2 }),
                    i + 2,
                    line,
                    col + 2,
                )
            } else {
                (
                    Some(ScanItem::TokText { kind: kind_id(TokenType::Equal), text: Seq::empty(), line, col: col + 1 }),
                    i + 1,
                    line,
                    col + 1,
                )
            }
        } else if c == '<' {
            if followed_by_eq(s, i as int) {
                (
                    Some(ScanItem::TokText { kind: kind_id(TokenType::LessEqual), text: Seq::empty(), line, col: col + 2 }),
                    i + 2,
                    line,
                    col + 2,
                )
            } else {
                (
                    Some(ScanItem::TokText { kind: kind_id(TokenType::Less), text: Seq::empty(), line, col: col + 1 }),
                    i + 1,
                    line,
                    col + 1,
                )
            }
        } else if c == '>' {
            if followed_by_eq(s, i as int) {
                (
                    Some(ScanItem::TokText { kind: kind_id(TokenType::GreaterEqual), text: Seq::empty(), line, col: col + 2 }),
                    i + 2,
                    line,
                    col + 2,
                )
            } else {
                (
                    Some(ScanItem::TokText { kind: kind_id(TokenType::Greater), text: Seq::empty(), line, col: col + 1 }),
                    i + 1,
                    line,
                    col + 1,
                )
            }
        } else if c == '/' {
            if i + 1 < s.len() && s[i as int + 1] == '/' {
                let e = line_end(s, i + 1);
                if e > i && e <= s.len() {
                    scan_step(s, e, line, (col + (e - i)) as nat)
                } else {
                    (None, e, line, col)
                }
            } else {
                (
                    Some(ScanItem::TokText { kind: kind_id(TokenType::Slash), text: Seq::empty(), line, col: col + 1 }),
                    i + 1,
                    line,
                    col + 1,
                )
            }
        } else if c == '"' {
            let q = quote_end(s, i + 1);
            let nl = newline_count(s, i + 1, q);
            if q == s.len() {
                (
                    Some(ScanItem::ErrUnterminated { line: line + nl, col: (col + (q - i)) as nat }),
                    q,
                    line + nl,
                    (col + (q - i)) as nat,
                )
            } else {
                (
                    Some(
                        ScanItem::TokText {
                            // the kind number of a string literal token
                            kind: 20,
                            text: s.subrange(i as int + 1, q as int),
                            line: line + nl,
                            col: (col + (q + 1 - i)) as nat,
                        },
                    ),
                    q + 1,
                    line + nl,
                    (col + (q + 1 - i)) as nat,
                )
            }
        } else if is_digit(c) {
            let e = number_end(s, i);
            let mant = digits_val(num_digits_at(s, i));
            let fl = num_frac_len_at(s, i);
            if mant <= MAX_MANTISSA && fl <= MAX_SCALE {
                (
                    Some(
                        ScanItem::TokNum {
                            value: Decimal { mantissa: mant as i128, scale: fl as u32 },
                            line,
                            col: (col + (e - i)) as nat,
                        },
                    ),
                    e,
                    line,
                    (col + (e - i)) as nat,
                )
            } else {
                (
                    Some(
                        ScanItem::ErrNumber {
                            lexeme: s.subrange(i as int, e as int),
                            line,
                            col: (col + (e - i)) as nat,
                        },
                    ),
                    e,
                    line,
                    (col + (e - i)) as nat,
                )
            }
        } else if is_alpha(c) {
            let e = alnum_run_end(s, i + 1);
            let lex = s.subrange(i as int, e as int);
            let item = match keyword_of(lex) {
                Some(k) => ScanItem::TokText {
                    kind: kind_id(k),
                    text: Seq::empty(),
                    line,
                    col: (col + (e - i)) as nat,
                },
                None => ScanItem::TokText {
                    // the kind number of an identifier token
                    kind: 19,
                    text: lex,
                    line,
                    col: (col + (e - i)) as nat,
                },
            };
            (Some(item), e, line, (col + (e - i)) as nat)
        } else if c == ' ' || c == '\r' || c == '\t' {
            scan_step(s, i + 1, line, col + 1)
        } else if c == '\n' {
            scan_step(s, i + 1, line + 1, 0)
        } else {
            (
                Some(ScanItem::ErrUnexpected { character: c, line, col: col + 1 }),
                i + 1,
                line,
                col + 1,
            )
        }
    }
}

/// Every item a whole scan of the input produces, from a position, line
/// and column on.
pub open spec fn scan_items(s: Seq<char>, i: nat, line: nat, col: nat) -> Seq<ScanItem>
    decreases s.len() - i,
{
    let (o, i2, l2, c2) = scan_step(s, i, line, col);
    match o {
        None => Seq::empty(),
        Some(item) => if i2 > i && i2 <= s.len() {
            seq![item] + scan_items(s, i2, l2, c2)
        } else {
            seq![item]
        },
    }
}

/// The scan produced exactly one token of this type at this position.
pub open spec fn simple_token(
    r: Option<Result<Token, LexerError>>,
    tt: TokenType,
    line: nat,
    col: nat,
) -> bool {
    r == Some(
        Ok::<Token, LexerError>(Token { token_type: tt, line: line as usize, col: col as usize }),
    )
}

/// Whether an equals sign follows position `i`.
pub open spec fn followed_by_eq(s: Seq<char>, i: int) -> bool {
    i + 1 < s.len() && s[i + 1] == '='
}

/// The token an operator character at `i` produces: the two-character kind
/// when an equals sign follows, else the one-character kind.
pub open spec fn two_char_token(
    r: Option<Result<Token, LexerError>>,
    s: Seq<char>,
    i: int,
    single: TokenType,
    double: TokenType,
    line: nat,
    col: nat,
) -> bool {
    if followed_by_eq(s, i) {
        simple_token(r, double, line, col + 2)
    } else {
        simple_token(r, single, line, col + 1)
    }
}

/// One consumed digit extends the accumulated value by one decimal place
/// and moves the end of the digit run one step along.
proof fn lemma_step_digits(s: Seq<char>, i: int, b: int)
    requires
        0 <= i <= b < s.len(),
        is_digit(s[b]),
    ensures
        digit_run_end(s, b as nat) == digit_run_end(s, (b + 1) as nat),
        digits_val(s.subrange(i, b + 1)) == digits_val(s.subrange(i, b)) * 10 + (s[b] as u32
            - 48),
{
    assert(s.subrange(i, b + 1).drop_last() =~= s.subrange(i, b));
    assert(s.subrange(i, b + 1).last() == s[b]);
}

/// The same step, after the point: the accumulated value spans the digits
/// on both sides of it.
proof fn lemma_step_digits_frac(s: Seq<char>, i: int, j: int, b: int)
    requires
        0 <= i <= j,
        j + 1 <= b < s.len(),
        is_digit(s[b]),
    ensures
        digit_run_end(s, b as nat) == digit_run_end(s, (b + 1) as nat),
        digits_val(s.subrange(i, j) + s.subrange(j + 1, b + 1)) == digits_val(
            s.subrange(i, j) + s.subrange(j + 1, b),
        ) * 10 + (s[b] as u32 - 48),
{
    let whole = s.subrange(i, j) + s.subrange(j + 1, b + 1);
    assert(whole.drop_last() =~= s.subrange(i, j) + s.subrange(j + 1, b));
    assert(whole.last() == s[b]);
}

/// Extending a span one character to the right adds that character's
/// newline, if it is one, to the count.
proof fn lemma_newline_count_step(s: Seq<char>, a: nat, b: nat)
    requires
        a <= b < s.len(),
    ensures
        newline_count(s, a, b + 1) == newline_count(s, a, b) + (if s[b as int] == '\n' {
            1nat
        } else {
            0nat
        }),
    decreases b - a,
{
    if a < b {
        lemma_newline_count_step(s, a + 1, b);
        assert(newline_count(s, a, b + 1) == (if s[a as int] == '\n' {
            1nat
        } else {
            0nat
        }) + newline_count(s, a + 1, b + 1));
        assert(newline_count(s, a, b) == (if s[a as int] == '\n' {
            1nat
        } else {
            0nat
        }) + newline_count(s, a + 1, b));
    } else {
        assert(newline_count(s, b + 1, b + 1) == 0);
        assert(newline_count(s, b, b + 1) == (if s[b as int] == '\n' {
            1nat
        } else {
            0nat
        }) + newline_count(s, b + 1, b + 1));
    }
}

/// The lexer, walking one cursor and keeping line and column counts.
#[derive(Debug)]
pub struct Lexer {
    source: Cursor,
    start: usize,
    current: usize,
    line: usize,
    col: usize,
}

impl Lexer {
    /// The characters being scanned.
    pub closed spec fn chars(&self) -> Seq<char> {
        self.source.chars()
    }

    /// The position of the next unconsumed character.
    pub closed spec fn at(&self) -> nat {
        self.current as nat
    }

    /// The position where the token being scanned began.
    pub closed spec fn token_start(&self) -> nat {
        self.start as nat
    }

    /// The current line, counted from 1.
    pub closed spec fn cur_line(&self) -> nat {
        self.line as nat
    }

    /// The current column: how many characters of the line are consumed.
    pub closed spec fn cur_col(&self) -> nat {
        self.col as nat
    }

    /// The bookkeeping that scanning keeps intact: the cursor needle and the
    /// `current` count agree, positions stay in range, and the line count
    /// cannot outrun the consumed characters.
    pub closed spec fn wf(&self) -> bool {
        &&& self.source.wf()
        &&& self.source.pos() == self.current as nat
        &&& self.start <= self.current
        &&& self.current as nat <= self.chars().len()
        &&& self.col <= self.current
        &&& 1 <= self.line <= 1 + self.current
        &&& self.chars().len() + 1 < usize::MAX
    }

    pub fn new(source: &str) -> (l: Lexer)
        requires
            source@.len() + 1 < usize::MAX,
        ensures
            l.wf(),
            l.chars() == source@,
            l.at() == 0,
            l.cur_line() == 1,
            l.cur_col() == 0,
    {
        Lexer { source: Cursor::new(source), start: 0, current: 0, line: 1, col: 0 }
    }

    /// Whether every character has been consumed.
    pub fn is_at_end(&self) -> (r: bool)
        requires
            self.wf(),
        ensures
            r == (self.at() == self.chars().len()),
    {
        self.source.is_at_end()
    }

    /// Advances the cursor needle and the lexer's own counts together.
    fn advance(&mut self) -> (r: Option<char>)
        requires
            old(self).wf(),
        ensures
            final(self).wf(),
            final(self).chars() == old(self).chars(),
            final(self).token_start() == old(self).token_start(),
            final(self).cur_line() == old(self).cur_line(),
            old(self).at() < old(self).chars().len() ==> {
                &&& r == Some(old(self).chars()[old(self).at() as int])
                &&& final(self).at() == old(self).at() + 1
                &&& final(self).cur_col() == old(self).cur_col() + 1
            },
            old(self).at() == old(self).chars().len() ==> {
                &&& r is None
                &&& final(self).at() == old(self).at()
                &&& final(self).cur_col() == old(self).cur_col()
            },
    {
        let next_char = self.source.next();
        if next_char.is_some() {
            self.col = self.col + 1;
            self.current = self.current + 1;
        }
        next_char
    }

    /// A token of the given type at the current line and column.
    fn create_token(&self, token_type: TokenType) -> (t: Token)
        ensures
            t.token_type == token_type,
            t.line == self.cur_line(),
            t.col == self.cur_col(),
    {
        Token { token_type, line: self.line, col: self.col }
    }

    /// Produces the next meaningful token, or an error value for one bad
    /// token, or nothing once the input is exhausted. Whitespace and line
    /// comments are consumed and never returned. The clauses below pin the
    /// result down for each class of starting character; a whitespace or
    /// comment start is resolved by the token that follows it.
    pub fn scan_token(&mut self) -> (r: Option<Result<Token, LexerError>>)
        requires
            old(self).wf(),
        ensures
            final(self).wf(),
            final(self).chars() == old(self).chars(),
            r is None ==> final(self).at() == old(self).chars().len(),
            r is Some ==> old(self).at() < final(self).at() <= old(self).chars().len(),
            (match r {
                Some(Ok(t)) => t.wf(),
                _ => true,
            }),
            (match r {
                Some(Ok(t)) => !(t.token_type is Whitespace) && !(t.token_type is Comment) && !(
                t.token_type is Eof),
                _ => true,
            }),
            ({
                let (ov, i2, l2, c2) = scan_step(
                    old(self).chars(),
                    old(self).at(),
                    old(self).cur_line(),
                    old(self).cur_col(),
                );
                &&& (match (r, ov) {
                    (None, None) => true,
                    (Some(x), Some(v)) => item_matches(x, v),
                    _ => false,
                })
                &&& final(self).at() == i2
                &&& final(self).cur_line() == l2
                &&& final(self).cur_col() == c2
            }),
            ({
                let s = old(self).chars();
                let i = old(self).at() as int;
                let line0 = old(self).cur_line();
                let col0 = old(self).cur_col();
                i < s.len() ==> {
                    let c = s[i];
                    &&& (c == '(' ==> simple_token(r, TokenType::LeftParen, line0, col0 + 1)
                        && final(self).at() == i + 1)
                    &&& (c == ')' ==> simple_token(r, TokenType::RightParen, line0, col0 + 1)
                        && final(self).at() == i + 1)
                    &&& (c == '{' ==> simple_token(r, TokenType::LeftBrace, line0, col0 + 1)
                        && final(self).at() == i + 1)
                    &&& (c == '}' ==> simple_token(r, TokenType::RightBrace, line0, col0 + 1)
                        && final(self).at() == i + 1)
                    &&& (c == ',' ==> simple_token(r, TokenType::Comma, line0, col0 + 1)
                        && final(self).at() == i + 1)
                    &&& (c == '.' ==> simple_token(r, TokenType::Dot, line0, col0 + 1)
                        && final(self).at() == i + 1)
                    &&& (c == '-' ==> simple_token(r, TokenType::Minus, line0, col0 + 1)
                        && final(self).at() == i + 1)
                    &&& (c == '+' ==> simple_token(r, TokenType::Plus, line0, col0 + 1)
                        && final(self).at() == i + 1)
                    &&& (c == ';' ==> simple_token(r, TokenType::Semicolon, line0, col0 + 1)
                        && final(self).at() == i + 1)
                    &&& (c == '*' ==> simple_token(r, TokenType::Star, line0, col0 + 1)
                        && final(self).at() == i + 1)
                    &&& (c == '!' ==> two_char_token(
                        r, s, i, TokenType::Bang, TokenType::BangEqual, line0, col0,
                    ) && final(self).at() == (if followed_by_eq(s, i) { i + 2 } else { i + 1 }))
                    &&& (c == '=' ==> two_char_token(
                        r, s, i, TokenType::Equal, TokenType::EqualEqual, line0, col0,
                    ) && final(self).at() == (if followed_by_eq(s, i) { i + 2 } else { i + 1 }))
                    &&& (c == '<' ==> two_char_token(
                        r, s, i, TokenType::Less, TokenType::LessEqual, line0, col0,
                    ) && final(self).at() == (if followed_by_eq(s, i) { i + 2 } else { i + 1 }))
                    &&& (c == '>' ==> two_char_token(
                        r, s, i, TokenType::Greater, TokenType::GreaterEqual, line0, col0,
                    ) && final(self).at() == (if followed_by_eq(s, i) { i + 2 } else { i + 1 }))
                    &&& (c == '/' && !(i + 1 < s.len() && s[i + 1] == '/') ==> simple_token(
                        r, TokenType::Slash, line0, col0 + 1,
                    ) && final(self).at() == i + 1)
                    &&& (c == '"' ==> {
                        let q = quote_end(s, (i + 1) as nat);
                        let nl = newline_count(s, (i + 1) as nat, q);
                        &&& (q == s.len() ==> (r matches Some(rr) && rr matches Err(e)
                            && e matches LexerError::UnterminatedString { line, col }
                            && line == line0 + nl && col == col0 + (q - i))
                            && final(self).at() == s.len())
                        &&& (q < s.len() ==> (r matches Some(rr) && rr matches Ok(t)
                            && t.token_type matches TokenType::Str(p) && p@ == s.subrange(
                            i + 1,
                            q as int,
                        ) && t.line == line0 + nl && t.col == col0 + (q + 1 - i))
                            && final(self).at() == q + 1)
                    })
                    &&& (is_digit(c) ==> {
                        let e = number_end(s, i as nat);
                        let mant = digits_val(num_digits_at(s, i as nat));
                        let fl = num_frac_len_at(s, i as nat);
                        &&& final(self).at() == e
                        &&& (mant <= MAX_MANTISSA && fl <= MAX_SCALE ==> r == Some(
                            Ok::<Token, LexerError>(
                                Token {
                                    token_type: TokenType::Number(
                                        Decimal { mantissa: mant as i128, scale: fl as u32 },
                                    ),
                                    line: line0 as usize,
                                    col: (col0 + e - i) as usize,
                                },
                            ),
                        ))
                        &&& (!(mant <= MAX_MANTISSA && fl <= MAX_SCALE) ==> (r matches Some(rr)
                            && rr matches Err(e2)
                            && e2 matches LexerError::NumberParsingError { lexeme, line, col }
                            && lexeme@ == s.subrange(i, e as int) && line == line0 && col == col0
                            + (e - i)))
                    })
                    &&& (is_alpha(c) ==> {
                        let e = alnum_run_end(s, (i + 1) as nat);
                        let lex = s.subrange(i, e as int);
                        &&& final(self).at() == e
                        &&& (match keyword_of(lex) {
                            Some(k) => simple_token(r, k, line0, (col0 + (e - i)) as nat),
                            None => r matches Some(rr) && rr matches Ok(t) && t.token_type
                                matches TokenType::Identifier(x) && x@ == lex && t.line == line0
                                && t.col == col0 + (e - i),
                        })
                    })
                    &&& (!is_ws(c) && !is_digit(c) && !is_alpha(c) && c != '(' && c != ')' && c
                        != '{' && c != '}' && c != ',' && c != '.' && c != '-' && c != '+' && c
                        != ';' && c != '*' && c != '!' && c != '=' && c != '<' && c != '>' && c
                        != '/' && c != '"' ==> (r matches Some(rr) && rr matches Err(e)
                        && e matches LexerError::UnexpectedCharacter { character, line, col }
                        && character == c && line == line0 && col == col0 + 1)
                        && final(self).at() == i + 1)
                }
            }),
        decreases old(self).chars().len() - old(self).at(),
    {
        proof {
            reveal(scan_step);
        }
        self.start = self.current;
        let c = match self.advance() {
            Some(c) => c,
            None => {
                return None;
            },
        };
        match c {
            '(' => Some(Ok(self.create_token(TokenType::LeftParen))),
            ')' => Some(Ok(self.create_token(TokenType::RightParen))),
            '{' => Some(Ok(self.create_token(TokenType::LeftBrace))),
            '}' => Some(Ok(self.create_token(TokenType::RightBrace))),
            ',' => Some(Ok(self.create_token(TokenType::Comma))),
            '.' => Some(Ok(self.create_token(TokenType::Dot))),
            '-' => Some(Ok(self.create_token(TokenType::Minus))),
            '+' => Some(Ok(self.create_token(TokenType::Plus))),
            ';' => Some(Ok(self.create_token(TokenType::Semicolon))),
            '*' => Some(Ok(self.create_token(TokenType::Star))),
            '!' => {
                let tt = if self.peek_is_eq() {
                    let _ = self.advance();
                    TokenType::BangEqual
                } else {
                    TokenType::Bang
                };
                Some(Ok(self.create_token(tt)))
            },
            '=' => {
                let tt = if self.peek_is_eq() {
                    let _ = self.advance();
                    TokenType::EqualEqual
                } else {
                    TokenType::Equal
                };
                Some(Ok(self.create_token(tt)))
            },
            '<' => {
                let tt = if self.peek_is_eq() {
                    let _ = self.advance();
                    TokenType::LessEqual
                } else {
                    TokenType::Less
                };
                Some(Ok(self.create_token(tt)))
            },
            '>' => {
                let tt = if self.peek_is_eq() {
                    let _ = self.advance();
                    TokenType::GreaterEqual
                } else {
                    TokenType::Greater
                };
                Some(Ok(self.create_token(tt)))
            },
            '/' => {
                let comment = match self.source.peek() {
                    Some(c2) => c2 == '/',
                    None => false,
                };
                if comment {
                    self.skip_line_comment();
                    self.scan_token()
                } else {
                    Some(Ok(self.create_token(TokenType::Slash)))
                }
            },
            '"' => {
                match self.handle_string_literal() {
                    Ok(tt) => Some(Ok(self.create_token(tt))),
                    Err(e) => Some(Err(e)),
                }
            },
            _ => {
                if is_digit_exec(c) {
                    match self.handle_numeric_literal() {
                        Ok(tt) => Some(Ok(self.create_token(tt))),
                        Err(e) => Some(Err(e)),
                    }
                } else if is_alpha_exec(c) {
                    match self.handle_identifier() {
                        Ok(tt) => Some(Ok(self.create_token(tt))),
                        Err(e) => Some(Err(e)),
                    }
                } else if c == ' ' || c == '\r' || c == '\t' {
                    self.scan_token()
                } else if c == '\n' {
                    self.line = self.line + 1;
                    self.col = 0;
                    self.scan_token()
                } else {
                    self.start = self.current;
                    Some(
                        Err(
                            LexerError::UnexpectedCharacter {
                                character: c,
                                line: self.line,
                                col: self.col,
                            },
                        ),
                    )
                }
            },
        }
    }

    /// Whether the next unconsumed character is an equals sign.
    fn peek_is_eq(&self) -> (r: bool)
        requires
            self.wf(),
        ensures
            r == followed_by_eq(self.chars(), self.at() as int - 1),
    {
        match self.source.peek() {
            Some(c) => c == '=',
            None => false,
        }
    }

    /// Consumes a line comment: everything up to, but not including, the
    /// next newline.
    fn skip_line_comment(&mut self)
        requires
            old(self).wf(),
        ensures
            final(self).wf(),
            final(self).chars() == old(self).chars(),
            final(self).cur_line() == old(self).cur_line(),
            final(self).at() == line_end(old(self).chars(), old(self).at()),
            old(self).at() <= final(self).at(),
            final(self).cur_col() == old(self).cur_col() + (final(self).at() - old(self).at()),
    {
        let ghost s = self.chars();
        loop
            invariant
                self.wf(),
                self.chars() == s,
                self.cur_line() == old(self).cur_line(),
                old(self).at() <= self.at() <= s.len(),
                line_end(s, self.at()) == line_end(s, old(self).at()),
                self.cur_col() == old(self).cur_col() + (self.at() - old(self).at()),
            ensures
                self.wf(),
                self.chars() == s,
                self.cur_line() == old(self).cur_line(),
                old(self).at() <= self.at() <= s.len(),
                self.at() == line_end(s, old(self).at()),
                self.cur_col() == old(self).cur_col() + (self.at() - old(self).at()),
            decreases s.len() - self.at(),
        {
            let p = self.source.peek();
            let c = match p {
                Some(c) => c,
                None => {
                    break ;
                },
            };
            if c == '\n' {
                break ;
            }
            let _ = self.advance();
        }
    }

    /// Scans the rest of a numeric literal, the first digit being already
    /// consumed: a maximal digit run, a point only when a digit follows it,
    /// then another maximal run. Yields the exact decimal value, or an
    /// error when the value has no in-bounds representation.
    fn handle_numeric_literal(&mut self) -> (r: Result<TokenType, LexerError>)
        requires
            old(self).wf(),
            old(self).at() == old(self).token_start() + 1,
            is_digit(old(self).chars()[old(self).token_start() as int]),
        ensures
            final(self).wf(),
            final(self).chars() == old(self).chars(),
            old(self).at() <= final(self).at(),
            final(self).token_start() == old(self).token_start(),
            final(self).cur_line() == old(self).cur_line(),
            final(self).at() == number_end(old(self).chars(), old(self).token_start()),
            final(self).cur_col() == old(self).cur_col() + (final(self).at() - old(self).at()),
            r matches Ok(tt) ==> (match tt {
                TokenType::Number(dd) => dd.wf(),
                _ => true,
            }),
            ({
                let s = old(self).chars();
                let i = old(self).token_start();
                let mant = digits_val(num_digits_at(s, i));
                let fl = num_frac_len_at(s, i);
                if mant <= MAX_MANTISSA && fl <= MAX_SCALE {
                    r == Ok::<TokenType, LexerError>(
                        TokenType::Number(
                            Decimal { mantissa: mant as i128, scale: fl as u32 },
                        ),
                    )
                } else {
                    r matches Err(LexerError::NumberParsingError { lexeme, line, col })
                        && lexeme@ == s.subrange(i as int, number_end(s, i) as int)
                        && line == final(self).cur_line() && col == final(self).cur_col()
                }
            }),
    {
        let ghost s = self.chars();
        let ghost i = self.token_start();
        let first = match self.source.peek_prev() {
            Some(c) => c,
            None => {
                proof {
                    assert(false);
                }
                '0'
            },
        };
        let mut m: u128 = (first as u32 - 48) as u128;
        let mut over: bool = false;
        proof {
            let one = s.subrange(i as int, i as int + 1);
            assert(one.len() == 1);
            assert(one.last() == s[i as int]);
            assert(one.drop_last() =~= Seq::<char>::empty());
            assert(digits_val(Seq::<char>::empty()) == 0);
            assert(digits_val(one) == 0 * 10 + (s[i as int] as u32 - 48));
        }
        loop
            invariant
                self.wf(),
                self.chars() == s,
                self.token_start() == i,
                self.cur_line() == old(self).cur_line(),
                i < self.at() <= s.len(),
                self.cur_col() == old(self).cur_col() + (self.at() - old(self).at()),
                digit_run_end(s, self.at()) == digit_run_end(s, i),
                m <= MAX_MANTISSA as u128,
                !over ==> m == digits_val(s.subrange(i as int, self.at() as int)),
                over ==> digits_val(s.subrange(i as int, self.at() as int)) > MAX_MANTISSA,
            ensures
                self.wf(),
                self.chars() == s,
                self.token_start() == i,
                self.cur_line() == old(self).cur_line(),
                i < self.at() <= s.len(),
                self.cur_col() == old(self).cur_col() + (self.at() - old(self).at()),
                self.at() == digit_run_end(s, i),
                m <= MAX_MANTISSA as u128,
                !over ==> m == digits_val(s.subrange(i as int, self.at() as int)),
                over ==> digits_val(s.subrange(i as int, self.at() as int)) > MAX_MANTISSA,
            decreases s.len() - self.at(),
        {
            let next = self.source.peek();
            match next {
                Some(c) => {
                    if !is_digit_exec(c) {
                        break ;
                    }
                },
                None => {
                    break ;
                },
            }
            let ghost before = self.at();
            let c = match self.advance() {
                Some(c) => c,
                None => {
                    proof {
                        assert(false);
                    }
                    '0'
                },
            };
            proof {
                lemma_step_digits(s, i as int, before as int);
            }
            let d = (c as u32 - 48) as u128;
            if !over {
                let m2 = m * 10 + d;
                if m2 > MAX_MANTISSA as u128 {
                    over = true;
                } else {
                    m = m2;
                }
            }
        }
        let ghost j = digit_run_end(s, i);
        let mut fcount: usize = 0;
        let dot = self.source.peek();
        let after_dot = self.source.peek_nth(1);
        let mut has_frac = false;
        match (dot, after_dot) {
            (Some(dc), Some(fc)) => {
                if dc == '.' && is_digit_exec(fc) {
                    has_frac = true;
                }
            },
            _ => {},
        }
        proof {
            lemma_digit_run_end_bounds(s, i);
        }
        if has_frac {
            let _ = self.advance();
            loop
                invariant
                    self.wf(),
                    self.chars() == s,
                    self.token_start() == i,
                    self.cur_line() == old(self).cur_line(),
                    i <= j && j + 1 <= self.at() <= s.len(),
                    j == digit_run_end(s, i),
                    j + 1 < s.len() && s[j as int] == '.' && is_digit(s[j as int + 1]),
                    self.cur_col() == old(self).cur_col() + (self.at() - old(self).at()),
                    digit_run_end(s, self.at()) == digit_run_end(s, j + 1),
                    fcount == self.at() - (j + 1),
                    m <= MAX_MANTISSA as u128,
                    !over ==> m == digits_val(
                        s.subrange(i as int, j as int) + s.subrange(
                            j as int + 1,
                            self.at() as int,
                        ),
                    ),
                    over ==> digits_val(
                        s.subrange(i as int, j as int) + s.subrange(
                            j as int + 1,
                            self.at() as int,
                        ),
                    ) > MAX_MANTISSA,
                ensures
                    self.wf(),
                    self.chars() == s,
                    self.token_start() == i,
                    self.cur_line() == old(self).cur_line(),
                    self.cur_col() == old(self).cur_col() + (self.at() - old(self).at()),
                    self.at() == digit_run_end(s, j + 1),
                    fcount == self.at() - (j + 1),
                    m <= MAX_MANTISSA as u128,
                    !over ==> m == digits_val(
                        s.subrange(i as int, j as int) + s.subrange(
                            j as int + 1,
                            self.at() as int,
                        ),
                    ),
                    over ==> digits_val(
                        s.subrange(i as int, j as int) + s.subrange(
                            j as int + 1,
                            self.at() as int,
                        ),
                    ) > MAX_MANTISSA,
                decreases s.len() - self.at(),
            {
                let next = self.source.peek();
                match next {
                    Some(c) => {
                        if !is_digit_exec(c) {
                            break ;
                        }
                    },
                    None => {
                        break ;
                    },
                }
                let ghost before = self.at();
                let c = match self.advance() {
                    Some(c) => c,
                    None => {
                        proof {
                            assert(false);
                        }
                        '0'
                    },
                };
                proof {
                    lemma_step_digits_frac(s, i as int, j as int, before as int);
                }
                let d = (c as u32 - 48) as u128;
                if !over {
                    let m2 = m * 10 + d;
                    if m2 > MAX_MANTISSA as u128 {
                        over = true;
                    } else {
                        m = m2;
                    }
                }
                fcount = fcount + 1;
            }
        }
        proof {
            if !has_frac {
                assert(number_end(s, i) == j);
                assert(num_digits_at(s, i) == s.subrange(i as int, j as int));
                assert(num_frac_len_at(s, i) == 0);
            }
        }
        if over || fcount > MAX_SCALE as usize {
            let lexeme = self.get_lexeme();
            Err(
                LexerError::NumberParsingError {
                    lexeme,
                    line: self.line,
                    col: self.col,
                },
            )
        } else {
            Ok(TokenType::Number(Decimal { mantissa: m as i128, scale: fcount as u32 }))
        }
    }

    /// Scans a string literal, the opening quote being already consumed:
    /// everything through the next double quote, counting embedded
    /// newlines. Reaching the end of the input first is an error.
    fn handle_string_literal(&mut self) -> (r: Result<TokenType, LexerError>)
        requires
            old(self).wf(),
            old(self).at() == old(self).token_start() + 1,
        ensures
            final(self).wf(),
            final(self).chars() == old(self).chars(),
            old(self).at() <= final(self).at(),
            final(self).token_start() == old(self).token_start(),
            ({
                let s = old(self).chars();
                let a = old(self).at();
                let q = quote_end(s, a);
                &&& final(self).cur_line() == old(self).cur_line() + newline_count(s, a, q)
                &&& if q == s.len() {
                    &&& r matches Err(LexerError::UnterminatedString { line, col })
                        && line == final(self).cur_line() && col == final(self).cur_col()
                    &&& final(self).at() == s.len()
                    &&& final(self).cur_col() == old(self).cur_col() + (q - a)
                } else {
                    &&& r matches Ok(t) && t matches TokenType::Str(p) && p@ == s.subrange(
                        a as int,
                        q as int,
                    )
                    &&& final(self).at() == q + 1
                    &&& final(self).cur_col() == old(self).cur_col() + (q + 1 - a)
                }
            }),
    {
        let ghost s = self.chars();
        let ghost a = self.at();
        proof {
            lemma_quote_end_bounds(s, a);
        }
        loop
            invariant
                self.wf(),
                self.chars() == s,
                self.token_start() == old(self).token_start(),
                a <= self.at() <= s.len(),
                quote_end(s, self.at()) == quote_end(s, a),
                self.cur_line() == old(self).cur_line() + newline_count(s, a, self.at()),
                self.cur_col() == old(self).cur_col() + (self.at() - a),
            ensures
                self.wf(),
                self.chars() == s,
                self.token_start() == old(self).token_start(),
                a <= self.at() <= s.len(),
                self.at() == quote_end(s, a),
                self.cur_line() == old(self).cur_line() + newline_count(s, a, self.at()),
                self.cur_col() == old(self).cur_col() + (self.at() - a),
            decreases s.len() - self.at(),
        {
            let p = self.source.peek();
            let c = match p {
                Some(c) => c,
                None => {
                    break ;
                },
            };
            if c == '"' {
                break ;
            }
            let ghost before = self.at();
            let _ = self.advance();
            if c == '\n' {
                self.line = self.line + 1;
            }
            proof {
                lemma_newline_count_step(s, a, before);
            }
        }
        if self.is_at_end() {
            Err(LexerError::UnterminatedString { line: self.line, col: self.col })
        } else {
            let _ = self.advance();
            let payload = match self.source.substring(self.start + 1, self.current - 1) {
                Some(p) => p,
                None => {
                    proof {
                        assert(false);
                    }
                    String::new()
                },
            };
            Ok(TokenType::Str(payload))
        }
    }

    /// Scans an identifier or keyword, the first character being already
    /// consumed: a maximal run of letters, digits and underscores, matched
    /// against the reserved words.
    fn handle_identifier(&mut self) -> (r: Result<TokenType, LexerError>)
        requires
            old(self).wf(),
            old(self).at() == old(self).token_start() + 1,
        ensures
            final(self).wf(),
            final(self).chars() == old(self).chars(),
            old(self).at() <= final(self).at(),
            final(self).token_start() == old(self).token_start(),
            final(self).cur_line() == old(self).cur_line(),
            final(self).at() == alnum_run_end(old(self).chars(), old(self).at()),
            final(self).cur_col() == old(self).cur_col() + (final(self).at() - old(self).at()),
            ({
                let s = old(self).chars();
                let lex = s.subrange(old(self).token_start() as int, final(self).at() as int);
                match keyword_of(lex) {
                    Some(k) => r == Ok::<TokenType, LexerError>(k),
                    None => r matches Ok(t) && t matches TokenType::Identifier(x) && x@ == lex,
                }
            }),
    {
        let ghost s = self.chars();
        let ghost a = self.at();
        loop
            invariant
                self.wf(),
                self.chars() == s,
                self.token_start() == old(self).token_start(),
                a <= self.at() <= s.len(),
                alnum_run_end(s, self.at()) == alnum_run_end(s, a),
                self.cur_line() == old(self).cur_line(),
                self.cur_col() == old(self).cur_col() + (self.at() - a),
            ensures
                self.wf(),
                self.chars() == s,
                self.token_start() == old(self).token_start(),
                a <= self.at() <= s.len(),
                self.at() == alnum_run_end(s, a),
                self.cur_line() == old(self).cur_line(),
                self.cur_col() == old(self).cur_col() + (self.at() - a),
            decreases s.len() - self.at(),
        {
            let p = self.source.peek();
            let c = match p {
                Some(c) => c,
                None => {
                    break ;
                },
            };
            if !is_alnum_exec(c) {
                break ;
            }
            let _ = self.advance();
        }
        let literal = self.get_lexeme();
        match keyword_lookup(&literal) {
            Some(keyword_type) => Ok(keyword_type),
            None => Ok(TokenType::Identifier(literal)),
        }
    }

    /// Scans the whole input: one entry per token position, each a token or
    /// the error value for one bad token.
    pub fn scan_all_tokens(self) -> (r: Vec<Result<Token, LexerError>>)
        requires
            self.wf(),
        ensures
            forall|k: int|
                0 <= k < r@.len() ==> ((#[trigger] r@[k]) matches Ok(t) ==> t.wf()),
            ({
                let items = scan_items(self.chars(), self.at(), self.cur_line(), self.cur_col());
                r@.len() == items.len() && forall|k: int|
                    0 <= k < items.len() ==> item_matches(#[trigger] r@[k], items[k])
            }),
    {
        let ghost s0 = self.chars();
        let ghost i0 = self.at();
        let ghost l0 = self.cur_line();
        let ghost c0 = self.cur_col();
        let mut lexer = self;
        let mut out: Vec<Result<Token, LexerError>> = Vec::new();
        let ghost mut done: Seq<ScanItem> = Seq::empty();
        loop
            invariant_except_break
                scan_items(s0, i0, l0, c0) == done + scan_items(
                    s0,
                    lexer.at(),
                    lexer.cur_line(),
                    lexer.cur_col(),
                ),
            invariant
                lexer.wf(),
                lexer.chars() == s0,
                out@.len() == done.len(),
                forall|k: int| 0 <= k < done.len() ==> item_matches(#[trigger] out@[k], done[k]),
                forall|k: int|
                    0 <= k < out@.len() ==> ((#[trigger] out@[k]) matches Ok(t) ==> t.wf()),
            ensures
                scan_items(s0, i0, l0, c0) == done,
                out@.len() == done.len(),
                forall|k: int| 0 <= k < done.len() ==> item_matches(#[trigger] out@[k], done[k]),
                forall|k: int|
                    0 <= k < out@.len() ==> ((#[trigger] out@[k]) matches Ok(t) ==> t.wf()),
            decreases lexer.chars().len() - lexer.at(),
        {
            let ghost pre_at = lexer.at();
            let ghost pre_l = lexer.cur_line();
            let ghost pre_c = lexer.cur_col();
            let ghost pre_done = done;
            match lexer.scan_token() {
                Some(res) => {
                    proof {
                        let (ov, i2, l2, c2) = scan_step(s0, pre_at, pre_l, pre_c);
                        assert(ov is Some && i2 == lexer.at() && pre_at < i2 <= s0.len());
                        if let Some(v) = ov {
                            done = done.push(v);
                            assert(scan_items(s0, pre_at, pre_l, pre_c) == seq![v] + scan_items(
                                s0,
                                i2,
                                l2,
                                c2,
                            ));
                            assert(pre_done + (seq![v] + scan_items(s0, i2, l2, c2)) =~= done
                                + scan_items(s0, i2, l2, c2));
                        } else {
                            assert(false);
                        }
                    }
                    out.push(res);
                },
                None => {
                    proof {
                        assert(scan_items(s0, pre_at, pre_l, pre_c) =~= Seq::<ScanItem>::empty());
                        assert(done + Seq::<ScanItem>::empty() =~= done);
                    }
                    break ;
                },
            }
        }
        out
    }

    /// The source text between the token start and the needle.
    fn get_lexeme(&self) -> (r: String)
        requires
            self.wf(),
        ensures
            r@ == self.chars().subrange(self.token_start() as int, self.at() as int),
    {
        let sub = self.source.substring(self.start, self.current);
        match sub {
            Some(s) => s,
            None => {
                proof {
                    assert(false);
                }
                String::new()
            },
        }
    }
}

} // verus!
