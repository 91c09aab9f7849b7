//! Tokens of assembler source.
use vstd::prelude::*;

verus! {

#[derive(Clone, Debug, PartialEq, Eq)]
pub enum Token {
    Identifier(String),
    Number(i32),
    /// A string literal with its escapes resolved.
    Str(Vec<char>),
    Colon,
    Comma,
    LParen,
    RParen,
    LBrace,
    RBrace,
    Lt,
    Gt,
    Eq,
    Neq,
    Le,
    Ge,
    Assign,
    Plus,
    Minus,
    Asterisk,
    Slash,
    Percent,
    Shl,
    Shr,
    LogicalAnd,
    LogicalOr,
    Not,
    BitAnd,
    BitOr,
    BitXor,
    BitNot,
    Semicolon,
    Eol,
    /// Text that forms no token, such as a number that does not fit.
    Error,
}


/// A token and the characters it came from, `start` to `end` exclusive.
#[derive(Clone, Debug, PartialEq, Eq)]
pub struct SpannedToken {
    pub token: Token,
    pub start: usize,
    pub end: usize,
}

/// Value of a digit character in `base`, if it is one.
pub open spec fn digit_of(c: char, base: u32) -> Option<u32> {
    let v: int = if '0' <= c <= '9' {
        c as int - '0' as int
    } else if 'a' <= c <= 'f' {
        c as int - 'a' as int + 10
    } else if 'A' <= c <= 'F' {
        c as int - 'A' as int + 10
    } else {
        99
    };
    if v < base {
        Some(v as u32)
    } else {
        None
    }
}

pub fn digit_value(c: char, base: u32) -> (r: Option<u32>)
    requires
        2 <= base <= 16,
    ensures
        r == digit_of(c, base),
{
    let v: u32 = if '0' <= c && c <= '9' {
        (c as u32) - ('0' as u32)
    } else if 'a' <= c && c <= 'f' {
        (c as u32) - ('a' as u32) + 10
    } else if 'A' <= c && c <= 'F' {
        (c as u32) - ('A' as u32) + 10
    } else {
        99
    };
    if v < base {
        Some(v)
    } else {
        None
    }
}

/// Value of a run of digits in `base`, underscores ignored.
pub open spec fn digits_value(s: Seq<char>, base: u32) -> int
    decreases s.len(),
{
    if s.len() == 0 {
        0
    } else if s.last() == '_' {
        digits_value(s.drop_last(), base)
    } else {
        digits_value(s.drop_last(), base) * base + digit_of(s.last(), base)->Some_0
    }
}

pub open spec fn all_digits(s: Seq<char>, base: u32) -> bool {
    forall|i: int| 0 <= i < s.len() ==> (#[trigger] s[i]) == '_' || digit_of(s[i], base) is Some
}

proof fn lemma_digits_value_grows(s: Seq<char>, base: u32, n: int)
    requires
        2 <= base <= 16,
        0 <= n <= s.len(),
        all_digits(s, base),
    ensures
        digits_value(s.subrange(0, n), base) <= digits_value(s, base),
        0 <= digits_value(s.subrange(0, n), base),
    decreases s.len(),
{
    if s.len() == 0 {
        assert(s.subrange(0, n) =~= s);
    } else if n == s.len() {
        assert(s.subrange(0, n) =~= s);
        lemma_digits_value_grows(s.drop_last(), base, n - 1);
        assert(s.drop_last().subrange(0, n - 1) =~= s.drop_last());
    } else {
        lemma_digits_value_grows(s.drop_last(), base, n);
        assert(s.drop_last().subrange(0, n) =~= s.subrange(0, n));
        lemma_digits_value_grows(s.drop_last(), base, s.len() - 1);
        assert(s.drop_last().subrange(0, s.len() - 1) =~= s.drop_last());
        assert(s.last() == '_' || digit_of(s.last(), base) is Some);
        assert(digits_value(s.drop_last(), base) * base >= digits_value(s.drop_last(), base)) by (nonlinear_arith)
            requires digits_value(s.drop_last(), base) >= 0, base >= 2;
    }
}

/// Value of the digits of `s` from `start` to `end` in `base`, underscores
/// ignored; `None` when it is above the largest 32 bit signed value.
pub fn parse_num(s: &Vec<char>, start: usize, end: usize, base: u32) -> (r: Option<i32>)
    requires
        2 <= base <= 16,
        start <= end <= s@.len(),
        all_digits(s@.subrange(start as int, end as int), base),
    ensures
        digits_value(s@.subrange(start as int, end as int), base) <= i32::MAX ==> r == Some(
            digits_value(s@.subrange(start as int, end as int), base) as i32,
        ),
        digits_value(s@.subrange(start as int, end as int), base) > i32::MAX ==> r is None,
{
    let ghost t = s@.subrange(start as int, end as int);
    let mut acc: i32 = 0;
    let mut i: usize = start;
    while i < end
        invariant
            2 <= base <= 16,
            start <= i <= end <= s@.len(),
            t == s@.subrange(start as int, end as int),
            all_digits(t, base),
            acc as int == digits_value(s@.subrange(start as int, i as int), base),
        decreases end - i,
    {
        let c = s[i];
        proof {
            assert(s@.subrange(start as int, i + 1).drop_last() =~= s@.subrange(start as int, i as int));
            assert(s@.subrange(start as int, i + 1).last() == c);
            assert(t[i - start] == c);
        }
        if c != '_' {
            let d = digit_value(c, base).unwrap();
            let m = acc.checked_mul(base as i32);
            let next = match m {
                Some(x) => x.checked_add(d as i32),
                None => None,
            };
            match next {
                Some(x) => {
                    acc = x;
                },
                None => {
                    proof {
                        lemma_digits_value_grows(t, base, i + 1 - start);
                        assert(t.subrange(0, i + 1 - start) =~= s@.subrange(start as int, i + 1));
                        assert(digits_value(s@.subrange(start as int, i as int), base) >= 0) by {
                            lemma_digits_value_grows(t, base, i - start);
                            assert(t.subrange(0, i - start) =~= s@.subrange(start as int, i as int));
                        }
                    }
                    return None;
                },
            }
        }
        i = i + 1;
    }
    Some(acc)
}


/// Relies on `String::from_iter`: the string holds the given characters in
/// order.
#[verifier::external_body]
pub(crate) fn string_of(src: &Vec<char>, start: usize, end: usize) -> (r: String)
    requires
        start <= end <= src@.len(),
    ensures
        r@ == src@.subrange(start as int, end as int),
{
    String::from_iter(&src[start..end])
}

/// Relies on `char::from_u32`: it gives the character exactly for Unicode
/// scalar values, that is below 0xD800 or from 0xE000 to 0x10FFFF.
#[verifier::external_body]
fn char_from_u32(v: u32) -> (r: Option<char>)
    ensures
        r is Some <==> (v < 0xD800 || (0xE000 <= v && v <= 0x10FFFF)),
        r matches Some(c) ==> c as u32 == v && c == char_of_code(v),
{
    char::from_u32(v)
}

pub open spec fn is_ident_start(c: char) -> bool {
    ('a' <= c <= 'z') || ('A' <= c <= 'Z') || c == '_' || c == '.'
}

pub open spec fn is_ident_char(c: char) -> bool {
    is_ident_start(c) || ('0' <= c <= '9')
}

/// A token with its text as a sequence, for stating what the lexer gives.
pub enum TokenView {
    Identifier(Seq<char>),
    Str(Seq<char>),
    /// Any other token, which holds no text.
    Plain(Token),
}

pub open spec fn token_view(t: Token) -> TokenView {
    match t {
        Token::Identifier(s) => TokenView::Identifier(s@),
        Token::Str(v) => TokenView::Str(v@),
        _ => TokenView::Plain(t),
    }
}

pub open spec fn spanned_view(t: SpannedToken) -> (TokenView, int, int) {
    (token_view(t.token), t.start as int, t.end as int)
}

pub open spec fn is_control(c: char) -> bool {
    (c as u32) < 0x20 || c as u32 == 0x7f
}

/// Tab, vertical tab, form feed, carriage return and space.
pub open spec fn is_blank(c: char) -> bool {
    c == '\t' || c as u32 == 0x0b || c as u32 == 0x0c || c == '\r' || c == ' '
}

/// End of the run of digits of `base` and underscores from `i`.
pub open spec fn digits_end(src: Seq<char>, i: int, base: u32) -> int
    decreases src.len() - i,
{
    if 0 <= i < src.len() && (src[i] == '_' || digit_of(src[i], base) is Some) {
        digits_end(src, i + 1, base)
    } else {
        i
    }
}

/// End of the run of underscores from `i`.
pub open spec fn underscores_end(src: Seq<char>, i: int) -> int
    decreases src.len() - i,
{
    if 0 <= i < src.len() && src[i] == '_' {
        underscores_end(src, i + 1)
    } else {
        i
    }
}

/// End of the run of identifier characters from `i`.
pub open spec fn ident_end(src: Seq<char>, i: int) -> int
    decreases src.len() - i,
{
    if 0 <= i < src.len() && is_ident_char(src[i]) {
        ident_end(src, i + 1)
    } else {
        i
    }
}

/// Position of the first newline from `i`, or the end.
pub open spec fn line_end(src: Seq<char>, i: int) -> int
    decreases src.len() - i,
{
    if 0 <= i < src.len() && src[i] != '\n' {
        line_end(src, i + 1)
    } else {
        i
    }
}

/// Number token of the digits from `s` to `e`: their value, or `Error`
/// above the largest 32 bit signed value.
pub open spec fn number_of(src: Seq<char>, s: int, e: int, base: u32) -> Token {
    if digits_value(src.subrange(s, e), base) <= i32::MAX {
        Token::Number(digits_value(src.subrange(s, e), base) as i32)
    } else {
        Token::Error
    }
}

/// Number token at `pos`, which holds a decimal digit, and where it ends. A
/// `0x`, `0o` or `0b` prefix (either case) selects the base; such a prefix
/// with no digit after it, underscores aside, is `Error`.
pub open spec fn spec_number(src: Seq<char>, pos: int) -> (Token, int) {
    let base: u32 = if src[pos] == '0' && pos + 1 < src.len() {
        if src[pos + 1] == 'x' || src[pos + 1] == 'X' {
            16
        } else if src[pos + 1] == 'o' || src[pos + 1] == 'O' {
            8
        } else if src[pos + 1] == 'b' || src[pos + 1] == 'B' {
            2
        } else {
            10
        }
    } else {
        10
    };
    if base == 10 {
        (number_of(src, pos, digits_end(src, pos, 10), 10), digits_end(src, pos, 10))
    } else {
        let i = underscores_end(src, pos + 2);
        if i < src.len() && digit_of(src[i], base) is Some {
            (number_of(src, pos + 2, digits_end(src, pos + 2, base), base), digits_end(src, pos + 2, base))
        } else {
            (Token::Error, i)
        }
    }
}

/// The character with the given code, where there is one.
pub open spec fn char_of_code(v: u32) -> char {
    choose|c: char| #[trigger] (c as u32) == v
}

pub open spec fn is_scalar(v: int) -> bool {
    v < 0xD800 || (0xE000 <= v && v <= 0x10FFFF)
}

/// Rest of a string literal from `i`, with `out` read so far and `ok`
/// false once an escape was bad: the token and where it ends.
pub open spec fn string_from(src: Seq<char>, i: int, out: Seq<char>, ok: bool) -> (TokenView, int)
    decreases src.len() - i,
{
    if i < 0 || i >= src.len() {
        (TokenView::Plain(Token::Error), i)
    } else {
        let c = src[i];
        if c == '"' {
            if ok {
                (TokenView::Str(out), i + 1)
            } else {
                (TokenView::Plain(Token::Error), i + 1)
            }
        } else if is_control(c) {
            (TokenView::Plain(Token::Error), i)
        } else if c == '\\' {
            if i + 1 >= src.len() {
                (TokenView::Plain(Token::Error), i + 1)
            } else {
                let e = src[i + 1];
                let j = i + 2;
                if is_control(e) {
                    (TokenView::Plain(Token::Error), i + 1)
                } else if e == '"' {
                    string_from(src, j, out.push('"'), ok)
                } else if e == '\\' {
                    string_from(src, j, out.push('\\'), ok)
                } else if e == 'n' {
                    string_from(src, j, out.push('\n'), ok)
                } else if e == 'r' {
                    string_from(src, j, out.push('\r'), ok)
                } else if e == 't' {
                    string_from(src, j, out.push('\t'), ok)
                } else if e == '0' {
                    string_from(src, j, out.push('\0'), ok)
                } else if e == 'u' && j < src.len() && src[j] == '{' {
                    let start = j + 1;
                    let end = digits_end(src, start, 16);
                    if start < end && end - start <= 6 && end < src.len() && src[end] == '}'
                        && !src.subrange(start, end).contains('_') {
                        let v = digits_value(src.subrange(start, end), 16);
                        if v <= i32::MAX && is_scalar(v) {
                            string_from(src, end + 1, out.push(char_of_code(v as u32)), ok)
                        } else {
                            string_from(src, end + 1, out, false)
                        }
                    } else {
                        string_from(src, j, out, false)
                    }
                } else {
                    string_from(src, j, out, false)
                }
            }
        } else {
            string_from(src, i + 1, out.push(c), ok)
        }
    }
}

/// Operator or punctuation token at `pos` and where it ends: two
/// characters where they form one, else one; `Error` for a character that
/// starts no token.
pub open spec fn spec_symbol(src: Seq<char>, pos: int) -> (Token, int) {
    let c = src[pos];
    let n = if pos + 1 < src.len() { src[pos + 1] } else { ' ' };
    if c == '=' && n == '=' {
        (Token::Eq, pos + 2)
    } else if c == '!' && n == '=' {
        (Token::Neq, pos + 2)
    } else if c == '<' && n == '=' {
        (Token::Le, pos + 2)
    } else if c == '>' && n == '=' {
        (Token::Ge, pos + 2)
    } else if c == '<' && n == '<' {
        (Token::Shl, pos + 2)
    } else if c == '>' && n == '>' {
        (Token::Shr, pos + 2)
    } else if c == '&' && n == '&' {
        (Token::LogicalAnd, pos + 2)
    } else if c == '|' && n == '|' {
        (Token::LogicalOr, pos + 2)
    } else if c == ':' {
        (Token::Colon, pos + 1)
    } else if c == ',' {
        (Token::Comma, pos + 1)
    } else if c == '(' {
        (Token::LParen, pos + 1)
    } else if c == ')' {
        (Token::RParen, pos + 1)
    } else if c == '{' {
        (Token::LBrace, pos + 1)
    } else if c == '}' {
        (Token::RBrace, pos + 1)
    } else if c == '<' {
        (Token::Lt, pos + 1)
    } else if c == '>' {
        (Token::Gt, pos + 1)
    } else if c == '=' {
        (Token::Assign, pos + 1)
    } else if c == '+' {
        (Token::Plus, pos + 1)
    } else if c == '-' {
        (Token::Minus, pos + 1)
    } else if c == '*' {
        (Token::Asterisk, pos + 1)
    } else if c == '/' {
        (Token::Slash, pos + 1)
    } else if c == '%' {
        (Token::Percent, pos + 1)
    } else if c == '!' {
        (Token::Not, pos + 1)
    } else if c == '&' {
        (Token::BitAnd, pos + 1)
    } else if c == '|' {
        (Token::BitOr, pos + 1)
    } else if c == '^' {
        (Token::BitXor, pos + 1)
    } else if c == '~' {
        (Token::BitNot, pos + 1)
    } else if c == ';' {
        (Token::Semicolon, pos + 1)
    } else if c == '\n' {
        (Token::Eol, pos + 1)
    } else {
        (Token::Error, pos + 1)
    }
}

/// Tokens of the characters from `pos` on, with their spans. Blanks are
/// skipped; a `#` comment up to a newline, with the newline, is one `Eol`,
/// and a comment that runs to the end is skipped.
pub open spec fn spec_lex(src: Seq<char>, pos: int) -> Seq<(TokenView, int, int)>
    decreases src.len() - pos,
{
    if pos < 0 || pos >= src.len() {
        seq![]
    } else {
        let c = src[pos];
        if is_blank(c) {
            spec_lex(src, pos + 1)
        } else if c == '#' {
            let e = line_end(src, pos);
            if pos <= e < src.len() {
                seq![(TokenView::Plain(Token::Eol), pos, e + 1)] + spec_lex(src, e + 1)
            } else {
                seq![]
            }
        } else {
            let (t, e) = if is_ident_start(c) {
                (TokenView::Identifier(src.subrange(pos, ident_end(src, pos + 1))), ident_end(src, pos + 1))
            } else if '0' <= c <= '9' {
                (TokenView::Plain(spec_number(src, pos).0), spec_number(src, pos).1)
            } else if c == '"' {
                string_from(src, pos + 1, seq![], true)
            } else {
                (TokenView::Plain(spec_symbol(src, pos).0), spec_symbol(src, pos).1)
            };
            if e <= pos || e > src.len() {
                seq![]
            } else {
                seq![(t, pos, e)] + spec_lex(src, e)
            }
        }
    }
}

/// End of the run of characters from `pos` that are digits of `base` or
/// underscores.
fn scan_digits(src: &Vec<char>, pos: usize, base: u32) -> (r: usize)
    requires
        pos <= src@.len(),
        2 <= base <= 16,
    ensures
        pos <= r <= src@.len(),
        r == digits_end(src@, pos as int, base),
        all_digits(src@.subrange(pos as int, r as int), base),
        r < src@.len() ==> src@[r as int] != '_' && digit_of(src@[r as int], base) is None,
{
    let mut i = pos;
    while i < src.len() && (src[i] == '_' || digit_value(src[i], base).is_some())
        invariant
            pos <= i <= src@.len(),
            2 <= base <= 16,
            all_digits(src@.subrange(pos as int, i as int), base),
            digits_end(src@, pos as int, base) == digits_end(src@, i as int, base),
        decreases src@.len() - i,
    {
        proof {
            assert forall|k: int| 0 <= k < i + 1 - pos implies (#[trigger] src@.subrange(pos as int, i + 1)[k]) == '_' || digit_of(src@.subrange(pos as int, i + 1)[k], base) is Some by {
                if k < i - pos {
                    assert(src@.subrange(pos as int, i + 1)[k] == src@.subrange(pos as int, i as int)[k]);
                }
            }
        }
        i = i + 1;
    }
    i
}

/// A number token from `pos`, which holds a decimal digit. On return, the
/// token and where it ends.
fn number_token(src: &Vec<char>, pos: usize) -> (r: (Token, usize))
    requires
        pos < src@.len(),
        '0' <= src@[pos as int] <= '9',
    ensures
        pos < r.1 <= src@.len(),
        r.0 is Number || r.0 is Error,
        (r.0, r.1 as int) == spec_number(src@, pos as int),
{
    let len = src.len();
    let c = src[pos];
    let mut base: u32 = 10;
    if c == '0' && pos + 1 < src.len() {
        let p = src[pos + 1];
        if p == 'x' || p == 'X' {
            base = 16;
        } else if p == 'o' || p == 'O' {
            base = 8;
        } else if p == 'b' || p == 'B' {
            base = 2;
        }
    }
    if base == 10 {
        let end = scan_digits(src, pos, 10);
        assert(digit_of(src@[pos as int], 10) is Some);
        match parse_num(src, pos, end, 10) {
            Some(v) => (Token::Number(v), end),
            None => (Token::Error, end),
        }
    } else {
        let start = pos + 2;
        let mut i = start;
        while i < src.len() && src[i] == '_'
            invariant
                start <= i <= src@.len(),
                underscores_end(src@, start as int) == underscores_end(src@, i as int),
            decreases src@.len() - i,
        {
            i = i + 1;
        }
        if i < src.len() && digit_value(src[i], base).is_some() {
            let end = scan_digits(src, start, base);
            match parse_num(src, start, end, base) {
                Some(v) => (Token::Number(v), end),
                None => (Token::Error, end),
            }
        } else {
            (Token::Error, i)
        }
    }
}

/// A string literal token from the opening quote at `pos`: the string with
/// its escapes resolved, or `Error` for a bad escape or a literal that a
/// control character or the end of the input cuts short.
fn string_token(src: &Vec<char>, pos: usize) -> (r: (Token, usize))
    requires
        pos < src@.len(),
        src@[pos as int] == '"',
    ensures
        pos < r.1 <= src@.len(),
        r.0 is Str || r.0 is Error,
        (token_view(r.0), r.1 as int) == string_from(src@, pos + 1, seq![], true),
{
    let len = src.len();
    let mut out: Vec<char> = Vec::new();
    let mut ok = true;
    let mut i = pos + 1;
    while i < len
        invariant
            pos < i <= src@.len(),
            len == src@.len(),
            string_from(src@, pos + 1, seq![], true) == string_from(src@, i as int, out@, ok),
        decreases src@.len() - i,
    {
        let ghost gi = i as int;
        let ghost gout = out@;
        let ghost gok = ok;
        let c = src[i];
        if c == '"' {
            if ok {
                return (Token::Str(out), i + 1);
            } else {
                return (Token::Error, i + 1);
            }
        } else if (c as u32) < 0x20 || c as u32 == 0x7f {
            return (Token::Error, i);
        } else if c == '\\' {
            if i + 1 >= len {
                return (Token::Error, i + 1);
            }
            let e = src[i + 1];
            if (e as u32) < 0x20 || e as u32 == 0x7f {
                return (Token::Error, i + 1);
            }
            i = i + 2;
            if e == '"' {
                out.push('"');
            } else if e == '\\' {
                out.push('\\');
            } else if e == 'n' {
                out.push('\n');
            } else if e == 'r' {
                out.push('\r');
            } else if e == 't' {
                out.push('\t');
            } else if e == '0' {
                out.push('\0');
            } else if e == 'u' && i < len && src[i] == '{' {
                let start = i + 1;
                let end = scan_digits(src, start, 16);
                if start < end && end - start <= 6 && end < len && src[end] == '}' && !has_underscore(src, start, end) {
                    proof {
                        lemma_digits_bound(src@.subrange(start as int, end as int));
                    }
                    match parse_num(src, start, end, 16) {
                        Some(v) => match char_from_u32(v as u32) {
                            Some(ch) => out.push(ch),
                            None => ok = false,
                        },
                        None => ok = false,
                    }
                    i = end + 1;
                } else {
                    ok = false;
                }
            } else {
                ok = false;
            }
            proof {
                assert(src@[gi] == c && src@[gi + 1] == e);
            }
        } else {
            out.push(c);
            i = i + 1;
        }
        assert(string_from(src@, gi, gout, gok) == string_from(src@, i as int, out@, ok));
    }
    (Token::Error, i)
}

/// A run of at most six hex digits stays below 2^24.
proof fn lemma_digits_bound(s: Seq<char>)
    requires
        s.len() <= 6,
        all_digits(s, 16),
    ensures
        0 <= digits_value(s, 16) < 0x100_0000,
{
    lemma_digits_bound_n(s, s.len() as int);
    lemma_pow16_mono(s.len() as int, 6);
    assert(pow16(6) == 0x100_0000) by {
        reveal_with_fuel(pow16, 7);
    }
}

proof fn lemma_pow16_mono(a: int, b: int)
    requires
        0 <= a <= b,
    ensures
        1 <= pow16(a) <= pow16(b),
    decreases b,
{
    if a < b {
        lemma_pow16_mono(a, b - 1);
    } else if a > 0 {
        lemma_pow16_mono(a - 1, a - 1);
    }
}

proof fn lemma_digits_bound_n(s: Seq<char>, n: int)
    requires
        n == s.len(),
        n <= 6,
        all_digits(s, 16),
    ensures
        0 <= digits_value(s, 16) < pow16(n),
    decreases n,
{
    if n > 0 {
        let t = s.drop_last();
        assert(all_digits(t, 16)) by {
            assert forall|i: int| 0 <= i < t.len() implies (#[trigger] t[i]) == '_' || digit_of(t[i], 16) is Some by {
                assert(t[i] == s[i]);
            }
        }
        lemma_digits_bound_n(t, n - 1);
        assert(s.last() == s[n - 1]);
        let d = digits_value(t, 16);
        if s.last() != '_' {
            let x = digit_of(s.last(), 16)->Some_0;
            assert(x < 16);
            assert(d * 16 + x < pow16(n)) by (nonlinear_arith)
                requires
                    0 <= d < pow16(n - 1),
                    x < 16,
                    pow16(n) == 16 * pow16(n - 1),
            ;
        } else {
            assert(pow16(n - 1) <= pow16(n));
        }
    }
}

pub open spec fn pow16(n: int) -> int
    decreases n,
{
    if n <= 0 {
        1
    } else {
        16 * pow16(n - 1)
    }
}

fn has_underscore(src: &Vec<char>, start: usize, end: usize) -> (r: bool)
    requires
        start <= end <= src@.len(),
    ensures
        r == src@.subrange(start as int, end as int).contains('_'),
{
    let mut i = start;
    while i < end
        invariant
            start <= i <= end <= src@.len(),
            forall|k: int| start <= k < i ==> src@[k] != '_',
        decreases end - i,
    {
        if src[i] == '_' {
            assert(src@.subrange(start as int, end as int)[i - start] == '_');
            return true;
        }
        i = i + 1;
    }
    assert forall|k: int| 0 <= k < end - start implies src@.subrange(start as int, end as int)[k] != '_' by {
        assert(src@.subrange(start as int, end as int)[k] == src@[start + k]);
    }
    false
}

/// Operator or punctuation token at `pos`, two characters long where the
/// input allows, else one; `Error` for a character that starts no token.
fn symbol_token(src: &Vec<char>, pos: usize) -> (r: (Token, usize))
    requires
        pos < src@.len(),
    ensures
        pos < r.1 <= src@.len(),
        !(r.0 is Identifier || r.0 is Number || r.0 is Str),
        (r.0, r.1 as int) == spec_symbol(src@, pos as int),
{
    let len = src.len();
    let c = src[pos];
    let n = if pos + 1 < len {
        src[pos + 1]
    } else {
        ' '
    };
    if c == '=' && n == '=' {
        (Token::Eq, pos + 2)
    } else if c == '!' && n == '=' {
        (Token::Neq, pos + 2)
    } else if c == '<' && n == '=' {
        (Token::Le, pos + 2)
    } else if c == '>' && n == '=' {
        (Token::Ge, pos + 2)
    } else if c == '<' && n == '<' {
        (Token::Shl, pos + 2)
    } else if c == '>' && n == '>' {
        (Token::Shr, pos + 2)
    } else if c == '&' && n == '&' {
        (Token::LogicalAnd, pos + 2)
    } else if c == '|' && n == '|' {
        (Token::LogicalOr, pos + 2)
    } else {
        let t = if c == ':' {
            Token::Colon
        } else if c == ',' {
            Token::Comma
        } else if c == '(' {
            Token::LParen
        } else if c == ')' {
            Token::RParen
        } else if c == '{' {
            Token::LBrace
        } else if c == '}' {
            Token::RBrace
        } else if c == '<' {
            Token::Lt
        } else if c == '>' {
            Token::Gt
        } else if c == '=' {
            Token::Assign
        } else if c == '+' {
            Token::Plus
        } else if c == '-' {
            Token::Minus
        } else if c == '*' {
            Token::Asterisk
        } else if c == '/' {
            Token::Slash
        } else if c == '%' {
            Token::Percent
        } else if c == '!' {
            Token::Not
        } else if c == '&' {
            Token::BitAnd
        } else if c == '|' {
            Token::BitOr
        } else if c == '^' {
            Token::BitXor
        } else if c == '~' {
            Token::BitNot
        } else if c == ';' {
            Token::Semicolon
        } else if c == '\n' {
            Token::Eol
        } else {
            Token::Error
        };
        (t, pos + 1)
    }
}

/// Spans of the tokens lie in the input, in order, and do not overlap.
pub open spec fn spans_ordered(toks: Seq<SpannedToken>, len: int) -> bool {
    &&& forall|i: int| 0 <= i < toks.len() ==> (#[trigger] toks[i]).start < toks[i].end <= len
    &&& forall|i: int| 0 <= i < toks.len() - 1 ==> (#[trigger] toks[i]).end <= toks[i + 1].start
}

/// What each token says of the characters it came from: an identifier is
/// exactly its characters, which start with a letter, `_` or `.` and go on
/// with those or digits; a number starts with a digit; a string literal
/// starts with a quote.
pub open spec fn tokens_match_text(toks: Seq<SpannedToken>, src: Seq<char>) -> bool {
    forall|i: int| 0 <= i < toks.len() ==> token_matches_text(#[trigger] toks[i], src)
}

pub open spec fn token_matches_text(t: SpannedToken, src: Seq<char>) -> bool {
    &&& t.start < t.end <= src.len()
    &&& t.token matches Token::Identifier(s) ==> s@ == src.subrange(t.start as int, t.end as int)
        && is_ident_start(src[t.start as int])
        && forall|k: int| t.start <= k < t.end ==> is_ident_char(#[trigger] src[k])
    &&& t.token is Number ==> '0' <= src[t.start as int] <= '9'
    &&& t.token is Str ==> src[t.start as int] == '"'
}

/// Tokens of assembler source given as characters. Blanks are skipped, and
/// a `#` comment up to the end of the line with the newline that ends it is
/// one `Eol` token.
/// The token that starts at `pos`, if any, and where lexing goes on.
fn lex_one(src: &Vec<char>, pos: usize) -> (r: (Option<SpannedToken>, usize))
    requires
        pos < src@.len(),
    ensures
        pos < r.1 <= src@.len(),
        spec_lex(src@, pos as int) == match r.0 {
            Some(t) => seq![spanned_view(t)] + spec_lex(src@, r.1 as int),
            None => spec_lex(src@, r.1 as int),
        },
        r.0 matches Some(t) ==> t.start == pos && t.end == r.1 && token_matches_text(t, src@),
{
    let len = src.len();
    let c = src[pos];
    if c == '\t' || c as u32 == 0x0b || c as u32 == 0x0c || c == '\r' || c == ' ' {
        return (None, pos + 1);
    }
    if c == '#' {
        let mut i = pos;
        while i < len && src[i] != '\n'
            invariant
                pos <= i <= src@.len(),
                len == src@.len(),
                line_end(src@, pos as int) == line_end(src@, i as int),
            decreases src@.len() - i,
        {
            i = i + 1;
        }
        if i < len {
            let t = SpannedToken { token: Token::Eol, start: pos, end: i + 1 };
            return (Some(t), i + 1);
        } else {
            return (None, i);
        }
    }
    let (token, end) = if ('a' <= c && c <= 'z') || ('A' <= c && c <= 'Z') || c == '_' || c == '.' {
        let mut i = pos + 1;
        while i < len && (('a' <= src[i] && src[i] <= 'z') || ('A' <= src[i] && src[i] <= 'Z')
            || src[i] == '_' || src[i] == '.' || ('0' <= src[i] && src[i] <= '9'))
            invariant
                pos < i <= src@.len(),
                len == src@.len(),
                is_ident_start(src@[pos as int]),
                forall|k: int| pos <= k < i ==> is_ident_char(#[trigger] src@[k]),
                ident_end(src@, pos + 1) == ident_end(src@, i as int),
            decreases src@.len() - i,
        {
            i = i + 1;
        }
        let name = string_of(src, pos, i);
        (Token::Identifier(name), i)
    } else if '0' <= c && c <= '9' {
        number_token(src, pos)
    } else if c == '"' {
        string_token(src, pos)
    } else {
        symbol_token(src, pos)
    };
    let t = SpannedToken { token, start: pos, end };
    proof {
        assert(token_matches_text(t, src@));
    }
    (Some(t), end)
}

/// Tokens of assembler source given as characters, as `spec_lex` gives
/// them: blanks are skipped, and a `#` comment up to the end of the line
/// with the newline that ends it is one `Eol` token.
pub fn tokenize_chars(src: &Vec<char>) -> (r: Vec<SpannedToken>)
    ensures
        r@.map_values(|t: SpannedToken| spanned_view(t)) == spec_lex(src@, 0),
        spans_ordered(r@, src@.len() as int),
        tokens_match_text(r@, src@),
        src@.len() == 0 ==> r@.len() == 0,
{
    let mut r: Vec<SpannedToken> = Vec::new();
    let mut pos: usize = 0;
    proof {
        assert(r@.map_values(|t: SpannedToken| spanned_view(t)) =~= seq![]);
        assert(spec_lex(src@, 0) =~= seq![] + spec_lex(src@, 0));
    }
    while pos < src.len()
        invariant
            pos <= src@.len(),
            spans_ordered(r@, src@.len() as int),
            tokens_match_text(r@, src@),
            r@.len() > 0 ==> r@.last().end <= pos,
            spec_lex(src@, 0) == r@.map_values(|t: SpannedToken| spanned_view(t)) + spec_lex(src@, pos as int),
        decreases src@.len() - pos,
    {
        let (tok, next) = lex_one(src, pos);
        match tok {
            None => {},
            Some(t) => {
                let ghost before = r@;
                r.push(t);
                proof {
                    assert(r@.map_values(|t: SpannedToken| spanned_view(t)) =~= before.map_values(
                        |t: SpannedToken| spanned_view(t),
                    ).push(spanned_view(t)));
                    assert(before.map_values(|t: SpannedToken| spanned_view(t)) + (seq![spanned_view(t)]
                        + spec_lex(src@, next as int)) =~= r@.map_values(|t: SpannedToken| spanned_view(t))
                        + spec_lex(src@, next as int));
                    assert forall|j: int| 0 <= j < r@.len() implies token_matches_text(#[trigger] r@[j], src@) by {
                        if j < r@.len() - 1 {
                            assert(r@[j] == before[j]);
                        }
                    }
                    assert forall|i: int| 0 <= i < r@.len() - 1 implies (#[trigger] r@[i]).end <= r@[i + 1].start by {
                        if i < r@.len() - 2 {
                            assert(r@[i] == before[i] && r@[i + 1] == before[i + 1]);
                        }
                    }
                }
            },
        }
        pos = next;
    }
    proof {
        assert(spec_lex(src@, pos as int) =~= seq![]);
        assert(r@.map_values(|t: SpannedToken| spanned_view(t)) + seq![] =~= r@.map_values(|t: SpannedToken| spanned_view(t)));
    }
    r
}


/// Tokens of assembler source; see `tokenize_chars`. Positions in the spans
/// count characters.
pub fn tokenize(src: &str) -> (r: Vec<SpannedToken>)
    ensures
        r@.map_values(|t: SpannedToken| spanned_view(t)) == spec_lex(src@, 0),
        spans_ordered(r@, src@.len() as int),
        tokens_match_text(r@, src@),
{
    let n = src.unicode_len();
    let mut chars: Vec<char> = Vec::new();
    let mut i: usize = 0;
    while i < n
        invariant
            n == src@.len(),
            i <= n,
            chars@ == src@.subrange(0, i as int),
        decreases n - i,
    {
        chars.push(src.get_char(i));
        i = i + 1;
        assert(chars@ =~= src@.subrange(0, i as int));
    }
    assert(chars@ =~= src@);
    tokenize_chars(&chars)
}

} // verus!
