use vstd::prelude::*;

verus! {

/// A decimal literal `mantissa / 10^scale`, kept exactly as written.
#[derive(Debug, Clone, Copy, PartialEq, Eq, Structural)]
pub struct Decimal {
    pub mantissa: i64,
    pub scale: u32,
}

impl Decimal {
    pub fn new(mantissa: i64, scale: u32) -> (r: Decimal)
        ensures
            r.mantissa == mantissa,
            r.scale == scale,
    {
        Decimal { mantissa, scale }
    }
}

/// Byte range `start..end` of a token in the source, and the same range counted in characters.
#[derive(Debug, Clone, Copy, PartialEq, Eq, Structural)]
pub struct Span {
    pub start: usize,
    pub end: usize,
    pub char_start: usize,
    pub char_end: usize,
}

#[derive(Debug, PartialEq)]
pub enum Token {
    For,
    Type,
    Struct,
    Ret,
    Arrow,
    DoubleColon,
    OpenBrace,
    CloseBrace,
    OpenParen,
    CloseParen,
    OpenBracket,
    CloseBracket,
    Colon,
    Comma,
    Dot,
    Assign,
    Plus,
    Minus,
    Multiply,
    Divide,
    Str(String),
    Int(i64),
    Decimal(Decimal),
    Ident(String),
    Error,
}

/// What a token is, with its text as a sequence of characters.
pub enum TokenV {
    For,
    Type,
    Struct,
    Ret,
    Arrow,
    DoubleColon,
    OpenBrace,
    CloseBrace,
    OpenParen,
    CloseParen,
    OpenBracket,
    CloseBracket,
    Colon,
    Comma,
    Dot,
    Assign,
    Plus,
    Minus,
    Multiply,
    Divide,
    Str(Seq<char>),
    Int(i64),
    Decimal(Decimal),
    Ident(Seq<char>),
    Error,
}

impl View for Token {
    type V = TokenV;

    open spec fn view(&self) -> TokenV {
        match self {
            Token::For => TokenV::For,
            Token::Type => TokenV::Type,
            Token::Struct => TokenV::Struct,
            Token::Ret => TokenV::Ret,
            Token::Arrow => TokenV::Arrow,
            Token::DoubleColon => TokenV::DoubleColon,
            Token::OpenBrace => TokenV::OpenBrace,
            Token::CloseBrace => TokenV::CloseBrace,
            Token::OpenParen => TokenV::OpenParen,
            Token::CloseParen => TokenV::CloseParen,
            Token::OpenBracket => TokenV::OpenBracket,
            Token::CloseBracket => TokenV::CloseBracket,
            Token::Colon => TokenV::Colon,
            Token::Comma => TokenV::Comma,
            Token::Dot => TokenV::Dot,
            Token::Assign => TokenV::Assign,
            Token::Plus => TokenV::Plus,
            Token::Minus => TokenV::Minus,
            Token::Multiply => TokenV::Multiply,
            Token::Divide => TokenV::Divide,
            Token::Str(s) => TokenV::Str(s@),
            Token::Int(n) => TokenV::Int(*n),
            Token::Decimal(d) => TokenV::Decimal(*d),
            Token::Ident(s) => TokenV::Ident(s@),
            Token::Error => TokenV::Error,
        }
    }
}

pub open spec fn is_space(c: char) -> bool {
    c == ' ' || c == '\t' || c == '\n' || c == '\r'
}

pub open spec fn is_digit(c: char) -> bool {
    '0' <= c && c <= '9'
}

pub open spec fn is_word_char(c: char) -> bool {
    ('a' <= c && c <= 'z') || ('A' <= c && c <= 'Z') || c == '_'
}

/// End of the run of word characters that starts at `i`.
pub open spec fn word_end(s: Seq<char>, i: int) -> int
    decreases s.len() - i,
{
    if 0 <= i < s.len() && is_word_char(s[i]) {
        word_end(s, i + 1)
    } else {
        i
    }
}

/// End of the run of decimal digits that starts at `i`.
pub open spec fn digits_end(s: Seq<char>, i: int) -> int
    decreases s.len() - i,
{
    if 0 <= i < s.len() && is_digit(s[i]) {
        digits_end(s, i + 1)
    } else {
        i
    }
}

/// Position of the first `"` at or after `i`, or the length of `s` when there is none.
pub open spec fn quote_at(s: Seq<char>, i: int) -> int
    decreases s.len() - i,
{
    if 0 <= i < s.len() && s[i] != '"' {
        quote_at(s, i + 1)
    } else {
        i
    }
}

/// The number that a run of decimal digits denotes.
pub open spec fn digits_value(ds: Seq<char>) -> int
    decreases ds.len(),
{
    if ds.len() == 0 {
        0
    } else {
        digits_value(ds.drop_last()) * 10 + (ds.last() as int - '0' as int)
    }
}

pub open spec fn keyword(w: Seq<char>) -> Option<TokenV> {
    if w == seq!['f', 'o', 'r'] {
        Some(TokenV::For)
    } else if w == seq!['t', 'y', 'p', 'e'] {
        Some(TokenV::Type)
    } else if w == seq!['s', 't', 'r', 'u', 'c', 't'] {
        Some(TokenV::Struct)
    } else if w == seq!['r', 'e', 't', 'u', 'r', 'n'] {
        Some(TokenV::Ret)
    } else {
        None
    }
}

/// Where the digits of a number at `i` start: past an optional leading `-`.
pub open spec fn number_digits_start(s: Seq<char>, i: int) -> int {
    if s[i] == '-' {
        i + 1
    } else {
        i
    }
}

/// Whether the digits at `d` go on as `.` followed by at least one digit.
pub open spec fn has_fraction(s: Seq<char>, d: int) -> bool {
    d + 1 < s.len() && s[d] == '.' && is_digit(s[d + 1])
}

/// The longest number literal at `i`: its end, and whether it is a decimal.
pub open spec fn number_at(s: Seq<char>, i: int) -> Option<(int, bool)> {
    let a = number_digits_start(s, i);
    let d = digits_end(s, a);
    if has_fraction(s, d) {
        Some((digits_end(s, d + 1), true))
    } else if d > a {
        Some((d, false))
    } else {
        None
    }
}

pub open spec fn signed(negative: bool, v: int) -> int {
    if negative {
        -v
    } else {
        v
    }
}

pub open spec fn in_i64(v: int) -> bool {
    i64::MIN <= v && v <= i64::MAX
}

/// The token of the number literal `s[i..e]`: an error where its value does not fit.
pub open spec fn number_token(s: Seq<char>, i: int, e: int, decimal: bool) -> TokenV {
    let a = number_digits_start(s, i);
    if decimal {
        let d = digits_end(s, a);
        let m = signed(s[i] == '-', digits_value(s.subrange(a, d) + s.subrange(d + 1, e)));
        let scale = e - (d + 1);
        if in_i64(m) && scale <= u32::MAX {
            TokenV::Decimal(Decimal { mantissa: m as i64, scale: scale as u32 })
        } else {
            TokenV::Error
        }
    } else {
        let v = signed(s[i] == '-', digits_value(s.subrange(a, e)));
        if in_i64(v) {
            TokenV::Int(v as i64)
        } else {
            TokenV::Error
        }
    }
}

pub open spec fn punct(c: char) -> Option<TokenV> {
    if c == '{' {
        Some(TokenV::OpenBrace)
    } else if c == '}' {
        Some(TokenV::CloseBrace)
    } else if c == '(' {
        Some(TokenV::OpenParen)
    } else if c == ')' {
        Some(TokenV::CloseParen)
    } else if c == '[' {
        Some(TokenV::OpenBracket)
    } else if c == ']' {
        Some(TokenV::CloseBracket)
    } else if c == ':' {
        Some(TokenV::Colon)
    } else if c == ',' {
        Some(TokenV::Comma)
    } else if c == '.' {
        Some(TokenV::Dot)
    } else if c == '=' {
        Some(TokenV::Assign)
    } else if c == '+' {
        Some(TokenV::Plus)
    } else if c == '-' {
        Some(TokenV::Minus)
    } else if c == '*' {
        Some(TokenV::Multiply)
    } else if c == '/' {
        Some(TokenV::Divide)
    } else {
        None
    }
}

/// The token that starts at `i` (not whitespace), and where it ends.
pub open spec fn token_at(s: Seq<char>, i: int) -> (TokenV, int) {
    let c = s[i];
    if c == '"' {
        let q = quote_at(s, i + 1);
        if q < s.len() {
            (TokenV::Str(s.subrange(i + 1, q)), q + 1)
        } else {
            (TokenV::Error, i + 1)
        }
    } else if is_word_char(c) {
        let e = word_end(s, i);
        let w = s.subrange(i, e);
        match keyword(w) {
            Some(k) => (k, e),
            None => (TokenV::Ident(w), e),
        }
    } else if number_at(s, i) is Some {
        let (e, decimal) = number_at(s, i)->0;
        (number_token(s, i, e, decimal), e)
    } else if c == '=' && i + 1 < s.len() && s[i + 1] == '>' {
        (TokenV::Arrow, i + 2)
    } else if c == ':' && i + 1 < s.len() && s[i + 1] == ':' {
        (TokenV::DoubleColon, i + 2)
    } else {
        match punct(c) {
            Some(t) => (t, i + 1),
            None => (TokenV::Error, i + 1),
        }
    }
}

pub proof fn lemma_runs_advance(s: Seq<char>, i: int)
    requires
        0 <= i,
    ensures
        word_end(s, i) >= i,
        digits_end(s, i) >= i,
        quote_at(s, i) >= i,
        i <= s.len() ==> word_end(s, i) <= s.len() && digits_end(s, i) <= s.len() && quote_at(
            s,
            i,
        ) <= s.len(),
    decreases s.len() - i,
{
    if i < s.len() {
        lemma_runs_advance(s, i + 1);
    }
}

pub proof fn lemma_token_advances(s: Seq<char>, i: int)
    requires
        0 <= i < s.len(),
    ensures
        i < token_at(s, i).1 <= s.len(),
{
    lemma_runs_advance(s, i);
    lemma_runs_advance(s, i + 1);
    let a = number_digits_start(s, i);
    lemma_runs_advance(s, a);
    let d = digits_end(s, a);
    lemma_runs_advance(s, d + 1);
}

/// The tokens of `s` from position `i` on, each with its character range.
pub open spec fn lex_from(s: Seq<char>, i: int) -> Seq<(TokenV, int, int)>
    decreases s.len() - i,
    via lex_from_decreases
{
    if i < 0 || i >= s.len() {
        Seq::empty()
    } else if is_space(s[i]) {
        lex_from(s, i + 1)
    } else {
        let (t, e) = token_at(s, i);
        seq![(t, i, e)] + lex_from(s, e)
    }
}

#[via_fn]
proof fn lex_from_decreases(s: Seq<char>, i: int) {
    if 0 <= i < s.len() && !is_space(s[i]) {
        lemma_token_advances(s, i);
    }
}

pub proof fn lemma_lex_from_len(s: Seq<char>, i: int)
    requires
        0 <= i <= s.len(),
    ensures
        lex_from(s, i).len() <= s.len() - i,
    decreases s.len() - i,
{
    if i < s.len() {
        if is_space(s[i]) {
            lemma_lex_from_len(s, i + 1);
        } else {
            lemma_token_advances(s, i);
            lemma_lex_from_len(s, token_at(s, i).1);
        }
    }
}

/// The tokens from `i` on lie within `i..s.len()`, each non-empty, in order and without overlap.
pub proof fn lemma_lex_from_ordered(s: Seq<char>, i: int)
    requires
        0 <= i <= s.len(),
    ensures
        forall|k: int|
            0 <= k < lex_from(s, i).len() ==> i <= (#[trigger] lex_from(s, i)[k]).1 < lex_from(
                s,
                i,
            )[k].2 <= s.len(),
        forall|a: int, b: int|
            0 <= a < b < lex_from(s, i).len() ==> (#[trigger] lex_from(s, i)[a]).2 <= (
            #[trigger] lex_from(s, i)[b]).1,
    decreases s.len() - i,
{
    if i < s.len() {
        if is_space(s[i]) {
            lemma_lex_from_ordered(s, i + 1);
            assert(lex_from(s, i) == lex_from(s, i + 1));
        } else {
            lemma_token_advances(s, i);
            let t = token_at(s, i).0;
            let e = token_at(s, i).1;
            lemma_lex_from_ordered(s, e);
            let rest = lex_from(s, e);
            let all = lex_from(s, i);
            assert(all == seq![(t, i, e)] + rest);
            assert forall|k: int| 0 <= k < all.len() implies i <= (#[trigger] all[k]).1 < all[k].2
                <= s.len() by {
                if k > 0 {
                    assert(all[k] == rest[k - 1]);
                }
            }
            assert forall|a: int, b: int| 0 <= a < b < all.len() implies (#[trigger] all[a]).2 <= (
            #[trigger] all[b]).1 by {
                assert(all[b] == rest[b - 1]);
                if a > 0 {
                    assert(all[a] == rest[a - 1]);
                }
            }
        }
    }
}

/// The tokens of a whole source text.
pub open spec fn lex(s: Seq<char>) -> Seq<(TokenV, int, int)> {
    lex_from(s, 0)
}

/// How many bytes UTF-8 takes for `c`.
pub open spec fn utf8_len(c: char) -> nat {
    if (c as u32) < 0x80 {
        1
    } else if (c as u32) < 0x800 {
        2
    } else if (c as u32) < 0x10000 {
        3
    } else {
        4
    }
}

/// Byte offset of character position `i`.
pub open spec fn byte_offset(s: Seq<char>, i: int) -> nat
    decreases i,
{
    if i <= 0 || s.len() == 0 {
        0
    } else if i > s.len() {
        byte_offset(s, s.len() as int)
    } else {
        byte_offset(s, i - 1) + utf8_len(s[i - 1])
    }
}


/// The largest magnitude that a literal may have: that of `i64::MIN`.
pub const MAGNITUDE_LIMIT: u64 = 9223372036854775808;

/// The digits of the number literal that runs from `a` to `e`, with `.` at `d` skipped for a decimal.
pub open spec fn literal_digits(s: Seq<char>, a: int, d: int, e: int, decimal: bool) -> Seq<char> {
    if decimal {
        s.subrange(a, d) + s.subrange(d + 1, e)
    } else {
        s.subrange(a, e)
    }
}

proof fn lemma_digits_value_grows(ds: Seq<char>, k: int, j: int)
    requires
        0 <= k <= j <= ds.len(),
        forall|m: int| 0 <= m < ds.len() ==> is_digit(#[trigger] ds[m]),
    ensures
        digits_value(ds.subrange(0, k)) <= digits_value(ds.subrange(0, j)),
        digits_value(ds.subrange(0, j)) >= 0,
    decreases j,
{
    if j > 0 {
        assert(ds.subrange(0, j).drop_last() =~= ds.subrange(0, j - 1));
        lemma_digits_value_grows(ds, if k < j { k } else { j - 1 }, j - 1);
    }
}

pub fn source_chars(src: &str) -> (r: Vec<char>)
    ensures
        r@ == src@,
{
    let n = src.unicode_len();
    let mut out: Vec<char> = Vec::new();
    let mut i: usize = 0;
    while i < n
        invariant
            n == src@.len(),
            i <= n,
            out@ == src@.subrange(0, i as int),
        decreases n - i,
    {
        out.push(src.get_char(i));
        i += 1;
        assert(out@ =~= src@.subrange(0, i as int));
    }
    assert(out@ =~= src@);
    out
}

fn scan_word_end(cs: &Vec<char>, i: usize) -> (r: usize)
    requires
        i <= cs@.len(),
    ensures
        r == word_end(cs@, i as int),
{
    let mut j = i;
    while j < cs.len() && (('a' <= cs[j] && cs[j] <= 'z') || ('A' <= cs[j] && cs[j] <= 'Z') || cs[j]
        == '_')
        invariant
            i <= j <= cs@.len(),
            word_end(cs@, i as int) == word_end(cs@, j as int),
        decreases cs@.len() - j,
    {
        j += 1;
    }
    j
}

fn scan_digits_end(cs: &Vec<char>, i: usize) -> (r: usize)
    requires
        i <= cs@.len(),
    ensures
        r == digits_end(cs@, i as int),
{
    let mut j = i;
    while j < cs.len() && '0' <= cs[j] && cs[j] <= '9'
        invariant
            i <= j <= cs@.len(),
            digits_end(cs@, i as int) == digits_end(cs@, j as int),
        decreases cs@.len() - j,
    {
        j += 1;
    }
    j
}

fn scan_quote(cs: &Vec<char>, i: usize) -> (r: usize)
    requires
        i <= cs@.len(),
    ensures
        r == quote_at(cs@, i as int),
{
    let mut j = i;
    while j < cs.len() && cs[j] != '"'
        invariant
            i <= j <= cs@.len(),
            quote_at(cs@, i as int) == quote_at(cs@, j as int),
        decreases cs@.len() - j,
    {
        j += 1;
    }
    j
}

proof fn lemma_digits_in_run(s: Seq<char>, i: int)
    requires
        0 <= i <= s.len(),
    ensures
        forall|m: int| i <= m < digits_end(s, i) ==> is_digit(#[trigger] s[m]),
        i <= digits_end(s, i) <= s.len(),
    decreases s.len() - i,
{
    if i < s.len() && is_digit(s[i]) {
        lemma_digits_in_run(s, i + 1);
    }
}

/// The magnitude of the literal's digits, when it is at most `MAGNITUDE_LIMIT`.
fn literal_magnitude(cs: &Vec<char>, a: usize, d: usize, e: usize, decimal: bool) -> (r: Option<u64>)
    requires
        a <= d <= e <= cs@.len(),
        decimal ==> d < e,
        forall|m: int| 0 <= m < literal_digits(cs@, a as int, d as int, e as int, decimal).len()
            ==> is_digit(#[trigger] literal_digits(cs@, a as int, d as int, e as int, decimal)[m]),
    ensures
        ({
            let v = digits_value(literal_digits(cs@, a as int, d as int, e as int, decimal));
            match r {
                Some(m) => v <= MAGNITUDE_LIMIT && m == v,
                None => v > MAGNITUDE_LIMIT,
            }
        }),
{
    let ghost ds = literal_digits(cs@, a as int, d as int, e as int, decimal);
    let n: usize = if decimal { (d - a) + (e - d - 1) } else { e - a };
    assert(ds.len() == n);
    let mut acc: u64 = 0;
    let mut k: usize = 0;
    while k < n
        invariant
            a <= d <= e <= cs@.len(),
            decimal ==> d < e,
            ds == literal_digits(cs@, a as int, d as int, e as int, decimal),
            ds.len() == n,
            forall|m: int| 0 <= m < ds.len() ==> is_digit(#[trigger] ds[m]),
            k <= n,
            acc <= MAGNITUDE_LIMIT,
            acc == digits_value(ds.subrange(0, k as int)),
        decreases n - k,
    {
        let c = if !decimal || k < d - a {
            cs[a + k]
        } else {
            cs[d + 1 + (k - (d - a))]
        };
        assert(c == ds[k as int]);
        assert(ds.subrange(0, k + 1).drop_last() =~= ds.subrange(0, k as int));
        let dig = (c as u32 - '0' as u32) as u64;
        if acc > (MAGNITUDE_LIMIT - dig) / 10 {
            proof {
                lemma_digits_value_grows(ds, k + 1, n as int);
                assert(ds.subrange(0, n as int) =~= ds);
            }
            return None;
        }
        acc = acc * 10 + dig;
        k += 1;
    }
    assert(ds.subrange(0, n as int) =~= ds);
    Some(acc)
}


fn number_token_exec(cs: &Vec<char>, i: usize, e: usize, decimal: bool) -> (r: Token)
    requires
        i < e <= cs@.len(),
        number_at(cs@, i as int) == Some((e as int, decimal)),
    ensures
        r@ == number_token(cs@, i as int, e as int, decimal),
{
    let a: usize = if cs[i] == '-' { i + 1 } else { i };
    let d = scan_digits_end(cs, a);
    proof {
        lemma_digits_in_run(cs@, a as int);
        if decimal {
            lemma_digits_in_run(cs@, d + 1);
        }
        let ds = literal_digits(cs@, a as int, d as int, e as int, decimal);
        assert forall|m: int| 0 <= m < ds.len() implies is_digit(#[trigger] ds[m]) by {
            if decimal && m >= d - a {
                assert(ds[m] == cs@[d + 1 + (m - (d - a))]);
            } else {
                assert(ds[m] == cs@[a + m]);
            }
        }
    }
    let negative = cs[i] == '-';
    let ghost v = digits_value(literal_digits(cs@, a as int, d as int, e as int, decimal));
    proof {
        if !decimal {
            assert(d == e);
        }
        assert(literal_digits(cs@, a as int, d as int, e as int, decimal) == if decimal {
            cs@.subrange(a as int, digits_end(cs@, a as int)) + cs@.subrange(d + 1, e as int)
        } else {
            cs@.subrange(a as int, e as int)
        });
    }
    match literal_magnitude(cs, a, d, e, decimal) {
        None => {
            assert(!in_i64(signed(negative, v)));
            Token::Error
        },
        Some(m) => {
            let value: Option<i64> = if negative {
                if m == MAGNITUDE_LIMIT {
                    Some(i64::MIN)
                } else {
                    Some(-(m as i64))
                }
            } else if m < MAGNITUDE_LIMIT {
                Some(m as i64)
            } else {
                None
            };
            assert(value is Some <==> in_i64(signed(negative, v)));
            assert(value is Some ==> value->0 == signed(negative, v));
            match value {
                None => Token::Error,
                Some(n) => {
                    if decimal {
                        if e - d - 1 <= u32::MAX as usize {
                            Token::Decimal(Decimal { mantissa: n, scale: (e - d - 1) as u32 })
                        } else {
                            Token::Error
                        }
                    } else {
                        Token::Int(n)
                    }
                },
            }
        },
    }
}

/// The text `src[a..b]`, counted in characters, as an owned string.
fn text_between(src: &str, a: usize, b: usize) -> (r: String)
    requires
        a <= b <= src@.len(),
    ensures
        r@ == src@.subrange(a as int, b as int),
{
    src.substring_char(a, b).to_owned()
}

fn punct_exec(c: char) -> (r: Option<Token>)
    ensures
        match punct(c) {
            Some(t) => r is Some && r->0@ == t,
            None => r is None,
        },
{
    if c == '{' {
        Some(Token::OpenBrace)
    } else if c == '}' {
        Some(Token::CloseBrace)
    } else if c == '(' {
        Some(Token::OpenParen)
    } else if c == ')' {
        Some(Token::CloseParen)
    } else if c == '[' {
        Some(Token::OpenBracket)
    } else if c == ']' {
        Some(Token::CloseBracket)
    } else if c == ':' {
        Some(Token::Colon)
    } else if c == ',' {
        Some(Token::Comma)
    } else if c == '.' {
        Some(Token::Dot)
    } else if c == '=' {
        Some(Token::Assign)
    } else if c == '+' {
        Some(Token::Plus)
    } else if c == '-' {
        Some(Token::Minus)
    } else if c == '*' {
        Some(Token::Multiply)
    } else if c == '/' {
        Some(Token::Divide)
    } else {
        None
    }
}

fn word_token(src: &str, cs: &Vec<char>, i: usize, e: usize) -> (r: Token)
    requires
        cs@ == src@,
        i <= e <= cs@.len(),
    ensures
        ({
            let w = cs@.subrange(i as int, e as int);
            match keyword(w) {
                Some(k) => r@ == k,
                None => r@ == TokenV::Ident(w),
            }
        }),
{
    let ghost w = cs@.subrange(i as int, e as int);
    let n = e - i;
    if n == 3 && cs[i] == 'f' && cs[i + 1] == 'o' && cs[i + 2] == 'r' {
        assert(w =~= seq!['f', 'o', 'r']);
        Token::For
    } else if n == 4 && cs[i] == 't' && cs[i + 1] == 'y' && cs[i + 2] == 'p' && cs[i + 3] == 'e' {
        assert(w =~= seq!['t', 'y', 'p', 'e']);
        Token::Type
    } else if n == 6 && cs[i] == 's' && cs[i + 1] == 't' && cs[i + 2] == 'r' && cs[i + 3] == 'u'
        && cs[i + 4] == 'c' && cs[i + 5] == 't' {
        assert(w =~= seq!['s', 't', 'r', 'u', 'c', 't']);
        Token::Struct
    } else if n == 6 && cs[i] == 'r' && cs[i + 1] == 'e' && cs[i + 2] == 't' && cs[i + 3] == 'u'
        && cs[i + 4] == 'r' && cs[i + 5] == 'n' {
        assert(w =~= seq!['r', 'e', 't', 'u', 'r', 'n']);
        Token::Ret
    } else {
        proof {
            if w.len() == 3 {
                assert(w != seq!['f', 'o', 'r']) by {
                    if w == seq!['f', 'o', 'r'] {
                        assert(w[0] == 'f' && w[1] == 'o' && w[2] == 'r');
                    }
                }
            }
            if w.len() == 4 {
                assert(w != seq!['t', 'y', 'p', 'e']) by {
                    if w == seq!['t', 'y', 'p', 'e'] {
                        assert(w[0] == 't' && w[1] == 'y' && w[2] == 'p' && w[3] == 'e');
                    }
                }
            }
            if w.len() == 6 {
                assert(w != seq!['s', 't', 'r', 'u', 'c', 't']) by {
                    if w == seq!['s', 't', 'r', 'u', 'c', 't'] {
                        assert(w[0] == 's' && w[1] == 't' && w[2] == 'r' && w[3] == 'u' && w[4]
                            == 'c' && w[5] == 't');
                    }
                }
                assert(w != seq!['r', 'e', 't', 'u', 'r', 'n']) by {
                    if w == seq!['r', 'e', 't', 'u', 'r', 'n'] {
                        assert(w[0] == 'r' && w[1] == 'e' && w[2] == 't' && w[3] == 'u' && w[4]
                            == 'r' && w[5] == 'n');
                    }
                }
            }
        }
        Token::Ident(text_between(src, i, e))
    }
}

/// The token that starts at character `i`, which is not whitespace, and where it ends.
fn lex_token(src: &str, cs: &Vec<char>, i: usize) -> (r: (Token, usize))
    requires
        cs@ == src@,
        cs@.len() < usize::MAX,
        i < cs@.len(),
    ensures
        (r.0@, r.1 as int) == token_at(cs@, i as int),
{
    proof {
        lemma_token_advances(cs@, i as int);
        lemma_runs_advance(cs@, i as int);
        lemma_runs_advance(cs@, i + 1);
    }
    let c = cs[i];
    if c == '"' {
        let q = scan_quote(cs, i + 1);
        if q < cs.len() {
            (Token::Str(text_between(src, i + 1, q)), q + 1)
        } else {
            (Token::Error, i + 1)
        }
    } else if ('a' <= c && c <= 'z') || ('A' <= c && c <= 'Z') || c == '_' {
        let e = scan_word_end(cs, i);
        (word_token(src, cs, i, e), e)
    } else {
        let a: usize = if c == '-' { i + 1 } else { i };
        proof {
            lemma_runs_advance(cs@, a as int);
        }
        let d = scan_digits_end(cs, a);
        let fraction = d + 1 < cs.len() && cs[d] == '.' && '0' <= cs[d + 1] && cs[d + 1] <= '9';
        if fraction || d > a {
            let e = if fraction {
                proof {
                    lemma_runs_advance(cs@, d + 1);
                }
                scan_digits_end(cs, d + 1)
            } else {
                d
            };
            (number_token_exec(cs, i, e, fraction), e)
        } else if c == '=' && i + 1 < cs.len() && cs[i + 1] == '>' {
            (Token::Arrow, i + 2)
        } else if c == ':' && i + 1 < cs.len() && cs[i + 1] == ':' {
            (Token::DoubleColon, i + 2)
        } else {
            match punct_exec(c) {
                Some(t) => (t, i + 1),
                None => (Token::Error, i + 1),
            }
        }
    }
}


/// Tokens with spans, as the character ranges that `lex` speaks of.
pub open spec fn spanned_view(v: Seq<(Token, Span)>) -> Seq<(TokenV, int, int)> {
    v.map_values(|p: (Token, Span)| (p.0@, p.1.char_start as int, p.1.char_end as int))
}

/// Each span's byte range is the byte offsets of its character range in `s`.
pub open spec fn byte_spans_match(s: Seq<char>, v: Seq<(Token, Span)>) -> bool {
    forall|k: int|
        0 <= k < v.len() ==> {
            &&& (#[trigger] v[k]).1.start == byte_offset(s, v[k].1.char_start as int)
            &&& v[k].1.end == byte_offset(s, v[k].1.char_end as int)
        }
}

proof fn lemma_byte_offset_bound(s: Seq<char>, i: int)
    requires
        0 <= i <= s.len(),
    ensures
        byte_offset(s, i) <= 4 * i,
    decreases i,
{
    if i > 0 {
        lemma_byte_offset_bound(s, i - 1);
    }
}

fn utf8_len_exec(c: char) -> (r: usize)
    ensures
        r == utf8_len(c),
{
    let u = c as u32;
    if u < 0x80 {
        1
    } else if u < 0x800 {
        2
    } else if u < 0x10000 {
        3
    } else {
        4
    }
}

/// Moves the byte offset `b` of character `i` on to that of character `e`.
fn advance_bytes(cs: &Vec<char>, i: usize, e: usize, b: usize) -> (r: usize)
    requires
        i <= e <= cs@.len(),
        cs@.len() <= usize::MAX / 4,
        b == byte_offset(cs@, i as int),
    ensures
        r == byte_offset(cs@, e as int),
{
    let mut k = i;
    let mut acc = b;
    while k < e
        invariant
            i <= k <= e <= cs@.len(),
            cs@.len() <= usize::MAX / 4,
            acc == byte_offset(cs@, k as int),
        decreases e - k,
    {
        proof {
            lemma_byte_offset_bound(cs@, k + 1);
        }
        acc = acc + utf8_len_exec(cs[k]);
        k += 1;
    }
    acc
}

/// Splits `src` into tokens, each with its span; whitespace gives none, and a
/// character that starts no token gives `Token::Error`.
pub fn tokenize(src: &str) -> (r: Vec<(Token, Span)>)
    requires
        src@.len() <= usize::MAX / 4,
    ensures
        spanned_view(r@) == lex(src@),
        byte_spans_match(src@, r@),
{
    let cs = source_chars(src);
    let n = cs.len();
    let mut out: Vec<(Token, Span)> = Vec::new();
    let mut i: usize = 0;
    let mut b: usize = 0;
    while i < n
        invariant
            cs@ == src@,
            n == cs@.len(),
            n <= usize::MAX / 4,
            i <= n,
            b == byte_offset(cs@, i as int),
            spanned_view(out@) + lex_from(cs@, i as int) == lex(cs@),
            byte_spans_match(cs@, out@),
        decreases n - i,
    {
        if cs[i] == ' ' || cs[i] == '\t' || cs[i] == '\n' || cs[i] == '\r' {
            b = advance_bytes(&cs, i, i + 1, b);
            i += 1;
        } else {
            let (t, e) = lex_token(src, &cs, i);
            proof {
                lemma_token_advances(cs@, i as int);
            }
            let eb = advance_bytes(&cs, i, e, b);
            let span = Span { start: b, end: eb, char_start: i, char_end: e };
            let ghost before = out@;
            out.push((t, span));
            proof {
                assert(spanned_view(out@) =~= spanned_view(before) + seq![
                    (t@, i as int, e as int),
                ]);
                assert(lex_from(cs@, i as int) == seq![(t@, i as int, e as int)] + lex_from(
                    cs@,
                    e as int,
                ));
            }
            i = e;
            b = eb;
        }
    }
    proof {
        assert(spanned_view(out@) =~= spanned_view(out@) + lex_from(cs@, i as int));
    }
    out
}

} // verus!
