//! The lexer: source text to a flat token sequence.
//!
//! A single left-to-right scan over the characters of the source.  Words
//! are classified against the reserved-word set, numbers become integer or
//! decimal tokens, quoted text becomes string tokens with backslash escapes
//! expanded, and `= ! < >` peek ahead to prefer the longest operator.
//! Unknown characters are skipped silently (a documented design choice);
//! an unterminated string fails the whole scan.  A numeric literal whose
//! digits do not fit the machine representation is dropped, like an
//! integer literal out of `i64` range.

use crate::num::{mk_dec, Dec};
use vstd::prelude::*;
use vstd::string::StrSliceExecFns;
use vstd::string::StringExecFns;

verus! {

/// Every lexical operator symbol, including the multi-character forms.
#[derive(Clone, Copy, Debug, Eq, Hash, PartialEq, Structural)]
pub enum EOperator {
    Plus,
    Minus,
    Divide,
    Multiply,
    Modulus,
    Colon,
    Semicolon,
    LBrace,
    RBrace,
    LBracket,
    RBracket,
    LParen,
    RParen,
    Comma,
    Eqeq,
    Eqeqeq,
    Neq,
    Neqeq,
    Le,
    Ge,
    Leq,
    Geq,
    Eq,
    Not,
    Lshift,
    Rshift,
}

/// One lexical token.  The `Comment` and `Eof` forms are part of the
/// token vocabulary but the scan below never produces them.
#[derive(Clone, Debug, PartialEq)]
pub enum Token {
    Identifier(String),
    Keyword(String),
    Operator(EOperator),
    Integer(i64),
    Float(Dec),
    Bool(bool),
    Newline,
    Comment(String),
    Str { v: String, is_raw: bool, is_fmt: bool },
    Undef,
    Eof,
}

/// The mathematical shape of a token: strings as character sequences.
pub enum TokenView {
    Identifier(Seq<char>),
    Keyword(Seq<char>),
    Operator(EOperator),
    Integer(i64),
    Float(Dec),
    Bool(bool),
    Newline,
    Comment(Seq<char>),
    Str { v: Seq<char>, is_raw: bool, is_fmt: bool },
    Undef,
    Eof,
}

impl View for Token {
    type V = TokenView;

    open spec fn view(&self) -> TokenView {
        match self {
            Token::Identifier(n) => TokenView::Identifier(n@),
            Token::Keyword(n) => TokenView::Keyword(n@),
            Token::Operator(op) => TokenView::Operator(*op),
            Token::Integer(v) => TokenView::Integer(*v),
            Token::Float(d) => TokenView::Float(*d),
            Token::Bool(b) => TokenView::Bool(*b),
            Token::Newline => TokenView::Newline,
            Token::Comment(t) => TokenView::Comment(t@),
            Token::Str { v, is_raw, is_fmt } => TokenView::Str {
                v: v@,
                is_raw: *is_raw,
                is_fmt: *is_fmt,
            },
            Token::Undef => TokenView::Undef,
            Token::Eof => TokenView::Eof,
        }
    }
}

impl DeepView for Token {
    type V = TokenView;

    open spec fn deep_view(&self) -> TokenView {
        self.view()
    }
}

/// Failure of the scan itself.
#[derive(Clone, Copy, Debug, Eq, PartialEq, Structural)]
pub enum LexError {
    UnterminatedString,
}

pub open spec fn is_ident_start(c: char) -> bool {
    (0x41 <= c as u32 && c as u32 <= 0x5A) || (0x61 <= c as u32 && c as u32 <= 0x7A) || c == '_'
}

pub open spec fn is_digit(c: char) -> bool {
    0x30 <= c as u32 && c as u32 <= 0x39
}

pub open spec fn is_ident_char(c: char) -> bool {
    is_ident_start(c) || is_digit(c)
}

pub open spec fn digit_val(c: char) -> nat {
    (c as u32 - 0x30) as nat
}

/// The reserved words of the language.
pub open spec fn is_reserved(w: Seq<char>) -> bool {
    ||| w == "let"@
    ||| w == "const"@
    ||| w == "var"@
    ||| w == "if"@
    ||| w == "else"@
    ||| w == "for"@
    ||| w == "while"@
    ||| w == "do"@
    ||| w == "function"@
    ||| w == "return"@
    ||| w == "class"@
    ||| w == "new"@
}

/// How a scanned word becomes a token.
pub open spec fn classify_word(w: Seq<char>) -> TokenView {
    if is_reserved(w) {
        TokenView::Keyword(w)
    } else if w == "true"@ {
        TokenView::Bool(true)
    } else if w == "false"@ {
        TokenView::Bool(false)
    } else if w == "undefined"@ {
        TokenView::Undef
    } else {
        TokenView::Identifier(w)
    }
}

/// First position at or after `i` that does not continue an identifier.
pub open spec fn ident_end(s: Seq<char>, i: nat) -> nat
    decreases s.len() - i,
{
    if i < s.len() && is_ident_char(s[i as int]) {
        ident_end(s, i + 1)
    } else {
        i
    }
}

/// First position at or after `i` that is not a decimal digit.
pub open spec fn digits_end(s: Seq<char>, i: nat) -> nat
    decreases s.len() - i,
{
    if i < s.len() && is_digit(s[i as int]) {
        digits_end(s, i + 1)
    } else {
        i
    }
}

/// Numeric value of the digits `s[i..j]`.
pub open spec fn digits_val(s: Seq<char>, i: nat, j: nat) -> nat
    decreases j - i,
{
    if i >= j {
        0
    } else {
        digits_val(s, i, (j - 1) as nat) * 10 + digit_val(s[j - 1])
    }
}

/// What a backslash escape stands for.
pub open spec fn escape_char(c: char) -> char {
    if c == 'n' {
        '\n'
    } else if c == 't' {
        '\t'
    } else if c == 'r' {
        '\r'
    } else {
        c
    }
}

/// Position of the closing quote of a string opened before `i`, or the
/// text length if the string never closes.  `bs` records a pending
/// backslash.
pub open spec fn str_end(s: Seq<char>, i: nat, q: char, bs: bool) -> nat
    decreases s.len() - i,
{
    if i >= s.len() {
        s.len()
    } else if bs {
        str_end(s, i + 1, q, false)
    } else if s[i as int] == '\\' {
        str_end(s, i + 1, q, true)
    } else if s[i as int] == q {
        i
    } else {
        str_end(s, i + 1, q, false)
    }
}

/// Content of the string: characters up to the closing quote, with
/// escapes expanded.
pub open spec fn str_content(s: Seq<char>, i: nat, q: char, bs: bool) -> Seq<char>
    decreases s.len() - i,
{
    if i >= s.len() {
        Seq::empty()
    } else if bs {
        seq![escape_char(s[i as int])] + str_content(s, i + 1, q, false)
    } else if s[i as int] == '\\' {
        str_content(s, i + 1, q, true)
    } else if s[i as int] == q {
        Seq::empty()
    } else {
        seq![s[i as int]] + str_content(s, i + 1, q, false)
    }
}

/// The single-character operator symbols without lookahead.
pub open spec fn single_op(c: char) -> Option<EOperator> {
    if c == '+' {
        Some(EOperator::Plus)
    } else if c == '-' {
        Some(EOperator::Minus)
    } else if c == '/' {
        Some(EOperator::Divide)
    } else if c == '*' {
        Some(EOperator::Multiply)
    } else if c == '%' {
        Some(EOperator::Modulus)
    } else if c == ':' {
        Some(EOperator::Colon)
    } else if c == ';' {
        Some(EOperator::Semicolon)
    } else if c == '{' {
        Some(EOperator::LBrace)
    } else if c == '}' {
        Some(EOperator::RBrace)
    } else if c == '[' {
        Some(EOperator::LBracket)
    } else if c == ']' {
        Some(EOperator::RBracket)
    } else if c == '(' {
        Some(EOperator::LParen)
    } else if c == ')' {
        Some(EOperator::RParen)
    } else if c == ',' {
        Some(EOperator::Comma)
    } else {
        None
    }
}

/// Prepend one token to a scan result.
pub open spec fn cons_tok(t: TokenView, r: Result<Seq<TokenView>, LexError>) -> Result<
    Seq<TokenView>,
    LexError,
> {
    match r {
        Ok(v) => Ok(seq![t] + v),
        Err(e) => Err(e),
    }
}

/// Tokens already taken, joined with the scan of the rest.
pub open spec fn lex_join(pre: Seq<TokenView>, r: Result<Seq<TokenView>, LexError>) -> Result<
    Seq<TokenView>,
    LexError,
> {
    match r {
        Ok(v) => Ok(pre + v),
        Err(e) => Err(e),
    }
}

/// Clamp a scan position so that it advances and stays in the text;
/// every scan below does advance, so this changes nothing.
pub open spec fn adv(s: Seq<char>, i: nat, j: nat) -> nat {
    if i < j <= s.len() {
        j
    } else {
        i + 1
    }
}

/// The token sequence of the text from position `i` on.
pub open spec fn spec_lex_from(s: Seq<char>, i: nat) -> Result<Seq<TokenView>, LexError>
    decreases s.len() - i,
{
    if i >= s.len() {
        Ok(Seq::empty())
    } else {
        let c = s[i as int];
        if is_ident_start(c) {
            let j = adv(s, i, ident_end(s, i));
            cons_tok(classify_word(s.subrange(i as int, j as int)), spec_lex_from(s, j))
        } else if is_digit(c) {
            let j = digits_end(s, i);
            if j < s.len() && s[j as int] == '.' {
                let k = adv(s, i, digits_end(s, j + 1));
                let iv = digits_val(s, i, j);
                let fl = (if digits_end(s, j + 1) >= j + 1 {
                    digits_end(s, j + 1) - (j + 1)
                } else {
                    0
                }) as nat;
                let keep = if fl <= 9 {
                    fl
                } else {
                    9
                };
                let mant = iv * crate::num::pow10(keep) + digits_val(s, j + 1, j + 1 + keep);
                if iv > i64::MAX {
                    spec_lex_from(s, k)
                } else {
                    match mk_dec(mant as int, keep) {
                        Some(d) => cons_tok(TokenView::Float(d), spec_lex_from(s, k)),
                        None => spec_lex_from(s, k),
                    }
                }
            } else {
                let k = adv(s, i, j);
                let v = digits_val(s, i, j);
                if v <= i64::MAX {
                    cons_tok(TokenView::Integer(v as i64), spec_lex_from(s, k))
                } else {
                    spec_lex_from(s, k)
                }
            }
        } else if c == '"' || c == '\'' || c == '`' {
            let e = str_end(s, i + 1, c, false);
            if e >= s.len() {
                Err(LexError::UnterminatedString)
            } else {
                cons_tok(
                    TokenView::Str {
                        v: str_content(s, i + 1, c, false),
                        is_raw: false,
                        is_fmt: c == '`',
                    },
                    spec_lex_from(s, adv(s, i, e + 1)),
                )
            }
        } else if c == '=' {
            if i + 1 < s.len() && s[(i + 1) as int] == '=' {
                if i + 2 < s.len() && s[(i + 2) as int] == '=' {
                    cons_tok(
                        TokenView::Operator(EOperator::Eqeqeq),
                        spec_lex_from(s, adv(s, i, i + 3)),
                    )
                } else {
                    cons_tok(
                        TokenView::Operator(EOperator::Eqeq),
                        spec_lex_from(s, adv(s, i, i + 2)),
                    )
                }
            } else {
                cons_tok(TokenView::Operator(EOperator::Eq), spec_lex_from(s, i + 1))
            }
        } else if c == '!' {
            if i + 1 < s.len() && s[(i + 1) as int] == '=' {
                if i + 2 < s.len() && s[(i + 2) as int] == '=' {
                    cons_tok(
                        TokenView::Operator(EOperator::Neqeq),
                        spec_lex_from(s, adv(s, i, i + 3)),
                    )
                } else {
                    cons_tok(
                        TokenView::Operator(EOperator::Neq),
                        spec_lex_from(s, adv(s, i, i + 2)),
                    )
                }
            } else {
                cons_tok(TokenView::Operator(EOperator::Not), spec_lex_from(s, i + 1))
            }
        } else if c == '<' {
            if i + 1 < s.len() && s[(i + 1) as int] == '=' {
                cons_tok(TokenView::Operator(EOperator::Leq), spec_lex_from(s, adv(s, i, i + 2)))
            } else if i + 1 < s.len() && s[(i + 1) as int] == '<' {
                cons_tok(TokenView::Operator(EOperator::Lshift), spec_lex_from(s, adv(s, i, i + 2)))
            } else {
                cons_tok(TokenView::Operator(EOperator::Le), spec_lex_from(s, i + 1))
            }
        } else if c == '>' {
            if i + 1 < s.len() && s[(i + 1) as int] == '=' {
                cons_tok(TokenView::Operator(EOperator::Geq), spec_lex_from(s, adv(s, i, i + 2)))
            } else if i + 1 < s.len() && s[(i + 1) as int] == '>' {
                cons_tok(TokenView::Operator(EOperator::Rshift), spec_lex_from(s, adv(s, i, i + 2)))
            } else {
                cons_tok(TokenView::Operator(EOperator::Ge), spec_lex_from(s, i + 1))
            }
        } else {
            match single_op(c) {
                Some(op) => cons_tok(TokenView::Operator(op), spec_lex_from(s, i + 1)),
                None => {
                    if c == '\n' {
                        cons_tok(TokenView::Newline, spec_lex_from(s, i + 1))
                    } else {
                        spec_lex_from(s, i + 1)
                    }
                },
            }
        }
    }
}

/// The token sequence of a whole text.
pub open spec fn spec_tokens(s: Seq<char>) -> Result<Seq<TokenView>, LexError> {
    spec_lex_from(s, 0)
}

proof fn lemma_ident_end(s: Seq<char>, i: nat)
    requires
        i <= s.len(),
    ensures
        i <= ident_end(s, i) <= s.len(),
    decreases s.len() - i,
{
    if i < s.len() && is_ident_char(s[i as int]) {
        lemma_ident_end(s, i + 1);
    }
}

proof fn lemma_digits_end(s: Seq<char>, i: nat)
    requires
        i <= s.len(),
    ensures
        i <= digits_end(s, i) <= s.len(),
        forall|k: int| i <= k < digits_end(s, i) ==> is_digit(s[k]),
    decreases s.len() - i,
{
    if i < s.len() && is_digit(s[i as int]) {
        lemma_digits_end(s, i + 1);
    }
}

proof fn lemma_str_end(s: Seq<char>, i: nat, q: char, bs: bool)
    requires
        i <= s.len(),
    ensures
        i <= str_end(s, i, q, bs) <= s.len(),
    decreases s.len() - i,
{
    if i < s.len() {
        lemma_str_end(s, i + 1, q, false);
        lemma_str_end(s, i + 1, q, true);
    }
}

/// The value of at most `w`-digit text stays under `10^w`.
proof fn lemma_digits_val_bound(s: Seq<char>, i: nat, j: nat)
    requires
        forall|k: int| i <= k < j ==> is_digit(s[k]),
    ensures
        digits_val(s, i, j) < crate::num::pow10((if j >= i {
            j - i
        } else {
            0
        }) as nat),
    decreases j - i,
{
    if i < j {
        lemma_digits_val_bound(s, i, (j - 1) as nat);
        let v = digits_val(s, i, (j - 1) as nat);
        let p = crate::num::pow10((j - 1 - i) as nat);
        assert(is_digit(s[j - 1]));
        assert(digit_val(s[j - 1]) <= 9);
        assert(v * 10 + 9 < p * 10) by (nonlinear_arith)
            requires
                v < p,
        ;
    }
}

fn exec_is_ident_start(c: char) -> (b: bool)
    ensures
        b == is_ident_start(c),
{
    let u = c as u32;
    (0x41 <= u && u <= 0x5A) || (0x61 <= u && u <= 0x7A) || c == '_'
}

fn exec_is_digit(c: char) -> (b: bool)
    ensures
        b == is_digit(c),
{
    let u = c as u32;
    0x30 <= u && u <= 0x39
}

fn exec_is_ident_char(c: char) -> (b: bool)
    ensures
        b == is_ident_char(c),
{
    exec_is_ident_start(c) || exec_is_digit(c)
}

/// Whether the string holds exactly the given literal text.
pub(crate) fn str_is(w: &String, lit: &str) -> (b: bool)
    ensures
        b == (w@ == lit@),
{
    let l = String::from_str(lit);
    w.eq(&l)
}

/// Scan an identifier starting at `i`: its characters and its end.
fn scan_ident(st: &str, n: usize, i: usize) -> (r: (String, usize))
    requires
        n == st@.len(),
        i <= n,
    ensures
        r.1 == ident_end(st@, i as nat),
        i <= r.1 <= n,
        r.0@ == st@.subrange(i as int, r.1 as int),
{
    proof {
        lemma_ident_end(st@, i as nat);
    }
    let mut j = i;
    let mut w = String::new();
    while j < n && exec_is_ident_char(st.get_char(j))
        invariant
            n == st@.len(),
            i <= j <= n,
            ident_end(st@, i as nat) == ident_end(st@, j as nat),
            w@ =~= st@.subrange(i as int, j as int),
        decreases n - j,
    {
        crate::text::push_char(&mut w, st.get_char(j));
        j = j + 1;
        proof {
            assert(w@ =~= st@.subrange(i as int, j as int));
        }
    }
    (w, j)
}

/// Scan digits starting at `i`: the first non-digit position.
fn scan_digits(st: &str, n: usize, i: usize) -> (j: usize)
    requires
        n == st@.len(),
        i <= n,
    ensures
        j == digits_end(st@, i as nat),
        i <= j <= n,
{
    proof {
        lemma_digits_end(st@, i as nat);
    }
    let mut j = i;
    while j < n && exec_is_digit(st.get_char(j))
        invariant
            n == st@.len(),
            i <= j <= n,
            digits_end(st@, i as nat) == digits_end(st@, j as nat),
        decreases n - j,
    {
        j = j + 1;
    }
    j
}

/// Value of the digits `st[i..j]`, or the report that it exceeds
/// `i64::MAX`.
fn scan_digits_val(st: &str, n: usize, i: usize, j: usize) -> (r: (u64, bool))
    requires
        n == st@.len(),
        i <= j <= n,
        forall|k: int| i <= k < j ==> is_digit(st@[k]),
    ensures
        !r.1 ==> r.0 == digits_val(st@, i as nat, j as nat) && digits_val(
            st@,
            i as nat,
            j as nat,
        ) <= i64::MAX,
        r.1 ==> digits_val(st@, i as nat, j as nat) > i64::MAX,
{
    let mut k = i;
    let mut acc: u128 = 0;
    let mut over = false;
    while k < j
        invariant
            n == st@.len(),
            i <= k <= j <= n,
            forall|t: int| i <= t < j ==> is_digit(st@[t]),
            !over ==> acc == digits_val(st@, i as nat, k as nat) && acc
                <= 0x7FFF_FFFF_FFFF_FFFF,
            over ==> digits_val(st@, i as nat, k as nat) > i64::MAX,
        decreases j - k,
    {
        let c = st.get_char(k);
        let d: u128 = (c as u32 - 0x30) as u128;
        proof {
            assert(digits_val(st@, i as nat, (k + 1) as nat) == digits_val(
                st@,
                i as nat,
                k as nat,
            ) * 10 + digit_val(st@[k as int]));
            if over {
                let v = digits_val(st@, i as nat, k as nat);
                assert(v * 10 >= v) by (nonlinear_arith)
                    requires
                        v >= 0,
                ;
            }
        }
        if !over {
            let next = acc * 10 + d;
            if next > 0x7FFF_FFFF_FFFF_FFFF {
                over = true;
            } else {
                acc = next;
            }
        }
        k = k + 1;
    }
    (acc as u64, over)
}

fn exec_escape(c: char) -> (r: char)
    ensures
        r == escape_char(c),
{
    if c == 'n' {
        '\n'
    } else if c == 't' {
        '\t'
    } else if c == 'r' {
        '\r'
    } else {
        c
    }
}

/// Scan a quoted string body from `i` (just after the opening quote):
/// its expanded content and the position of the closing quote (or the
/// text length when the string never closes).
fn scan_string(st: &str, n: usize, i: usize, q: char) -> (r: (String, usize))
    requires
        n == st@.len(),
        i <= n,
    ensures
        r.1 == str_end(st@, i as nat, q, false),
        i <= r.1 <= n,
        r.0@ == str_content(st@, i as nat, q, false),
{
    proof {
        lemma_str_end(st@, i as nat, q, false);
    }
    let mut j = i;
    let mut bs = false;
    let mut content = String::new();
    loop
        invariant
            n == st@.len(),
            i <= j <= n,
            str_end(st@, i as nat, q, false) == str_end(st@, j as nat, q, bs),
            str_content(st@, i as nat, q, false) == content@ + str_content(st@, j as nat, q, bs),
        decreases n - j,
    {
        if j >= n {
            proof {
                assert(content@ =~= content@ + str_content(st@, j as nat, q, bs));
            }
            return (content, j);
        }
        let c = st.get_char(j);
        if bs {
            crate::text::push_char(&mut content, exec_escape(c));
            bs = false;
            j = j + 1;
            proof {
                assert(content@ + str_content(st@, j as nat, q, bs) =~= str_content(
                    st@,
                    i as nat,
                    q,
                    false,
                ));
            }
        } else if c == '\\' {
            bs = true;
            j = j + 1;
        } else if c == q {
            proof {
                assert(content@ =~= content@ + str_content(st@, j as nat, q, bs));
            }
            return (content, j);
        } else {
            crate::text::push_char(&mut content, c);
            j = j + 1;
            proof {
                assert(content@ + str_content(st@, j as nat, q, bs) =~= str_content(
                    st@,
                    i as nat,
                    q,
                    false,
                ));
            }
        }
    }
}

/// Classify a scanned word as keyword, boolean, `undefined` or name.
fn classify_ident(w: String) -> (t: Token)
    ensures
        t@ == classify_word(w@),
{
    if str_is(&w, "let") || str_is(&w, "const") || str_is(&w, "var") || str_is(&w, "if") || str_is(
        &w,
        "else",
    ) || str_is(&w, "for") || str_is(&w, "while") || str_is(&w, "do") || str_is(&w, "function")
        || str_is(&w, "return") || str_is(&w, "class") || str_is(&w, "new") {
        Token::Keyword(w)
    } else if str_is(&w, "true") {
        Token::Bool(true)
    } else if str_is(&w, "false") {
        Token::Bool(false)
    } else if str_is(&w, "undefined") {
        Token::Undef
    } else {
        Token::Identifier(w)
    }
}

fn exec_single_op(c: char) -> (r: Option<EOperator>)
    ensures
        r == single_op(c),
{
    if c == '+' {
        Some(EOperator::Plus)
    } else if c == '-' {
        Some(EOperator::Minus)
    } else if c == '/' {
        Some(EOperator::Divide)
    } else if c == '*' {
        Some(EOperator::Multiply)
    } else if c == '%' {
        Some(EOperator::Modulus)
    } else if c == ':' {
        Some(EOperator::Colon)
    } else if c == ';' {
        Some(EOperator::Semicolon)
    } else if c == '{' {
        Some(EOperator::LBrace)
    } else if c == '}' {
        Some(EOperator::RBrace)
    } else if c == '[' {
        Some(EOperator::LBracket)
    } else if c == ']' {
        Some(EOperator::RBracket)
    } else if c == '(' {
        Some(EOperator::LParen)
    } else if c == ')' {
        Some(EOperator::RParen)
    } else if c == ',' {
        Some(EOperator::Comma)
    } else {
        None
    }
}

/// Append a token that the specification scan yields next, carrying the
/// join relation from position `i` to position `j`.
fn push_tok(
    res: &mut Vec<Token>,
    t: Token,
    Ghost(s): Ghost<Seq<char>>,
    Ghost(i): Ghost<nat>,
    Ghost(j): Ghost<nat>,
)
    requires
        spec_lex_from(s, i) == cons_tok(t@, spec_lex_from(s, j)),
        lex_join(old(res).deep_view(), spec_lex_from(s, i)) == spec_tokens(s),
    ensures
        lex_join(final(res).deep_view(), spec_lex_from(s, j)) == spec_tokens(s),
{
    let ghost pre = res.deep_view();
    res.push(t);
    proof {
        assert(res.deep_view() =~= pre.push(t@));
        match spec_lex_from(s, j) {
            Ok(v) => {
                assert(pre.push(t@) + v =~= pre + (seq![t@] + v));
            },
            Err(_) => {},
        }
    }
}

/// Turn source text into its token sequence, or report the unterminated
/// string that stops the scan.  The result is exactly [`spec_tokens`] of
/// the text, so equal texts always yield equal token sequences.
pub fn gen_toks(data: String) -> (r: Result<Vec<Token>, LexError>)
    ensures
        match r {
            Ok(v) => spec_tokens(data@) == Ok::<Seq<TokenView>, LexError>(v.deep_view()),
            Err(e) => spec_tokens(data@) == Err::<Seq<TokenView>, LexError>(e),
        },
{
    let st = data.as_str();
    let n = st.unicode_len();
    let mut res: Vec<Token> = Vec::new();
    proof {
        assert(res.deep_view() + spec_tokens(st@)->Ok_0 =~= spec_tokens(st@)->Ok_0);
    }
    let mut i: usize = 0;
    while i < n
        invariant
            n == st@.len(),
            st@ == data@,
            i <= n,
            lex_join(res.deep_view(), spec_lex_from(st@, i as nat)) == spec_tokens(st@),
        decreases n - i,
    {
        let ghost gi = i as nat;
        let c = st.get_char(i);
        if exec_is_ident_start(c) {
            let (w, j) = scan_ident(st, n, i);
            proof {
                lemma_ident_end(st@, gi + 1);
            }
            let t = classify_ident(w);
            push_tok(&mut res, t, Ghost(st@), Ghost(gi), Ghost(j as nat));
            i = j;
        } else if exec_is_digit(c) {
            let j = scan_digits(st, n, i);
            proof {
                lemma_digits_end(st@, gi + 1);
                lemma_digits_end(st@, gi);
            }
            if j < n && st.get_char(j) == '.' {
                let k = scan_digits(st, n, j + 1);
                proof {
                    lemma_digits_end(st@, (j + 1) as nat);
                }
                let (iv, iover) = scan_digits_val(st, n, i, j);
                if iover {
                    i = k;
                } else {
                    let fl = k - (j + 1);
                    let keep: usize = if fl <= 9 {
                        fl
                    } else {
                        9
                    };
                    let (fv, fover) = scan_digits_val(st, n, j + 1, j + 1 + keep);
                    proof {
                        crate::num::lemma_pow10_38_bound();
                        crate::num::lemma_pow10_mono(keep as nat, 9);
                        let p = crate::num::pow10(keep as nat);
                        assert(iv as nat * p <= 0x7FFF_FFFF_FFFF_FFFF * 1000000000)
                            by (nonlinear_arith)
                            requires
                                iv as nat <= 0x7FFF_FFFF_FFFF_FFFF,
                                0 <= p <= 1000000000,
                        ;
                        lemma_digits_val_bound(st@, (j + 1) as nat, (j + 1 + keep) as nat);
                    }
                    let p = crate::num::pow10_u64(keep as u32);
                    let mant: u128 = (iv as u128) * (p as u128) + (fv as u128);
                    match crate::num::make_dec(mant as i128, keep as u32) {
                        Some(d) => {
                            push_tok(
                                &mut res,
                                Token::Float(d),
                                Ghost(st@),
                                Ghost(gi),
                                Ghost(k as nat),
                            );
                        },
                        None => {},
                    }
                    i = k;
                }
            } else {
                let (v, over) = scan_digits_val(st, n, i, j);
                if !over {
                    push_tok(
                        &mut res,
                        Token::Integer(v as i64),
                        Ghost(st@),
                        Ghost(gi),
                        Ghost(j as nat),
                    );
                }
                i = j;
            }
        } else if c == '"' || c == '\'' || c == '`' {
            let (content, e) = scan_string(st, n, i + 1, c);
            if e >= n {
                return Err(LexError::UnterminatedString);
            }
            push_tok(
                &mut res,
                Token::Str { v: content, is_raw: false, is_fmt: c == '`' },
                Ghost(st@),
                Ghost(gi),
                Ghost((e + 1) as nat),
            );
            i = e + 1;
        } else if c == '=' {
            if i + 1 < n && st.get_char(i + 1) == '=' {
                if i + 2 < n && st.get_char(i + 2) == '=' {
                    push_tok(
                        &mut res,
                        Token::Operator(EOperator::Eqeqeq),
                        Ghost(st@),
                        Ghost(gi),
                        Ghost(gi + 3),
                    );
                    i = i + 3;
                } else {
                    push_tok(
                        &mut res,
                        Token::Operator(EOperator::Eqeq),
                        Ghost(st@),
                        Ghost(gi),
                        Ghost(gi + 2),
                    );
                    i = i + 2;
                }
            } else {
                push_tok(
                    &mut res,
                    Token::Operator(EOperator::Eq),
                    Ghost(st@),
                    Ghost(gi),
                    Ghost(gi + 1),
                );
                i = i + 1;
            }
        } else if c == '!' {
            if i + 1 < n && st.get_char(i + 1) == '=' {
                if i + 2 < n && st.get_char(i + 2) == '=' {
                    push_tok(
                        &mut res,
                        Token::Operator(EOperator::Neqeq),
                        Ghost(st@),
                        Ghost(gi),
                        Ghost(gi + 3),
                    );
                    i = i + 3;
                } else {
                    push_tok(
                        &mut res,
                        Token::Operator(EOperator::Neq),
                        Ghost(st@),
                        Ghost(gi),
                        Ghost(gi + 2),
                    );
                    i = i + 2;
                }
            } else {
                push_tok(
                    &mut res,
                    Token::Operator(EOperator::Not),
                    Ghost(st@),
                    Ghost(gi),
                    Ghost(gi + 1),
                );
                i = i + 1;
            }
        } else if c == '<' {
            if i + 1 < n && st.get_char(i + 1) == '=' {
                push_tok(
                    &mut res,
                    Token::Operator(EOperator::Leq),
                    Ghost(st@),
                    Ghost(gi),
                    Ghost(gi + 2),
                );
                i = i + 2;
            } else if i + 1 < n && st.get_char(i + 1) == '<' {
                push_tok(
                    &mut res,
                    Token::Operator(EOperator::Lshift),
                    Ghost(st@),
                    Ghost(gi),
                    Ghost(gi + 2),
                );
                i = i + 2;
            } else {
                push_tok(
                    &mut res,
                    Token::Operator(EOperator::Le),
                    Ghost(st@),
                    Ghost(gi),
                    Ghost(gi + 1),
                );
                i = i + 1;
            }
        } else if c == '>' {
            if i + 1 < n && st.get_char(i + 1) == '=' {
                push_tok(
                    &mut res,
                    Token::Operator(EOperator::Geq),
                    Ghost(st@),
                    Ghost(gi),
                    Ghost(gi + 2),
                );
                i = i + 2;
            } else if i + 1 < n && st.get_char(i + 1) == '>' {
                push_tok(
                    &mut res,
                    Token::Operator(EOperator::Rshift),
                    Ghost(st@),
                    Ghost(gi),
                    Ghost(gi + 2),
                );
                i = i + 2;
            } else {
                push_tok(
                    &mut res,
                    Token::Operator(EOperator::Ge),
                    Ghost(st@),
                    Ghost(gi),
                    Ghost(gi + 1),
                );
                i = i + 1;
            }
        } else {
            match exec_single_op(c) {
                Some(op) => {
                    push_tok(
                        &mut res,
                        Token::Operator(op),
                        Ghost(st@),
                        Ghost(gi),
                        Ghost(gi + 1),
                    );
                    i = i + 1;
                },
                None => {
                    if c == '\n' {
                        push_tok(
                            &mut res,
                            Token::Newline,
                            Ghost(st@),
                            Ghost(gi),
                            Ghost(gi + 1),
                        );
                        i = i + 1;
                    } else {
                        i = i + 1;
                    }
                },
            }
        }
    }
    proof {
        assert(res.deep_view() + Seq::<TokenView>::empty() =~= res.deep_view());
    }
    Ok(res)
}

} // verus!
