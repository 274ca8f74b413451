use vstd::prelude::*;

use crate::text::{decimal_nat, digit_char, digit_value, digits_value, is_digit, push_char, string_of};
use crate::token::{kind_text, Token, TokenKind, TokenKindM, TokenKindOf, TokenM, TokenOf};

verus! {

/// ASCII whitespace: space, tab, line feed, form feed and carriage return.
pub open spec fn is_ws(c: char) -> bool {
    c == ' ' || c == '\t' || c == '\n' || c == '\x0C' || c == '\r'
}

/// ASCII letters.
pub open spec fn is_alpha(c: char) -> bool {
    ('a' <= c && c <= 'z') || ('A' <= c && c <= 'Z')
}

/// Characters that can start a word (identifier or keyword).
pub open spec fn is_word_start(c: char) -> bool {
    is_alpha(c) || c == '_'
}

/// Characters that can continue a word.
pub open spec fn is_word_char(c: char) -> bool {
    is_alpha(c) || is_digit(c) || c == '_'
}

/// Line and column (both from 1) of position `p` of `chars`: each line feed
/// before `p` starts a new line, every other character moves one column on.
pub open spec fn line_col(chars: Seq<char>, p: int) -> (int, int)
    decreases p,
{
    if p <= 0 {
        (1, 1)
    } else {
        let (l, c) = line_col(chars, p - 1);
        if chars[p - 1] == '\n' {
            (l + 1, 1)
        } else {
            (l, c + 1)
        }
    }
}

/// The first position at or after `p` that is the end or holds a line feed.
pub open spec fn comment_end(chars: Seq<char>, p: int) -> int
    decreases chars.len() - p,
{
    if p >= chars.len() || p < 0 || chars[p] == '\n' {
        p
    } else {
        comment_end(chars, p + 1)
    }
}

/// The first position at or after `p` that is neither whitespace nor inside
/// a comment (a `#` up to the end of its line).
pub open spec fn trivia_end(chars: Seq<char>, p: int) -> int
    decreases chars.len() - p,
{
    if p < 0 || p >= chars.len() {
        p
    } else if is_ws(chars[p]) {
        trivia_end(chars, p + 1)
    } else if chars[p] == '#' {
        proof {
            lemma_comment_end_ge(chars, p + 1);
        }
        trivia_end(chars, comment_end(chars, p + 1))
    } else {
        p
    }
}

/// The first position at or after `p` that is not a digit.
pub open spec fn digits_end(chars: Seq<char>, p: int) -> int
    decreases chars.len() - p,
{
    if 0 <= p < chars.len() && is_digit(chars[p]) {
        digits_end(chars, p + 1)
    } else {
        p
    }
}

/// The first position at or after `p` that is not a word character.
pub open spec fn word_end(chars: Seq<char>, p: int) -> int
    decreases chars.len() - p,
{
    if 0 <= p < chars.len() && is_word_char(chars[p]) {
        word_end(chars, p + 1)
    } else {
        p
    }
}

/// The value of an integer literal: its digits' value, or 0 when that does
/// not fit in an `i64`.
pub open spec fn int_literal_value(text: Seq<char>) -> i64 {
    if digits_value(text) <= i64::MAX {
        digits_value(text) as i64
    } else {
        0
    }
}

/// The kind of a word: its keyword, or an identifier.
pub open spec fn word_kind(w: Seq<char>) -> TokenKindM {
    if w == "make"@ {
        TokenKindOf::Make
    } else if w == "show"@ {
        TokenKindOf::Show
    } else if w == "if"@ || w == "when"@ {
        TokenKindOf::When
    } else if w == "else"@ || w == "otherwise"@ {
        TokenKindOf::Otherwise
    } else if w == "while"@ || w == "during"@ {
        TokenKindOf::During
    } else if w == "for"@ {
        TokenKindOf::For
    } else if w == "return"@ {
        TokenKindOf::Return
    } else if w == "func"@ {
        TokenKindOf::Func
    } else if w == "and"@ {
        TokenKindOf::And
    } else if w == "or"@ {
        TokenKindOf::Or
    } else if w == "true"@ {
        TokenKindOf::Boolean(true)
    } else if w == "false"@ {
        TokenKindOf::Boolean(false)
    } else if w == "nil"@ {
        TokenKindOf::Nil
    } else if w == "int"@ {
        TokenKindOf::TypeInt
    } else if w == "float"@ {
        TokenKindOf::TypeFloat
    } else if w == "bool"@ {
        TokenKindOf::TypeBool
    } else if w == "String"@ {
        TokenKindOf::TypeString
    } else if w == "void"@ {
        TokenKindOf::TypeVoid
    } else {
        TokenKindOf::Identifier(w)
    }
}

/// The character an escape `\e` stands for inside a string literal
/// (`n`, `t`, `r`, `\` and `"`), or `None` for any other `e`.
pub open spec fn escaped(e: char) -> Option<char> {
    if e == 'n' {
        Some('\n')
    } else if e == 't' {
        Some('\t')
    } else if e == 'r' {
        Some('\r')
    } else if e == '\\' {
        Some('\\')
    } else if e == '"' {
        Some('"')
    } else {
        None
    }
}

/// The contents of a string literal whose body starts at `q`, and the
/// position after it. The literal ends at a `"` (consumed) or at the end of
/// the input; a backslash at the very end is dropped; an unknown escape is
/// kept as the backslash and the character.
pub open spec fn string_body(chars: Seq<char>, q: int) -> (Seq<char>, int)
    decreases chars.len() - q,
{
    if q < 0 || q >= chars.len() {
        (Seq::empty(), q)
    } else if chars[q] == '"' {
        (Seq::empty(), q + 1)
    } else if chars[q] == '\\' {
        if q + 1 >= chars.len() {
            (Seq::empty(), q + 1)
        } else {
            let rest = string_body(chars, q + 2);
            match escaped(chars[q + 1]) {
                Some(c) => (seq![c] + rest.0, rest.1),
                None => (seq!['\\', chars[q + 1]] + rest.0, rest.1),
            }
        }
    } else {
        let rest = string_body(chars, q + 1);
        (seq![chars[q]] + rest.0, rest.1)
    }
}

/// The kind of a one-character operator or delimiter.
pub open spec fn single_kind(c: char) -> Option<TokenKindM> {
    if c == '+' {
        Some(TokenKindOf::Plus)
    } else if c == '-' {
        Some(TokenKindOf::Minus)
    } else if c == '*' {
        Some(TokenKindOf::Star)
    } else if c == '/' {
        Some(TokenKindOf::Slash)
    } else if c == '%' {
        Some(TokenKindOf::Percent)
    } else if c == '(' {
        Some(TokenKindOf::LeftParen)
    } else if c == ')' {
        Some(TokenKindOf::RightParen)
    } else if c == '{' {
        Some(TokenKindOf::LeftBrace)
    } else if c == '}' {
        Some(TokenKindOf::RightBrace)
    } else if c == ';' {
        Some(TokenKindOf::Semicolon)
    } else if c == ':' {
        Some(TokenKindOf::Colon)
    } else if c == ',' {
        Some(TokenKindOf::Comma)
    } else {
        None
    }
}

/// The kinds of the operators `=`, `!`, `<`, `>`: alone, and followed by `=`.
pub open spec fn eq_pair_kinds(c: char) -> Option<(TokenKindM, TokenKindM)> {
    if c == '=' {
        Some((TokenKindOf::Equal, TokenKindOf::DoubleEqual))
    } else if c == '!' {
        Some((TokenKindOf::Not, TokenKindOf::NotEqual))
    } else if c == '<' {
        Some((TokenKindOf::Less, TokenKindOf::LessEqual))
    } else if c == '>' {
        Some((TokenKindOf::Greater, TokenKindOf::GreaterEqual))
    } else {
        None
    }
}

/// The token that starts at position `s` (which is not whitespace nor a
/// comment), and the position after it.
pub open spec fn token_at(chars: Seq<char>, s: int) -> (TokenKindM, int) {
    if s < 0 || s >= chars.len() {
        (TokenKindOf::Eof, s)
    } else {
        let c = chars[s];
        let next_is = |d: char| s + 1 < chars.len() && chars[s + 1] == d;
        if c == '"' {
            let (body, e) = string_body(chars, s + 1);
            (TokenKindOf::StringLit(body), e)
        } else if single_kind(c) is Some {
            (single_kind(c)->0, s + 1)
        } else if c == '&' {
            if next_is('&') {
                (TokenKindOf::AndAnd, s + 2)
            } else {
                (TokenKindOf::Unknown('&'), s + 1)
            }
        } else if c == '|' {
            if next_is('|') {
                (TokenKindOf::OrOr, s + 2)
            } else {
                (TokenKindOf::Unknown('|'), s + 1)
            }
        } else if eq_pair_kinds(c) is Some {
            if next_is('=') {
                ((eq_pair_kinds(c)->0).1, s + 2)
            } else {
                ((eq_pair_kinds(c)->0).0, s + 1)
            }
        } else if is_digit(c) {
            let e1 = digits_end(chars, s);
            if e1 + 1 < chars.len() && chars[e1] == '.' && is_digit(chars[e1 + 1]) {
                let e2 = digits_end(chars, e1 + 1);
                (TokenKindOf::Float(chars.subrange(s, e2)), e2)
            } else {
                (TokenKindOf::Integer(int_literal_value(chars.subrange(s, e1))), e1)
            }
        } else if is_word_start(c) {
            let e = word_end(chars, s);
            (word_kind(chars.subrange(s, e)), e)
        } else {
            (TokenKindOf::Unknown(c), s + 1)
        }
    }
}

/// The token that the lexer reads at position `p`: whitespace and comments
/// are skipped; the token carries the text of its kind and the line and
/// column of its first character. Also returns the position after it.
pub open spec fn next_token_at(chars: Seq<char>, p: int) -> (TokenM, int) {
    let s = trivia_end(chars, p);
    let (kind, e) = token_at(chars, s);
    let (l, c) = line_col(chars, s);
    (TokenOf { kind, lexeme: kind_text(kind), line: l as usize, col: c as usize }, e)
}

pub proof fn lemma_comment_end_ge(chars: Seq<char>, p: int)
    ensures
        comment_end(chars, p) >= p,
        p >= 0 ==> comment_end(chars, p) <= chars.len() || comment_end(chars, p) == p,
    decreases chars.len() - p,
{
    if !(p >= chars.len() || p < 0 || chars[p] == '\n') {
        lemma_comment_end_ge(chars, p + 1);
    }
}

pub proof fn lemma_line_col_bounds(chars: Seq<char>, p: int)
    requires
        p >= 0,
    ensures
        line_col(chars, p).0 >= 1,
        line_col(chars, p).1 >= 1,
        line_col(chars, p).0 + line_col(chars, p).1 <= p + 2,
    decreases p,
{
    if p > 0 {
        lemma_line_col_bounds(chars, p - 1);
    }
}

pub proof fn lemma_trivia_end_bounds(chars: Seq<char>, p: int)
    requires
        0 <= p <= chars.len(),
    ensures
        p <= trivia_end(chars, p) <= chars.len(),
    decreases chars.len() - p,
{
    if p < chars.len() {
        if is_ws(chars[p]) {
            lemma_trivia_end_bounds(chars, p + 1);
        } else if chars[p] == '#' {
            lemma_comment_end_bounds(chars, p + 1);
            lemma_trivia_end_bounds(chars, comment_end(chars, p + 1));
        }
    }
}

pub proof fn lemma_comment_end_bounds(chars: Seq<char>, p: int)
    requires
        0 <= p <= chars.len(),
    ensures
        p <= comment_end(chars, p) <= chars.len(),
    decreases chars.len() - p,
{
    if p < chars.len() && chars[p] != '\n' {
        lemma_comment_end_bounds(chars, p + 1);
    }
}

pub proof fn lemma_digits_end_bounds(chars: Seq<char>, p: int)
    requires
        0 <= p <= chars.len(),
    ensures
        p <= digits_end(chars, p) <= chars.len(),
    decreases chars.len() - p,
{
    if p < chars.len() && is_digit(chars[p]) {
        lemma_digits_end_bounds(chars, p + 1);
    }
}

pub proof fn lemma_word_end_bounds(chars: Seq<char>, p: int)
    requires
        0 <= p <= chars.len(),
    ensures
        p <= word_end(chars, p) <= chars.len(),
    decreases chars.len() - p,
{
    if p < chars.len() && is_word_char(chars[p]) {
        lemma_word_end_bounds(chars, p + 1);
    }
}

pub proof fn lemma_string_body_bounds(chars: Seq<char>, q: int)
    requires
        0 <= q <= chars.len(),
    ensures
        q <= string_body(chars, q).1 <= chars.len(),
    decreases chars.len() - q,
{
    if q < chars.len() {
        if chars[q] == '\\' && q + 1 < chars.len() {
            lemma_string_body_bounds(chars, q + 2);
        } else if chars[q] != '"' && chars[q] != '\\' {
            lemma_string_body_bounds(chars, q + 1);
        }
    }
}

/// The lexer always moves on: at a position within the text, the token it
/// reads is `Eof` exactly when only whitespace and comments are left, and
/// then it ends at the end of the text; any other token ends after the
/// position it was read from, and within the text.
pub proof fn lemma_next_token_progress(chars: Seq<char>, p: int)
    requires
        0 <= p <= chars.len(),
    ensures
        ({
            let (t, e) = next_token_at(chars, p);
            &&& (t.kind is Eof) <==> trivia_end(chars, p) == chars.len()
            &&& t.kind is Eof ==> e == chars.len()
            &&& !(t.kind is Eof) ==> p < e <= chars.len()
        }),
{
    lemma_trivia_end_bounds(chars, p);
    let s = trivia_end(chars, p);
    if s < chars.len() {
        lemma_string_body_bounds(chars, s + 1);
        lemma_digits_end_bounds(chars, s + 1);
        lemma_word_end_bounds(chars, s + 1);
        let e1 = digits_end(chars, s);
        if e1 + 1 < chars.len() {
            lemma_digits_end_bounds(chars, e1 + 1);
        }
        let c = chars[s];
        if is_word_start(c) && !is_digit(c) && c != '"' {
            let w = chars.subrange(s, word_end(chars, s));
            assert(!(word_kind(w) is Eof));
        }
    }
}

/// The tokens the lexer reads from position `p` on, up to and including the
/// first `Eof` token.
pub open spec fn tokens_from(chars: Seq<char>, p: int) -> Seq<TokenM>
    decreases chars.len() - p,
{
    if 0 <= p <= chars.len() {
        let (t, e) = next_token_at(chars, p);
        if t.kind is Eof {
            seq![t]
        } else {
            proof {
                lemma_next_token_progress(chars, p);
            }
            seq![t] + tokens_from(chars, e)
        }
    } else {
        Seq::empty()
    }
}


/// Once the lexer has read `Eof` it stays at the end: reading again gives
/// the same `Eof` token at the same position.
pub proof fn lemma_eof_is_sticky(chars: Seq<char>, p: int)
    requires
        0 <= p <= chars.len(),
        next_token_at(chars, p).0.kind is Eof,
    ensures
        next_token_at(chars, p).1 == chars.len(),
        next_token_at(chars, next_token_at(chars, p).1) == next_token_at(chars, p),
{
    lemma_next_token_progress(chars, p);
}

/// The tokens read from a position end with an `Eof` token, and that is the
/// only `Eof` among them.
pub proof fn lemma_tokens_from_end_with_eof(chars: Seq<char>, p: int)
    requires
        0 <= p <= chars.len(),
    ensures
        tokens_from(chars, p).len() >= 1,
        tokens_from(chars, p).last().kind is Eof,
        forall|i: int| 0 <= i < tokens_from(chars, p).len() - 1 ==> !(#[trigger] tokens_from(chars, p)[i].kind is Eof),
    decreases chars.len() - p,
{
    let (t, e) = next_token_at(chars, p);
    lemma_next_token_progress(chars, p);
    if !(t.kind is Eof) {
        lemma_tokens_from_end_with_eof(chars, e);
        let rest = tokens_from(chars, e);
        assert(tokens_from(chars, p) == seq![t] + rest);
        assert forall|i: int| 0 <= i < tokens_from(chars, p).len() - 1 implies !(#[trigger] tokens_from(chars, p)[i].kind is Eof) by {
            if i > 0 {
                assert(tokens_from(chars, p)[i] == rest[i - 1]);
            }
        }
    }
}


/// Lexing ends: from position `p` the lexer reads at most one token per
/// remaining character, plus the final `Eof`.
pub proof fn lemma_tokens_from_len(chars: Seq<char>, p: int)
    requires
        0 <= p <= chars.len(),
    ensures
        tokens_from(chars, p).len() <= chars.len() - p + 1,
    decreases chars.len() - p,
{
    let (t, e) = next_token_at(chars, p);
    lemma_next_token_progress(chars, p);
    if !(t.kind is Eof) {
        lemma_tokens_from_len(chars, e);
    }
}

/// The number of line feeds before position `p`.
pub open spec fn newlines_before(chars: Seq<char>, p: int) -> int
    decreases p,
{
    if p <= 0 {
        0
    } else {
        newlines_before(chars, p - 1) + if chars[p - 1] == '\n' {
            1int
        } else {
            0int
        }
    }
}

/// The position of the last line feed before `p`, or -1 when there is none.
pub open spec fn last_newline_before(chars: Seq<char>, p: int) -> int
    decreases p,
{
    if p <= 0 {
        -1
    } else if chars[p - 1] == '\n' {
        p - 1
    } else {
        last_newline_before(chars, p - 1)
    }
}

/// Line and column in closed form: the line is one more than the number of
/// line feeds before the position, and the column is the distance from the
/// last of them (or from just before the start of the text).
pub proof fn lemma_line_col_closed_form(chars: Seq<char>, p: int)
    requires
        0 <= p <= chars.len(),
    ensures
        line_col(chars, p) == (1 + newlines_before(chars, p), p - last_newline_before(chars, p)),
    decreases p,
{
    if p > 0 {
        lemma_line_col_closed_form(chars, p - 1);
    }
}


/// A word: a letter or `_`, then letters, digits and `_`s.
pub open spec fn is_word(w: Seq<char>) -> bool {
    &&& w.len() > 0
    &&& is_word_start(w[0])
    &&& forall|i: int| 0 <= i < w.len() ==> is_word_char(#[trigger] w[i])
}

proof fn lemma_word_end_of_word(w: Seq<char>, i: int)
    requires
        is_word(w),
        0 <= i <= w.len(),
    ensures
        word_end(w, i) == w.len(),
    decreases w.len() - i,
{
    if i < w.len() {
        assert(is_word_char(w[i]));
        lemma_word_end_of_word(w, i + 1);
    }
}

/// Lexing a word reads it whole, as the keyword it spells or as a name.
pub proof fn lemma_word_reads_back(w: Seq<char>)
    requires
        is_word(w),
    ensures
        next_token_at(w, 0).0.kind == word_kind(w),
        next_token_at(w, 0).1 == w.len(),
{
    lemma_word_end_of_word(w, 0);
    assert(w.subrange(0, w.len() as int) =~= w);
}

/// Every keyword and type name, `true`, `false` and `nil` read back as the
/// kind they are the text of.
pub proof fn lemma_keyword_reads_back(k: TokenKindM)
    requires
        k is Make || k is Show || k is When || k is Otherwise || k is During || k is For
            || k is Return || k is Func || k is And || k is Or || k is Boolean || k is Nil
            || k is TypeInt || k is TypeFloat || k is TypeBool || k is TypeString || k is TypeVoid,
    ensures
        next_token_at(kind_text(k), 0).0.kind == k,
{
    reveal_strlit("make");
    reveal_strlit("show");
    reveal_strlit("if");
    reveal_strlit("when");
    reveal_strlit("else");
    reveal_strlit("otherwise");
    reveal_strlit("while");
    reveal_strlit("during");
    reveal_strlit("for");
    reveal_strlit("return");
    reveal_strlit("func");
    reveal_strlit("and");
    reveal_strlit("or");
    reveal_strlit("true");
    reveal_strlit("false");
    reveal_strlit("nil");
    reveal_strlit("int");
    reveal_strlit("float");
    reveal_strlit("bool");
    reveal_strlit("String");
    reveal_strlit("void");
    let w = kind_text(k);
    assert(is_word(w));
    lemma_word_reads_back(w);
    match k {
        TokenKindOf::Make => assert(word_kind(w) == k),
        TokenKindOf::Show => assert(word_kind(w) == k),
        TokenKindOf::When => assert(word_kind(w) == k),
        TokenKindOf::Otherwise => assert(word_kind(w) == k),
        TokenKindOf::During => assert(word_kind(w) == k),
        TokenKindOf::For => assert(word_kind(w) == k),
        TokenKindOf::Return => assert(word_kind(w) == k),
        TokenKindOf::Func => assert(word_kind(w) == k),
        TokenKindOf::And => assert(word_kind(w) == k),
        TokenKindOf::Or => assert(word_kind(w) == k),
        TokenKindOf::Boolean(b) => assert(word_kind(w) == k),
        TokenKindOf::Nil => assert(word_kind(w) == k),
        TokenKindOf::TypeInt => assert(word_kind(w) == k),
        TokenKindOf::TypeFloat => {
            assert(w[1] != "false"@[1]);
            assert(word_kind(w) == k);
        },
        TokenKindOf::TypeBool => assert(word_kind(w) == k),
        TokenKindOf::TypeString => assert(word_kind(w) == k),
        TokenKindOf::TypeVoid => assert(word_kind(w) == k),
        _ => {},
    }
}


/// Every operator and delimiter reads back as the kind it is the text of.
pub proof fn lemma_operator_reads_back(k: TokenKindM)
    requires
        k is Plus || k is Minus || k is Star || k is Slash || k is Percent || k is AndAnd
            || k is OrOr || k is Equal || k is DoubleEqual || k is NotEqual || k is Not
            || k is Less || k is LessEqual || k is Greater || k is GreaterEqual || k is LeftParen
            || k is RightParen || k is LeftBrace || k is RightBrace || k is Semicolon
            || k is Colon || k is Comma,
    ensures
        next_token_at(kind_text(k), 0).0.kind == k,
{
    reveal_strlit("+");
    reveal_strlit("-");
    reveal_strlit("*");
    reveal_strlit("/");
    reveal_strlit("%");
    reveal_strlit("&&");
    reveal_strlit("||");
    reveal_strlit("=");
    reveal_strlit("==");
    reveal_strlit("!=");
    reveal_strlit("!");
    reveal_strlit("<");
    reveal_strlit("<=");
    reveal_strlit(">");
    reveal_strlit(">=");
    reveal_strlit("(");
    reveal_strlit(")");
    reveal_strlit("{");
    reveal_strlit("}");
    reveal_strlit(";");
    reveal_strlit(":");
    reveal_strlit(",");
    let w = kind_text(k);
    assert(trivia_end(w, 0) == 0);
}


proof fn lemma_decimal_digits(n: nat)
    ensures
        decimal_nat(n).len() > 0,
        forall|i: int| 0 <= i < decimal_nat(n).len() ==> is_digit(#[trigger] decimal_nat(n)[i]),
        digits_value(decimal_nat(n)) == n,
    decreases n,
{
    let d = (n % 10) as int;
    assert(digit_value(digit_char(d)) == d);
    if n < 10 {
        assert(decimal_nat(n) == seq![digit_char(n as int)]);
        assert(seq![digit_char(n as int)].drop_last() =~= Seq::<char>::empty());
        assert(digits_value(Seq::<char>::empty()) == 0);
        assert(n % 10 == n);
        assert(digits_value(decimal_nat(n)) == n);
    } else {
        lemma_decimal_digits(n / 10);
        let s = decimal_nat(n / 10);
        let t = s.push(digit_char((n % 10) as int));
        assert(t.drop_last() =~= s);
        assert(digits_value(t) == digits_value(s) * 10 + digit_value(t.last()));
        assert((n / 10) * 10 + n % 10 == n) by (nonlinear_arith);
        assert(t.last() == digit_char(d));
        assert(decimal_nat(n) == t);
        assert(digits_value(decimal_nat(n)) == n);
    }
}

proof fn lemma_digits_end_of_digits(w: Seq<char>, i: int)
    requires
        0 <= i <= w.len(),
        forall|j: int| 0 <= j < w.len() ==> is_digit(#[trigger] w[j]),
    ensures
        digits_end(w, i) == w.len(),
    decreases w.len() - i,
{
    if i < w.len() {
        assert(is_digit(w[i]));
        lemma_digits_end_of_digits(w, i + 1);
    }
}

/// A non-negative integer reads back from its decimal text.
pub proof fn lemma_integer_reads_back(n: i64)
    requires
        n >= 0,
    ensures
        next_token_at(kind_text(TokenKindOf::Integer(n)), 0).0.kind == TokenKindOf::<Seq<char>>::Integer(n),
{
    let w = decimal_nat(n as nat);
    lemma_decimal_digits(n as nat);
    assert(kind_text(TokenKindOf::<Seq<char>>::Integer(n)) == w);
    lemma_digits_end_of_digits(w, 0);
    assert(is_digit(w[0]));
    assert(w.subrange(0, w.len() as int) =~= w);
}

/// A name that is not a keyword reads back as that name.
pub proof fn lemma_identifier_reads_back(name: Seq<char>)
    requires
        is_word(name),
        word_kind(name) == TokenKindOf::<Seq<char>>::Identifier(name),
    ensures
        next_token_at(kind_text(TokenKindOf::Identifier(name)), 0).0.kind == TokenKindOf::<
            Seq<char>,
        >::Identifier(name),
{
    lemma_word_reads_back(name);
}

/// Reads the characters of a source text one token at a time.
pub struct Lexer<'src> {
    #[allow(dead_code)]
    source: &'src str,
    chars: Vec<char>,
    cursor: usize,
    line: usize,
    col: usize,
}

impl<'src> Lexer<'src> {
    /// The characters of the source text.
    pub closed spec fn text(&self) -> Seq<char> {
        self.chars@
    }

    /// The position of the next character to read.
    pub closed spec fn pos(&self) -> int {
        self.cursor as int
    }

    /// The position is within the text, and the line and column counters are
    /// those of the position.
    pub closed spec fn wf(&self) -> bool {
        &&& self.chars@.len() < usize::MAX
        &&& self.cursor <= self.chars@.len()
        &&& line_col(self.chars@, self.cursor as int) == (self.line as int, self.col as int)
    }

    /// A well-formed lexer's position is within its text, and the text is
    /// shorter than `usize::MAX`.
    pub proof fn lemma_bounds(&self)
        requires
            self.wf(),
        ensures
            0 <= self.pos() <= self.text().len() < usize::MAX,
    {
    }

    /// A lexer at the start of `source`.
    pub fn new(source: &'src str) -> (lx: Self)
        requires
            source@.len() < usize::MAX,
        ensures
            lx.wf(),
            lx.text() == source@,
            lx.pos() == 0,
            lx.text().len() < usize::MAX,
    {
        let mut chars: Vec<char> = Vec::new();
        for c in it: source.chars()
            invariant
                chars@ == it.seq().take(it.index() as int),
        {
            chars.push(c);
        }
        Lexer { source, chars, cursor: 0, line: 1, col: 1 }
    }

    /// Reads the next token: skips whitespace and comments, then reads the
    /// longest token that starts there (see [`next_token_at`]). At the end of
    /// the text it returns an `Eof` token and stays at the end.
    pub fn next_token(&mut self) -> (tok: Token)
        requires
            old(self).wf(),
        ensures
            final(self).wf(),
            final(self).text() == old(self).text(),
            (tok@, final(self).pos()) == next_token_at(old(self).text(), old(self).pos()),
            0 <= final(self).pos() <= final(self).text().len() < usize::MAX,
    {
        let ghost text = self.text();
        loop
            invariant
                self.wf(),
                self.text() == text,
                text == old(self).text(),
                old(self).pos() <= self.pos(),
                trivia_end(text, self.pos()) == trivia_end(text, old(self).pos()),
            decreases text.len() - self.pos(),
        {
            self.skip_whitespace();
            let ghost s = self.pos();
            let tok_line = self.line;
            let tok_col = self.col;
            if self.at_char('#') {
                proof {
                    lemma_comment_end_ge(text, s + 1);
                }
                self.skip_comment();
                continue ;
            }
            assert(trivia_end(text, s) == s);
            let kind = match self.peek() {
                None => TokenKindOf::Eof,
                Some('"') => self.scan_string(),
                Some('+') => {
                    self.advance();
                    TokenKindOf::Plus
                },
                Some('-') => {
                    self.advance();
                    TokenKindOf::Minus
                },
                Some('*') => {
                    self.advance();
                    TokenKindOf::Star
                },
                Some('/') => {
                    self.advance();
                    TokenKindOf::Slash
                },
                Some('%') => {
                    self.advance();
                    TokenKindOf::Percent
                },
                Some('&') => {
                    self.advance();
                    if self.at_char('&') {
                        self.advance();
                        TokenKindOf::AndAnd
                    } else {
                        TokenKindOf::Unknown('&')
                    }
                },
                Some('|') => {
                    self.advance();
                    if self.at_char('|') {
                        self.advance();
                        TokenKindOf::OrOr
                    } else {
                        TokenKindOf::Unknown('|')
                    }
                },
                Some('(') => {
                    self.advance();
                    TokenKindOf::LeftParen
                },
                Some(')') => {
                    self.advance();
                    TokenKindOf::RightParen
                },
                Some('{') => {
                    self.advance();
                    TokenKindOf::LeftBrace
                },
                Some('}') => {
                    self.advance();
                    TokenKindOf::RightBrace
                },
                Some(';') => {
                    self.advance();
                    TokenKindOf::Semicolon
                },
                Some(':') => {
                    self.advance();
                    TokenKindOf::Colon
                },
                Some(',') => {
                    self.advance();
                    TokenKindOf::Comma
                },
                Some('=') => {
                    self.advance();
                    if self.at_char('=') {
                        self.advance();
                        TokenKindOf::DoubleEqual
                    } else {
                        TokenKindOf::Equal
                    }
                },
                Some('!') => {
                    self.advance();
                    if self.at_char('=') {
                        self.advance();
                        TokenKindOf::NotEqual
                    } else {
                        TokenKindOf::Not
                    }
                },
                Some('<') => {
                    self.advance();
                    if self.at_char('=') {
                        self.advance();
                        TokenKindOf::LessEqual
                    } else {
                        TokenKindOf::Less
                    }
                },
                Some('>') => {
                    self.advance();
                    if self.at_char('=') {
                        self.advance();
                        TokenKindOf::GreaterEqual
                    } else {
                        TokenKindOf::Greater
                    }
                },
                Some(ch) => {
                    if '0' <= ch && ch <= '9' {
                        self.scan_number()
                    } else if ('a' <= ch && ch <= 'z') || ('A' <= ch && ch <= 'Z') || ch == '_' {
                        self.scan_word()
                    } else {
                        self.advance();
                        TokenKindOf::Unknown(ch)
                    }
                },
            };
            assert((kind@, self.pos()) == token_at(text, s));
            let lexeme = kind.display();
            return Token::new(kind, lexeme, tok_line, tok_col);
        }
    }

    fn at_char(&self, c: char) -> (b: bool)
        requires
            self.wf(),
        ensures
            b == (self.pos() < self.text().len() && self.text()[self.pos()] == c),
    {
        match self.peek() {
            Some(d) => d == c,
            None => false,
        }
    }

    /// Reads all the tokens from the current position, up to and including
    /// the first `Eof` token.
    pub fn tokenize(&mut self) -> (toks: Vec<Token>)
        requires
            old(self).wf(),
        ensures
            final(self).wf(),
            final(self).text() == old(self).text(),
            toks@.map_values(|t: Token| t@) == tokens_from(old(self).text(), old(self).pos()),
            0 <= final(self).pos() <= final(self).text().len() < usize::MAX,
    {
        let ghost text = self.text();
        let ghost p0 = self.pos();
        let mut toks: Vec<Token> = Vec::new();
        loop
            invariant_except_break
                tokens_from(text, p0) == toks@.map_values(|t: Token| t@) + tokens_from(
                    text,
                    self.pos(),
                ),
            invariant
                self.wf(),
                self.text() == text,
                text == old(self).text(),
                p0 == old(self).pos(),
                0 <= self.pos() <= text.len(),
            ensures
                self.wf(),
                self.text() == text,
                tokens_from(text, p0) == toks@.map_values(|t: Token| t@),
            decreases text.len() - self.pos(),
        {
            let ghost p = self.pos();
            proof {
                lemma_next_token_progress(text, p);
            }
            let tok = self.next_token();
            let eof = match tok.kind {
                TokenKindOf::Eof => true,
                _ => false,
            };
            let ghost before = toks@;
            toks.push(tok);
            assert(toks@.map_values(|t: Token| t@) =~= before.map_values(|t: Token| t@).push(
                tok@,
            ));
            if eof {
                assert(tokens_from(text, p) == seq![tok@]);
                assert(toks@.map_values(|t: Token| t@) =~= before.map_values(|t: Token| t@) + seq![tok@]);
                break;
            }
            assert(tokens_from(text, p) == seq![tok@] + tokens_from(text, self.pos()));
            assert(before.map_values(|t: Token| t@) + (seq![tok@] + tokens_from(text, self.pos()))
                =~= toks@.map_values(|t: Token| t@) + tokens_from(text, self.pos()));
        }
        toks
    }

    fn peek(&self) -> (r: Option<char>)
        requires
            self.wf(),
        ensures
            r == (if self.pos() < self.text().len() {
                Some(self.text()[self.pos()])
            } else {
                None
            }),
    {
        if self.cursor < self.chars.len() {
            Some(self.chars[self.cursor])
        } else {
            None
        }
    }

    fn peek_next(&self) -> (r: Option<char>)
        requires
            self.wf(),
        ensures
            r == (if self.pos() + 1 < self.text().len() {
                Some(self.text()[self.pos() + 1])
            } else {
                None
            }),
    {
        if self.cursor + 1 < self.chars.len() {
            Some(self.chars[self.cursor + 1])
        } else {
            None
        }
    }

    fn at_ws(&self) -> (b: bool)
        requires
            self.wf(),
        ensures
            b == (self.pos() < self.text().len() && is_ws(self.text()[self.pos()])),
    {
        match self.peek() {
            Some(c) => c == ' ' || c == '\t' || c == '\n' || c == '\x0C' || c == '\r',
            None => false,
        }
    }

    fn at_comment_char(&self) -> (b: bool)
        requires
            self.wf(),
        ensures
            b == (self.pos() < self.text().len() && self.text()[self.pos()] != '\n'),
    {
        match self.peek() {
            Some(c) => c != '\n',
            None => false,
        }
    }

    fn advance(&mut self) -> (r: Option<char>)
        requires
            old(self).wf(),
        ensures
            final(self).wf(),
            final(self).text() == old(self).text(),
            old(self).pos() < old(self).text().len() ==> r == Some(old(self).text()[old(self).pos()])
                && final(self).pos() == old(self).pos() + 1,
            old(self).pos() >= old(self).text().len() ==> r is None && final(self).pos() == old(
                self,
            ).pos(),
    {
        if self.cursor < self.chars.len() {
            let ch = self.chars[self.cursor];
            proof {
                lemma_line_col_bounds(self.chars@, self.cursor as int + 1);
            }
            self.cursor += 1;
            if ch == '\n' {
                self.line += 1;
                self.col = 1;
            } else {
                self.col += 1;
            }
            Some(ch)
        } else {
            None
        }
    }

    fn skip_whitespace(&mut self)
        requires
            old(self).wf(),
        ensures
            final(self).wf(),
            final(self).text() == old(self).text(),
            old(self).pos() <= final(self).pos(),
            trivia_end(final(self).text(), final(self).pos()) == trivia_end(
                old(self).text(),
                old(self).pos(),
            ),
            final(self).pos() < final(self).text().len() ==> !is_ws(
                final(self).text()[final(self).pos()],
            ),
    {
        while self.at_ws()
            invariant
                self.wf(),
                self.text() == old(self).text(),
                old(self).pos() <= self.pos(),
                trivia_end(self.text(), self.pos()) == trivia_end(old(self).text(), old(self).pos()),
            decreases self.text().len() - self.pos(),
        {
            self.advance();
        }
    }

    fn skip_comment(&mut self)
        requires
            old(self).wf(),
        ensures
            final(self).wf(),
            final(self).text() == old(self).text(),
            final(self).pos() == comment_end(old(self).text(), old(self).pos()),
    {
        while self.at_comment_char()
            invariant
                self.wf(),
                self.text() == old(self).text(),
                comment_end(self.text(), self.pos()) == comment_end(old(self).text(), old(self).pos()),
            decreases self.text().len() - self.pos(),
        {
            self.advance();
        }
    }
    fn at_digit(&self) -> (b: bool)
        requires
            self.wf(),
        ensures
            b == (self.pos() < self.text().len() && is_digit(self.text()[self.pos()])),
    {
        match self.peek() {
            Some(c) => '0' <= c && c <= '9',
            None => false,
        }
    }

    fn at_word_char(&self) -> (b: bool)
        requires
            self.wf(),
        ensures
            b == (self.pos() < self.text().len() && is_word_char(self.text()[self.pos()])),
    {
        match self.peek() {
            Some(c) => ('a' <= c && c <= 'z') || ('A' <= c && c <= 'Z') || ('0' <= c && c <= '9')
                || c == '_',
            None => false,
        }
    }

    /// The characters from `start` up to `end`, as a string.
    fn text_between(&self, start: usize, end: usize) -> (t: String)
        requires
            self.wf(),
            start <= end <= self.text().len(),
        ensures
            t@ == self.text().subrange(start as int, end as int),
    {
        let mut t = String::new();
        let mut i = start;
        while i < end
            invariant
                self.wf(),
                start <= i <= end <= self.text().len(),
                t@ == self.text().subrange(start as int, i as int),
            decreases end - i,
        {
            push_char(&mut t, self.chars[i]);
            i += 1;
            assert(t@ =~= self.text().subrange(start as int, i as int));
        }
        t
    }

    /// The value of the integer literal from `start` up to `end` (all digits).
    fn int_value(&self, start: usize, end: usize) -> (v: i64)
        requires
            self.wf(),
            start <= end <= self.text().len(),
            forall|k: int| start <= k < end ==> is_digit(#[trigger] self.text()[k]),
        ensures
            v == int_literal_value(self.text().subrange(start as int, end as int)),
    {
        let ghost text = self.text();
        let mut acc: i64 = 0;
        let mut overflow = false;
        let mut i = start;
        while i < end
            invariant
                self.wf(),
                text == self.text(),
                start <= i <= end <= text.len(),
                forall|k: int| start <= k < end ==> is_digit(#[trigger] text[k]),
                !overflow ==> acc == digits_value(text.subrange(start as int, i as int)),
                overflow ==> digits_value(text.subrange(start as int, i as int)) > i64::MAX,
                acc >= 0,
            decreases end - i,
        {
            let c = self.chars[i];
            assert(is_digit(text[i as int]));
            let d: i64 = (c as u32 - 48u32) as i64;
            let ghost prev = text.subrange(start as int, i as int);
            assert(text.subrange(start as int, i + 1).drop_last() =~= prev);
            if !overflow {
                if acc < 922337203685477580 || (acc == 922337203685477580 && d <= 7) {
                    acc = acc * 10 + d;
                } else {
                    overflow = true;
                }
            }
            i += 1;
        }
        if overflow {
            0
        } else {
            acc
        }
    }
    fn scan_digits(&mut self)
        requires
            old(self).wf(),
        ensures
            final(self).wf(),
            final(self).text() == old(self).text(),
            final(self).pos() == digits_end(old(self).text(), old(self).pos()),
            old(self).pos() <= final(self).pos(),
            forall|k: int|
                old(self).pos() <= k < final(self).pos() ==> is_digit(#[trigger] final(self).text()[k]),
    {
        while self.at_digit()
            invariant
                self.wf(),
                self.text() == old(self).text(),
                old(self).pos() <= self.pos(),
                digits_end(self.text(), self.pos()) == digits_end(old(self).text(), old(self).pos()),
                forall|k: int| old(self).pos() <= k < self.pos() ==> is_digit(#[trigger] self.text()[k]),
            decreases self.text().len() - self.pos(),
        {
            self.advance();
        }
    }

    fn scan_number(&mut self) -> (k: TokenKind)
        requires
            old(self).wf(),
            old(self).pos() < old(self).text().len(),
            is_digit(old(self).text()[old(self).pos()]),
        ensures
            final(self).wf(),
            final(self).text() == old(self).text(),
            (k@, final(self).pos()) == token_at(old(self).text(), old(self).pos()),
    {
        let start = self.cursor;
        self.scan_digits();
        let is_float = match (self.peek(), self.peek_next()) {
            (Some(c), Some(d)) => c == '.' && '0' <= d && d <= '9',
            _ => false,
        };
        if is_float {
            self.advance();
            self.scan_digits();
            let text = self.text_between(start, self.cursor);
            TokenKindOf::Float(text)
        } else {
            let v = self.int_value(start, self.cursor);
            TokenKindOf::Integer(v)
        }
    }

    fn scan_word(&mut self) -> (k: TokenKind)
        requires
            old(self).wf(),
            old(self).pos() < old(self).text().len(),
            is_word_start(old(self).text()[old(self).pos()]),
        ensures
            final(self).wf(),
            final(self).text() == old(self).text(),
            (k@, final(self).pos()) == token_at(old(self).text(), old(self).pos()),
    {
        let start = self.cursor;
        while self.at_word_char()
            invariant
                self.wf(),
                self.text() == old(self).text(),
                start <= self.pos(),
                start == old(self).pos(),
                word_end(self.text(), self.pos()) == word_end(old(self).text(), old(self).pos()),
            decreases self.text().len() - self.pos(),
        {
            self.advance();
        }
        let word = self.text_between(start, self.cursor);
        keyword_or_identifier(word)
    }
    fn scan_string(&mut self) -> (k: TokenKind)
        requires
            old(self).wf(),
            old(self).pos() < old(self).text().len(),
            old(self).text()[old(self).pos()] == '"',
        ensures
            final(self).wf(),
            final(self).text() == old(self).text(),
            (k@, final(self).pos()) == token_at(old(self).text(), old(self).pos()),
    {
        let ghost text = self.text();
        let ghost q0 = self.pos() + 1;
        self.advance();
        let mut buf = String::new();
        loop
            invariant
                self.wf(),
                self.text() == text,
                text == old(self).text(),
                q0 == old(self).pos() + 1,
                q0 <= self.pos(),
                0 < q0 <= text.len(),
                text[q0 - 1] == '"',
                string_body(text, q0) == (buf@ + string_body(text, self.pos()).0, string_body(
                    text,
                    self.pos(),
                ).1),
            ensures
                self.wf(),
                self.text() == text,
                string_body(text, q0) == (buf@, self.pos()),
            decreases text.len() - self.pos(),
        {
            let ghost q = self.pos();
            let ghost old_buf = buf@;
            match self.peek() {
                None => {
                    assert(buf@ + Seq::<char>::empty() =~= buf@);
                    break;
                },
                Some(ch) => {
                    if ch == '"' {
                        self.advance();
                        assert(buf@ + Seq::<char>::empty() =~= buf@);
                        return TokenKindOf::StringLit(buf);
                    } else if ch == '\\' {
                        self.advance();
                        match self.peek() {
                            None => {
                                assert(buf@ + Seq::<char>::empty() =~= buf@);
                                break;
                            },
                            Some(e) => {
                                let ghost rest = string_body(text, q + 2);
                                if e == 'n' {
                                    self.advance();
                                    push_char(&mut buf, '\n');
                                } else if e == 't' {
                                    self.advance();
                                    push_char(&mut buf, '\t');
                                } else if e == 'r' {
                                    self.advance();
                                    push_char(&mut buf, '\r');
                                } else if e == '\\' {
                                    self.advance();
                                    push_char(&mut buf, '\\');
                                } else if e == '"' {
                                    self.advance();
                                    push_char(&mut buf, '"');
                                } else {
                                    push_char(&mut buf, '\\');
                                    push_char(&mut buf, e);
                                    self.advance();
                                }
                                assert(old_buf + string_body(text, q).0 =~= buf@ + rest.0);
                            },
                        }
                    } else {
                        push_char(&mut buf, ch);
                        self.advance();
                        assert(old_buf + string_body(text, q).0 =~= buf@ + string_body(
                            text,
                            q + 1,
                        ).0);
                    }
                },
            }
        }
        TokenKindOf::StringLit(buf)
    }
}

/// The kind of a word (see [`word_kind`]).
fn keyword_or_identifier(word: String) -> (k: TokenKind)
    ensures
        k@ == word_kind(word@),
{
    if word == string_of("make") {
        TokenKindOf::Make
    } else if word == string_of("show") {
        TokenKindOf::Show
    } else if word == string_of("if") || word == string_of("when") {
        TokenKindOf::When
    } else if word == string_of("else") || word == string_of("otherwise") {
        TokenKindOf::Otherwise
    } else if word == string_of("while") || word == string_of("during") {
        TokenKindOf::During
    } else if word == string_of("for") {
        TokenKindOf::For
    } else if word == string_of("return") {
        TokenKindOf::Return
    } else if word == string_of("func") {
        TokenKindOf::Func
    } else if word == string_of("and") {
        TokenKindOf::And
    } else if word == string_of("or") {
        TokenKindOf::Or
    } else if word == string_of("true") {
        TokenKindOf::Boolean(true)
    } else if word == string_of("false") {
        TokenKindOf::Boolean(false)
    } else if word == string_of("nil") {
        TokenKindOf::Nil
    } else if word == string_of("int") {
        TokenKindOf::TypeInt
    } else if word == string_of("float") {
        TokenKindOf::TypeFloat
    } else if word == string_of("bool") {
        TokenKindOf::TypeBool
    } else if word == string_of("String") {
        TokenKindOf::TypeString
    } else if word == string_of("void") {
        TokenKindOf::TypeVoid
    } else {
        TokenKindOf::Identifier(word)
    }
}

} // verus!
