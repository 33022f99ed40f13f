//! The lexical analyzer.
//!
//! Scans the source text left to right and produces a token vector
//! terminated by an `Eof` token. Whitespace is skipped; the two-character
//! operators `==`, `!=`, `<=`, `>=` are matched before their
//! one-character prefixes; a word is the maximal run of ASCII
//! alphanumerics and underscore, reserved if it is a keyword; a digit
//! starts a maximal decimal run whose value must fit in 32 bits.
//!
//! The whole scan is specified by the function `lex`, a mathematical
//! function from the character sequence to the token sequence (or to
//! nothing, when the text is rejected); `tokenize` is proved to return
//! exactly the specified tokens, and to fail exactly when `lex` rejects:
//! on an unrecognized character, on `!` followed by `!`, on `=` followed
//! by `!`, and on an out-of-range integer literal.

use vstd::prelude::*;

use crate::errors::CompileError;

verus! {

broadcast use vstd::std_specs::vec::group_vec_axioms;

/// The kind tag of a token.
#[derive(PartialEq, Eq, Structural, Clone, Copy, Debug)]
pub enum TokenKind {
    /// Punctuation or a keyword; the lexeme is in `op`.
    TkReserved,
    /// An identifier; the lexeme is in `op`.
    TkIdent,
    /// An integer literal; the value is in `val`.
    TkNum,
    /// The terminator that ends every token stream.
    TkEof,
}

/// One token: its kind, the numeric value for `TkNum`, and the lexeme
/// text for the other kinds.
pub struct Token {
    pub kind: TokenKind,
    pub val: u32,
    pub op: String,
}

/// The mathematical content of a token: its kind, value, and lexeme.
pub struct TokenModel {
    pub kind: TokenKind,
    pub val: u32,
    pub op: Seq<char>,
}

impl View for Token {
    type V = TokenModel;

    open spec fn view(&self) -> TokenModel {
        TokenModel { kind: self.kind, val: self.val, op: self.op@ }
    }
}

impl Token {
    /// A reserved, identifier, or end-of-file token carrying its lexeme.
    pub fn new_token(kind: TokenKind, op: String) -> (t: Token)
        ensures
            t.kind == kind,
            t.val == 0,
            t.op == op,
    {
        Token { kind, val: 0, op }
    }

    /// A numeric token carrying its value; its lexeme is empty.
    pub fn new_token_num(val: u32) -> (t: Token)
        ensures
            t.kind == TokenKind::TkNum,
            t.val == val,
            t.op@ == Seq::<char>::empty(),
    {
        Token { kind: TokenKind::TkNum, val, op: String::new() }
    }
}

// ---------------------------------------------------------------------
// Character classes
// ---------------------------------------------------------------------

/// ASCII whitespace.
pub open spec fn is_space_char(c: char) -> bool {
    c == ' ' || c == '\t' || c == '\n' || c == '\r'
}

/// An ASCII decimal digit.
pub open spec fn is_digit_char(c: char) -> bool {
    48 <= c as u32 && c as u32 <= 57
}

/// An ASCII letter or underscore: what may start a word.
pub open spec fn is_alpha_char(c: char) -> bool {
    (97 <= c as u32 && c as u32 <= 122) || (65 <= c as u32 && c as u32 <= 90) || c == '_'
}

/// What may continue a word: letters, digits, underscore.
pub open spec fn is_alnum_char(c: char) -> bool {
    is_alpha_char(c) || is_digit_char(c)
}

/// The single-character punctuation set.
pub open spec fn is_punct_char(c: char) -> bool {
    c == '+' || c == '-' || c == '*' || c == '/' || c == '(' || c == ')' || c == '{' || c == '}'
        || c == '[' || c == ']' || c == ',' || c == ';' || c == '&'
}

/// The reserved words: keywords and the one type name.
pub open spec fn is_keyword(w: Seq<char>) -> bool {
    w == "return"@ || w == "if"@ || w == "else"@ || w == "while"@ || w == "for"@ || w == "sizeof"@
        || w == "int"@
}

/// The first index at or after `i` that does not continue a word.
pub open spec fn word_end(s: Seq<char>, i: int) -> int
    decreases s.len() - i,
{
    if 0 <= i < s.len() && is_alnum_char(s[i]) {
        word_end(s, i + 1)
    } else {
        i
    }
}

/// The first index at or after `i` that is not a digit.
pub open spec fn digits_end(s: Seq<char>, i: int) -> int
    decreases s.len() - i,
{
    if 0 <= i < s.len() && is_digit_char(s[i]) {
        digits_end(s, i + 1)
    } else {
        i
    }
}

/// The value of the decimal digit run `s[i..j]`, most significant digit
/// first.
pub open spec fn digits_val(s: Seq<char>, i: int, j: int) -> int
    decreases j - i,
{
    if j <= i {
        0
    } else {
        digits_val(s, i, j - 1) * 10 + (s[j - 1] as u32 - 48)
    }
}

/// `word_end` stays within the text and past its start, everything
/// before it continues a word, and it stops at the first character that
/// does not.
proof fn lemma_word_end(s: Seq<char>, i: int)
    requires
        0 <= i <= s.len(),
    ensures
        i <= word_end(s, i) <= s.len(),
        forall|k: int| i <= k < word_end(s, i) ==> is_alnum_char(#[trigger] s[k]),
        word_end(s, i) < s.len() ==> !is_alnum_char(s[word_end(s, i)]),
    decreases s.len() - i,
{
    if i < s.len() && is_alnum_char(s[i]) {
        lemma_word_end(s, i + 1);
    }
}

/// The scan that stops exactly at the first non-word character finds
/// `word_end`.
proof fn lemma_word_end_unique(s: Seq<char>, i: int, j: int)
    requires
        0 <= i <= j <= s.len(),
        forall|k: int| i <= k < j ==> is_alnum_char(#[trigger] s[k]),
        j < s.len() ==> !is_alnum_char(s[j]),
    ensures
        word_end(s, i) == j,
    decreases j - i,
{
    if i < j {
        lemma_word_end_unique(s, i + 1, j);
    }
}

/// The digit-run analogue of `lemma_word_end`.
proof fn lemma_digits_end(s: Seq<char>, i: int)
    requires
        0 <= i <= s.len(),
    ensures
        i <= digits_end(s, i) <= s.len(),
        forall|k: int| i <= k < digits_end(s, i) ==> is_digit_char(#[trigger] s[k]),
        digits_end(s, i) < s.len() ==> !is_digit_char(s[digits_end(s, i)]),
    decreases s.len() - i,
{
    if i < s.len() && is_digit_char(s[i]) {
        lemma_digits_end(s, i + 1);
    }
}

/// The digit-run analogue of `lemma_word_end_unique`.
proof fn lemma_digits_end_unique(s: Seq<char>, i: int, j: int)
    requires
        0 <= i <= j <= s.len(),
        forall|k: int| i <= k < j ==> is_digit_char(#[trigger] s[k]),
        j < s.len() ==> !is_digit_char(s[j]),
    ensures
        digits_end(s, i) == j,
    decreases j - i,
{
    if i < j {
        lemma_digits_end_unique(s, i + 1, j);
    }
}

/// A digit run's value only grows as the run extends.
proof fn lemma_digits_val_mono(s: Seq<char>, i: int, j1: int, j2: int)
    requires
        i <= j1 <= j2,
        forall|k: int| i <= k < j2 ==> 0 <= #[trigger] (s[k] as u32) - 48,
        digits_val(s, i, j1) >= 0,
    ensures
        digits_val(s, i, j1) <= digits_val(s, i, j2),
        digits_val(s, i, j2) >= 0,
    decreases j2 - j1,
{
    if j1 < j2 {
        lemma_digits_val_mono(s, i, j1, j2 - 1);
    }
}

/// The value of a digit run is never negative.
proof fn lemma_digits_val_nonneg(s: Seq<char>, i: int, j: int)
    requires
        forall|k: int| i <= k < j ==> is_digit_char(#[trigger] s[k]),
    ensures
        digits_val(s, i, j) >= 0,
    decreases j - i,
{
    if i < j {
        lemma_digits_val_nonneg(s, i, j - 1);
    }
}

// ---------------------------------------------------------------------
// The specification of the scan
// ---------------------------------------------------------------------

/// A reserved-token model with the given lexeme.
pub open spec fn reserved_model(op: Seq<char>) -> TokenModel {
    TokenModel { kind: TokenKind::TkReserved, val: 0, op }
}

/// Prepends a token to a scan result, keeping a rejection a rejection.
pub open spec fn lex_cons(t: TokenModel, rest: Option<Seq<TokenModel>>) -> Option<
    Seq<TokenModel>,
> {
    match rest {
        Some(v) => Some(seq![t] + v),
        None => None,
    }
}

/// The scan of `s` from position `i` on: the token sequence it
/// produces, ending in the `Eof` token, or nothing when the text is
/// rejected.
pub open spec fn lex(s: Seq<char>, i: int) -> Option<Seq<TokenModel>>
    decreases s.len() - i,
    when 0 <= i <= s.len()
    via lex_decreases
{
    if i >= s.len() {
        Some(seq![TokenModel { kind: TokenKind::TkEof, val: 0, op: " "@ }])
    } else {
        let c = s[i];
        if is_space_char(c) {
            lex(s, i + 1)
        } else if c == '>' || c == '<' {
            if i + 1 < s.len() && s[i + 1] == '=' {
                lex_cons(reserved_model(s.subrange(i, i + 2)), lex(s, i + 2))
            } else {
                lex_cons(reserved_model(seq![c]), lex(s, i + 1))
            }
        } else if c == '=' || c == '!' {
            if i + 1 < s.len() && s[i + 1] == '=' {
                lex_cons(reserved_model(s.subrange(i, i + 2)), lex(s, i + 2))
            } else if i + 1 < s.len() && s[i + 1] == '!' {
                None
            } else {
                lex_cons(reserved_model(seq![c]), lex(s, i + 1))
            }
        } else if is_punct_char(c) {
            lex_cons(reserved_model(seq![c]), lex(s, i + 1))
        } else if is_alpha_char(c) {
            let j = word_end(s, i);
            let w = s.subrange(i, j);
            lex_cons(
                TokenModel {
                    kind: if is_keyword(w) {
                        TokenKind::TkReserved
                    } else {
                        TokenKind::TkIdent
                    },
                    val: 0,
                    op: w,
                },
                lex(s, j),
            )
        } else if is_digit_char(c) {
            let j = digits_end(s, i);
            if digits_val(s, i, j) > u32::MAX {
                None
            } else {
                lex_cons(
                    TokenModel {
                        kind: TokenKind::TkNum,
                        val: digits_val(s, i, j) as u32,
                        op: Seq::<char>::empty(),
                    },
                    lex(s, j),
                )
            }
        } else {
            None
        }
    }
}

#[via_fn]
proof fn lex_decreases(s: Seq<char>, i: int) {
    if 0 <= i < s.len() {
        if is_alpha_char(s[i]) {
            lemma_word_end(s, i);
            assert(word_end(s, i) > i);
        }
        if is_digit_char(s[i]) {
            lemma_digits_end(s, i);
            assert(digits_end(s, i) > i);
        }
    }
}


// ---------------------------------------------------------------------
// The executable scan
// ---------------------------------------------------------------------

/// ASCII whitespace.
fn is_space(c: char) -> (r: bool)
    ensures
        r == is_space_char(c),
{
    c == ' ' || c == '\t' || c == '\n' || c == '\r'
}

/// An ASCII decimal digit.
fn is_digit(c: char) -> (r: bool)
    ensures
        r == is_digit_char(c),
{
    let u = c as u32;
    48 <= u && u <= 57
}

/// An ASCII letter or underscore.
fn is_alpha(c: char) -> (r: bool)
    ensures
        r == is_alpha_char(c),
{
    let u = c as u32;
    (97 <= u && u <= 122) || (65 <= u && u <= 90) || c == '_'
}

/// What may continue a word: letters, digits, underscore.
fn is_alnum(c: char) -> (r: bool)
    ensures
        r == is_alnum_char(c),
{
    is_alpha(c) || is_digit(c)
}

/// Single-character punctuation.
fn is_punct(c: char) -> (r: bool)
    ensures
        r == is_punct_char(c),
{
    c == '+' || c == '-' || c == '*' || c == '/' || c == '(' || c == ')' || c == '{' || c == '}'
        || c == '[' || c == ']' || c == ',' || c == ';' || c == '&'
}

/// The one-character lexeme of a punctuation or operator character.
fn one_char_lexeme(c: char) -> (s: &'static str)
    requires
        is_punct_char(c) || c == '<' || c == '>' || c == '=' || c == '!',
    ensures
        s@ == seq![c],
{
    proof {
        reveal_strlit("+");
        reveal_strlit("-");
        reveal_strlit("*");
        reveal_strlit("/");
        reveal_strlit("(");
        reveal_strlit(")");
        reveal_strlit("{");
        reveal_strlit("}");
        reveal_strlit("[");
        reveal_strlit("]");
        reveal_strlit(",");
        reveal_strlit(";");
        reveal_strlit("&");
        reveal_strlit("<");
        reveal_strlit(">");
        reveal_strlit("=");
        reveal_strlit("!");
    }
    if c == '+' {
        "+"
    } else if c == '-' {
        "-"
    } else if c == '*' {
        "*"
    } else if c == '/' {
        "/"
    } else if c == '(' {
        "("
    } else if c == ')' {
        ")"
    } else if c == '{' {
        "{"
    } else if c == '}' {
        "}"
    } else if c == '[' {
        "["
    } else if c == ']' {
        "]"
    } else if c == ',' {
        ","
    } else if c == ';' {
        ";"
    } else if c == '&' {
        "&"
    } else if c == '<' {
        "<"
    } else if c == '>' {
        ">"
    } else if c == '=' {
        "="
    } else {
        "!"
    }
}

/// The characters of the text, in order.
fn chars_of(s: &str) -> (v: Vec<char>)
    ensures
        v@ == s@,
{
    let n = s.unicode_len();
    let mut v: Vec<char> = Vec::new();
    let mut i: usize = 0;
    while i < n
        invariant
            i <= n,
            n == s@.len(),
            v@ == s@.subrange(0, i as int),
        decreases n - i,
    {
        let c = s.get_char(i);
        v.push(c);
        proof {
            assert(v@ =~= s@.subrange(0, i as int + 1));
        }
        i = i + 1;
    }
    proof {
        assert(v@ =~= s@);
    }
    v
}

/// True when the word is a keyword: `return`, `if`, `else`, `while`,
/// `for`, `sizeof`, or the type name `int`.
fn is_reserved(s: &str) -> (r: bool)
    ensures
        r == is_keyword(s@),
{
    let w = s.to_owned();
    w == String::from_str("return") || w == String::from_str("if") || w == String::from_str(
        "else",
    ) || w == String::from_str("while") || w == String::from_str("for") || w == String::from_str(
        "sizeof",
    ) || w == String::from_str("int")
}

/// Scans the source text into its token vector, terminated by an `Eof`
/// token. Succeeds exactly when the specification `lex` accepts the
/// text, and then returns exactly the tokens it specifies; fails with a
/// `LexError` on an unrecognized character, on `!!` or `=!`, and on an
/// integer literal beyond the unsigned 32-bit range.
#[verifier::loop_isolation(false)]
#[verifier::rlimit(100)]
pub fn tokenize(s: String) -> (r: Result<Vec<Token>, CompileError>)
    ensures
        r is Ok <==> lex(s@, 0) is Some,
        r matches Ok(v) ==> Some(v@.map_values(|t: Token| t@)) == lex(s@, 0),
{
    let src = s.as_str();
    let chars = chars_of(src);
    let n = chars.len();
    let mut tokens: Vec<Token> = Vec::new();
    let mut i: usize = 0;
    while i < n
        invariant
            i <= n,
            n == s@.len(),
            chars@ == s@,
            lex(s@, 0) is Some <==> lex(s@, i as int) is Some,
            lex(s@, i as int) is Some ==> lex(s@, 0) == Some(
                tokens@.map_values(|t: Token| t@) + lex(s@, i as int)->0,
            ),
        decreases n - i,
    {
        let ghost i0 = i as int;
        let ghost tmap0 = tokens@.map_values(|t: Token| t@);
        let c = chars[i];
        if is_space(c) {
            i = i + 1;
            continue;
        }
        if c == '>' || c == '<' {
            if i + 1 < n && chars[i + 1] == '=' {
                let op = src.substring_char(i, i + 2).to_owned();
                proof {
                    assert(op@ =~= s@.subrange(i0, i0 + 2));
                }
                tokens.push(Token::new_token(TokenKind::TkReserved, op));
                i = i + 2;
            } else {
                let op = String::from_str(one_char_lexeme(c));
                tokens.push(Token::new_token(TokenKind::TkReserved, op));
                i = i + 1;
            }
            proof {
                assert(tokens@.map_values(|t: Token| t@) =~= tmap0 + seq![tokens@.last()@]);
                if lex(s@, i as int) is Some {
                    assert(tmap0 + (seq![tokens@.last()@] + lex(s@, i as int)->0)
                        =~= tokens@.map_values(|t: Token| t@) + lex(s@, i as int)->0);
                }
            }
            continue;
        }
        if c == '=' || c == '!' {
            if i + 1 < n && chars[i + 1] == '=' {
                let op = src.substring_char(i, i + 2).to_owned();
                proof {
                    assert(op@ =~= s@.subrange(i0, i0 + 2));
                }
                tokens.push(Token::new_token(TokenKind::TkReserved, op));
                i = i + 2;
            } else if i + 1 < n && chars[i + 1] == '!' {
                return Err(CompileError::LexError(String::from_str("unable tokenize")));
            } else {
                let op = String::from_str(one_char_lexeme(c));
                tokens.push(Token::new_token(TokenKind::TkReserved, op));
                i = i + 1;
            }
            proof {
                assert(tokens@.map_values(|t: Token| t@) =~= tmap0 + seq![tokens@.last()@]);
                if lex(s@, i as int) is Some {
                    assert(tmap0 + (seq![tokens@.last()@] + lex(s@, i as int)->0)
                        =~= tokens@.map_values(|t: Token| t@) + lex(s@, i as int)->0);
                }
            }
            continue;
        }
        if is_punct(c) {
            let op = String::from_str(one_char_lexeme(c));
            tokens.push(Token::new_token(TokenKind::TkReserved, op));
            i = i + 1;
            proof {
                assert(tokens@.map_values(|t: Token| t@) =~= tmap0 + seq![tokens@.last()@]);
                if lex(s@, i as int) is Some {
                    assert(tmap0 + (seq![tokens@.last()@] + lex(s@, i as int)->0)
                        =~= tokens@.map_values(|t: Token| t@) + lex(s@, i as int)->0);
                }
            }
            continue;
        }
        if is_alpha(c) {
            let mut j = i + 1;
            while j < n && is_alnum(chars[j])
                invariant
                    i < j <= n,
                    forall|k: int| i0 <= k < j ==> is_alnum_char(#[trigger] s@[k]),
                decreases n - j,
            {
                j = j + 1;
            }
            proof {
                lemma_word_end_unique(s@, i0, j as int);
            }
            let word = src.substring_char(i, j).to_owned();
            let reserved = is_reserved(word.as_str());
            if reserved {
                tokens.push(Token::new_token(TokenKind::TkReserved, word));
            } else {
                tokens.push(Token::new_token(TokenKind::TkIdent, word));
            }
            i = j;
            proof {
                assert(tokens@.map_values(|t: Token| t@) =~= tmap0 + seq![tokens@.last()@]);
                if lex(s@, i as int) is Some {
                    assert(tmap0 + (seq![tokens@.last()@] + lex(s@, i as int)->0)
                        =~= tokens@.map_values(|t: Token| t@) + lex(s@, i as int)->0);
                }
            }
            continue;
        }
        if is_digit(c) {
            let mut val: u32 = (c as u32) - 48;
            let mut j = i + 1;
            proof {
                lemma_digits_val_nonneg(s@, i0, i0);
            }
            loop
                invariant
                    i < j <= n,
                    forall|k: int| i0 <= k < j ==> is_digit_char(#[trigger] s@[k]),
                    val == digits_val(s@, i0, j as int),
                decreases n - j,
            {
                if !(j < n) {
                    break;
                }
                let cj = chars[j];
                if !is_digit(cj) {
                    break;
                }
                let d = (cj as u32) - 48;
                if val > (u32::MAX - d) / 10 {
                    proof {
                        lemma_digits_end(s@, i0);
                        assert(val * 10 + d > u32::MAX) by (nonlinear_arith)
                            requires
                                val > (u32::MAX - d) / 10,
                                d <= 9,
                        ;
                        lemma_digits_val_nonneg(s@, i0, j as int);
                        lemma_digits_val_mono(
                            s@,
                            i0,
                            j as int + 1,
                            digits_end(s@, i0),
                        );
                    }
                    return Err(
                        CompileError::LexError(
                            String::from_str("number literal out of range"),
                        ),
                    );
                }
                val = val * 10 + d;
                j = j + 1;
            }
            proof {
                lemma_digits_end_unique(s@, i0, j as int);
            }
            tokens.push(Token::new_token_num(val));
            i = j;
            proof {
                assert(tokens@.map_values(|t: Token| t@) =~= tmap0 + seq![tokens@.last()@]);
                if lex(s@, i as int) is Some {
                    assert(tmap0 + (seq![tokens@.last()@] + lex(s@, i as int)->0)
                        =~= tokens@.map_values(|t: Token| t@) + lex(s@, i as int)->0);
                }
            }
            continue;
        }
        return Err(CompileError::LexError(String::from_str("unable tokenize")));
    }
    proof {
        reveal_strlit(" ");
    }
    let ghost tmap0 = tokens@.map_values(|t: Token| t@);
    tokens.push(Token::new_token(TokenKind::TkEof, String::from_str(" ")));
    proof {
        assert(tokens@.map_values(|t: Token| t@) =~= tmap0 + seq![tokens@.last()@]);
        assert(tmap0 + seq![tokens@.last()@] =~= tmap0 + seq![
            TokenModel { kind: TokenKind::TkEof, val: 0, op: " "@ },
        ]);
    }
    Ok(tokens)
}

} // verus!
