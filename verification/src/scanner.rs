//! Lexical analysis: turns source text into a sequence of classified tokens.
//!
//! The scanner makes a single left-to-right pass over the characters of the
//! source. Whitespace (space, newline) separates lexemes and is skipped. A
//! leading `"` starts a string literal that runs verbatim to the next `"`
//! (both quotes are kept in the token text); a leading decimal digit starts a
//! maximal digit run; a leading ASCII letter starts a maximal run of letters
//! and digits; the characters `=`, `<`, `>`, `!` combine with a following `=`
//! into a two-character operator; any other character is a lexeme by itself.
//! A fixed keyword table then maps exact lexemes to their reserved kinds.
//!
//! The whole pass is specified by [`lex`], a recursive function over the
//! character sequence, and `split` is proved to return exactly its result.
//! A string literal whose closing quote never arrives is the one lexical
//! fault: it is reported as [`LexError::UnterminatedString`] rather than read
//! out of bounds.

use vstd::prelude::*;

verus! {

/// The closed set of token categories.
#[derive(Clone, Copy, Debug, PartialEq, Eq, Structural)]
pub enum TokenKind {
    /// The keyword `fn`.
    FuncDef,
    /// `(`
    ParenthesOpen,
    /// `)`
    ParenthesClose,
    /// `{`
    Begin,
    /// `}`
    End,
    /// The keyword `while`.
    While,
    /// The keyword `if`.
    If,
    /// The keyword `else`.
    Else,
    /// The keyword `break`.
    Break,
    /// The keyword `return`.
    Return,
    /// A relational operator: `==`, `!=`, `<`, `<=`, `>`, `>=`.
    OpRel,
    /// An additive operator: `+` or `-`.
    OpAdd,
    /// A multiplicative operator: `*`, `/` or `%`.
    OpMul,
    /// A bare `=`.
    Assign,
    /// `,`
    Comma,
    /// `;`
    Semicolon,
    /// The literal `true` or `false`.
    Bool,
    /// A run of decimal digits.
    Int,
    /// A quoted string literal, quotes included in the text.
    String,
    /// A letter-led word that is no keyword.
    Ident,
    /// The sentinel that terminates every token stream.
    Eof,
}

/// One lexeme together with its category. Equality is structural
/// (kind and text).
#[derive(Debug, PartialEq, Eq)]
pub struct Token {
    pub kind: TokenKind,
    pub value: std::string::String,
}

/// The mathematical image of a [`Token`]: its kind and its text as a
/// character sequence.
pub struct SpecToken {
    pub kind: TokenKind,
    pub text: Seq<char>,
}

impl View for Token {
    type V = SpecToken;

    open spec fn view(&self) -> SpecToken {
        SpecToken { kind: self.kind, text: self.value@ }
    }
}

/// The one lexical fault: a string literal is opened and the input ends
/// before the closing quote.
#[derive(Clone, Copy, Debug, PartialEq, Eq, Structural)]
pub enum LexError {
    UnterminatedString,
}

/// Whitespace that separates lexemes.
pub open spec fn is_space_char(c: char) -> bool {
    c == ' ' || c == '\n'
}

/// A decimal digit.
pub open spec fn is_digit_char(c: char) -> bool {
    '0' <= c && c <= '9'
}

/// An ASCII letter.
pub open spec fn is_letter_char(c: char) -> bool {
    ('a' <= c && c <= 'z') || ('A' <= c && c <= 'Z')
}

/// A character that may begin a two-character operator ending in `=`.
pub open spec fn is_op_head_char(c: char) -> bool {
    c == '=' || c == '<' || c == '>' || c == '!'
}

/// The category of a complete lexeme: the keyword and operator table first,
/// then the shape of the first character.
pub open spec fn spec_classify(w: Seq<char>) -> TokenKind {
    if w == "fn"@ {
        TokenKind::FuncDef
    } else if w == "("@ {
        TokenKind::ParenthesOpen
    } else if w == ")"@ {
        TokenKind::ParenthesClose
    } else if w == "{"@ {
        TokenKind::Begin
    } else if w == "}"@ {
        TokenKind::End
    } else if w == "while"@ {
        TokenKind::While
    } else if w == "if"@ {
        TokenKind::If
    } else if w == "else"@ {
        TokenKind::Else
    } else if w == "break"@ {
        TokenKind::Break
    } else if w == "return"@ {
        TokenKind::Return
    } else if w == "=="@ || w == "!="@ || w == "<"@ || w == "<="@ || w == ">"@ || w == ">="@ {
        TokenKind::OpRel
    } else if w == "+"@ || w == "-"@ {
        TokenKind::OpAdd
    } else if w == "*"@ || w == "/"@ || w == "%"@ {
        TokenKind::OpMul
    } else if w == "="@ {
        TokenKind::Assign
    } else if w == ";"@ {
        TokenKind::Semicolon
    } else if w == ","@ {
        TokenKind::Comma
    } else if w == "true"@ || w == "false"@ {
        TokenKind::Bool
    } else if w.len() > 0 && is_digit_char(w[0]) {
        TokenKind::Int
    } else if w.len() > 0 && w[0] == '"' {
        TokenKind::String
    } else {
        TokenKind::Ident
    }
}

/// The token made from a complete lexeme.
pub open spec fn spec_tokenize(w: Seq<char>) -> SpecToken {
    SpecToken { kind: spec_classify(w), text: w }
}

/// How many characters from position `i` on are not a double quote.
pub open spec fn quote_scan_len(s: Seq<char>, i: int) -> nat
    decreases s.len() - i,
{
    if 0 <= i < s.len() && s[i] != '"' {
        1 + quote_scan_len(s, i + 1)
    } else {
        0
    }
}

/// The length of the maximal run of decimal digits starting at position `i`.
pub open spec fn digit_run_len(s: Seq<char>, i: int) -> nat
    decreases s.len() - i,
{
    if 0 <= i < s.len() && is_digit_char(s[i]) {
        1 + digit_run_len(s, i + 1)
    } else {
        0
    }
}

/// The length of the maximal run of letters and digits starting at
/// position `i`.
pub open spec fn ident_run_len(s: Seq<char>, i: int) -> nat
    decreases s.len() - i,
{
    if 0 <= i < s.len() && (is_letter_char(s[i]) || is_digit_char(s[i])) {
        1 + ident_run_len(s, i + 1)
    } else {
        0
    }
}

/// The position one past the lexeme that starts at position `i`, for a
/// lexeme that is neither whitespace nor a string literal. Defined for
/// `0 <= i < s.len()`.
pub open spec fn lexeme_end(s: Seq<char>, i: int) -> int {
    let e = if is_op_head_char(s[i]) {
        if i + 1 < s.len() && s[i + 1] == '=' {
            i + 2
        } else {
            i + 1
        }
    } else if is_digit_char(s[i]) {
        i + 1 + digit_run_len(s, i + 1)
    } else if is_letter_char(s[i]) {
        i + 1 + ident_run_len(s, i + 1)
    } else {
        i + 1
    };
    if e > s.len() {
        s.len() as int
    } else {
        e
    }
}

/// The token sequence of the source suffix that starts at position `i`, or
/// the lexical fault that stops it.
pub open spec fn lex_from(s: Seq<char>, i: int) -> Result<Seq<SpecToken>, LexError>
    decreases s.len() - i,
{
    if !(0 <= i < s.len()) {
        Ok(Seq::empty())
    } else if is_space_char(s[i]) {
        lex_from(s, i + 1)
    } else if s[i] == '"' {
        let close = i + 1 + quote_scan_len(s, i + 1);
        if close < s.len() && s[close] == '"' {
            lex_prepend(spec_tokenize(s.subrange(i, close + 1)), lex_from(s, close + 1))
        } else {
            Err(LexError::UnterminatedString)
        }
    } else {
        let j = lexeme_end(s, i);
        lex_prepend(spec_tokenize(s.subrange(i, j)), lex_from(s, j))
    }
}

/// Puts one more token in front of a lexing result.
pub open spec fn lex_prepend(t: SpecToken, r: Result<Seq<SpecToken>, LexError>) -> Result<
    Seq<SpecToken>,
    LexError,
> {
    match r {
        Ok(ts) => Ok(seq![t] + ts),
        Err(e) => Err(e),
    }
}

/// The token sequence of a whole source text: what `split` computes.
pub open spec fn lex(s: Seq<char>) -> Result<Seq<SpecToken>, LexError> {
    lex_from(s, 0)
}

/// The views of a sequence of tokens.
pub open spec fn tokens_view(ts: Seq<Token>) -> Seq<SpecToken> {
    ts.map_values(|t: Token| t@)
}

/// Character-wise equality of two string slices.
pub(crate) fn str_eq_str(a: &str, b: &str) -> (r: bool)
    ensures
        r == (a@ == b@),
{
    let la = a.unicode_len();
    let lb = b.unicode_len();
    if la != lb {
        return false;
    }
    let mut k: usize = 0;
    while k < la
        invariant
            la == a@.len(),
            la == b@.len(),
            k <= la,
            forall|m: int| 0 <= m < k ==> a@[m] == b@[m],
        decreases la - k,
    {
        if a.get_char(k) != b.get_char(k) {
            return false;
        }
        k = k + 1;
    }
    proof {
        assert(a@ =~= b@);
    }
    true
}

/// Classifies one complete lexeme against the keyword and operator table,
/// falling back on the shape of its first character.
fn tokenize(word: &str) -> (t: Token)
    ensures
        t@ == spec_tokenize(word@),
{
    let kind = if str_eq_str(word, "fn") {
        TokenKind::FuncDef
    } else if str_eq_str(word, "(") {
        TokenKind::ParenthesOpen
    } else if str_eq_str(word, ")") {
        TokenKind::ParenthesClose
    } else if str_eq_str(word, "{") {
        TokenKind::Begin
    } else if str_eq_str(word, "}") {
        TokenKind::End
    } else if str_eq_str(word, "while") {
        TokenKind::While
    } else if str_eq_str(word, "if") {
        TokenKind::If
    } else if str_eq_str(word, "else") {
        TokenKind::Else
    } else if str_eq_str(word, "break") {
        TokenKind::Break
    } else if str_eq_str(word, "return") {
        TokenKind::Return
    } else if str_eq_str(word, "==") || str_eq_str(word, "!=") || str_eq_str(word, "<")
        || str_eq_str(word, "<=") || str_eq_str(word, ">") || str_eq_str(word, ">=") {
        TokenKind::OpRel
    } else if str_eq_str(word, "+") || str_eq_str(word, "-") {
        TokenKind::OpAdd
    } else if str_eq_str(word, "*") || str_eq_str(word, "/") || str_eq_str(word, "%") {
        TokenKind::OpMul
    } else if str_eq_str(word, "=") {
        TokenKind::Assign
    } else if str_eq_str(word, ";") {
        TokenKind::Semicolon
    } else if str_eq_str(word, ",") {
        TokenKind::Comma
    } else if str_eq_str(word, "true") || str_eq_str(word, "false") {
        TokenKind::Bool
    } else {
        let n = word.unicode_len();
        if n > 0 {
            let c = word.get_char(0);
            if '0' <= c && c <= '9' {
                TokenKind::Int
            } else if c == '"' {
                TokenKind::String
            } else {
                TokenKind::Ident
            }
        } else {
            TokenKind::Ident
        }
    };
    Token { kind, value: word.to_owned() }
}

/// Splits a source text into its token sequence, or reports the unterminated
/// string literal that stops the scan. Returns exactly what [`lex`] assigns
/// to the text.
pub fn split(text: &str) -> (r: Result<Vec<Token>, LexError>)
    ensures
        match r {
            Ok(ts) => lex(text@) == Ok::<Seq<SpecToken>, LexError>(tokens_view(ts@)),
            Err(e) => lex(text@) == Err::<Seq<SpecToken>, LexError>(e),
        },
{
    let ghost s = text@;
    let n = text.unicode_len();
    let mut toks: Vec<Token> = Vec::new();
    let mut i: usize = 0;
    while i < n
        invariant
            n == s.len(),
            s == text@,
            i <= n,
            lex(s) == lex_prepend_all(tokens_view(toks@), lex_from(s, i as int)),
        decreases n - i,
    {
        let c = text.get_char(i);
        if c == ' ' || c == '\n' {
            i = i + 1;
        } else if c == '"' {
            let mut j = i + 1;
            while j < n && text.get_char(j) != '"'
                invariant
                    n == s.len(),
                    s == text@,
                    i + 1 <= j <= n,
                    i < n,
                    quote_scan_len(s, i + 1) == (j - i - 1) + quote_scan_len(s, j as int),
                decreases n - j,
            {
                j = j + 1;
            }
            if j == n {
                proof {
                    assert(quote_scan_len(s, n as int) == 0);
                    assert(i + 1 + quote_scan_len(s, i + 1) == n);
                }
                return Err(LexError::UnterminatedString);
            }
            proof {
                assert(quote_scan_len(s, j as int) == 0);
                assert(i + 1 + quote_scan_len(s, i + 1) == j);
            }
            let word = text.substring_char(i, j + 1);
            let t = tokenize(word);
            proof {
                lemma_view_push(toks@, t, tokens_view(toks@));
                assert(tokens_view(toks@) + seq![t@] + lex_unwrap(lex_from(s, j + 1)) =~= tokens_view(toks@)
                    + (seq![t@] + lex_unwrap(lex_from(s, j + 1))));
            }
            toks.push(t);
            i = j + 1;
        } else if '0' <= c && c <= '9' {
            let mut j = i + 1;
            while j < n && '0' <= text.get_char(j) && text.get_char(j) <= '9'
                invariant
                    n == s.len(),
                    s == text@,
                    i + 1 <= j <= n,
                    i < n,
                    digit_run_len(s, i + 1) == (j - i - 1) + digit_run_len(s, j as int),
                decreases n - j,
            {
                j = j + 1;
            }
            proof {
                assert(digit_run_len(s, j as int) == 0);
                assert(lexeme_end(s, i as int) == j);
            }
            let word = text.substring_char(i, j);
            let t = tokenize(word);
            proof {
                lemma_view_push(toks@, t, tokens_view(toks@));
                assert(tokens_view(toks@) + seq![t@] + lex_unwrap(lex_from(s, j as int))
                    =~= tokens_view(toks@) + (seq![t@] + lex_unwrap(lex_from(s, j as int))));
            }
            toks.push(t);
            i = j;
        } else if ('a' <= c && c <= 'z') || ('A' <= c && c <= 'Z') {
            let mut j = i + 1;
            while j < n && (('0' <= text.get_char(j) && text.get_char(j) <= '9') || ('a'
                <= text.get_char(j) && text.get_char(j) <= 'z') || ('A' <= text.get_char(j)
                && text.get_char(j) <= 'Z'))
                invariant
                    n == s.len(),
                    s == text@,
                    i + 1 <= j <= n,
                    i < n,
                    ident_run_len(s, i + 1) == (j - i - 1) + ident_run_len(s, j as int),
                decreases n - j,
            {
                j = j + 1;
            }
            proof {
                assert(ident_run_len(s, j as int) == 0);
                assert(lexeme_end(s, i as int) == j);
            }
            let word = text.substring_char(i, j);
            let t = tokenize(word);
            proof {
                lemma_view_push(toks@, t, tokens_view(toks@));
                assert(tokens_view(toks@) + seq![t@] + lex_unwrap(lex_from(s, j as int))
                    =~= tokens_view(toks@) + (seq![t@] + lex_unwrap(lex_from(s, j as int))));
            }
            toks.push(t);
            i = j;
        } else if c == '=' || c == '<' || c == '>' || c == '!' {
            let mut j = i + 1;
            if j < n && text.get_char(j) == '=' {
                j = j + 1;
            }
            proof {
                assert(lexeme_end(s, i as int) == j);
            }
            let word = text.substring_char(i, j);
            let t = tokenize(word);
            proof {
                lemma_view_push(toks@, t, tokens_view(toks@));
                assert(tokens_view(toks@) + seq![t@] + lex_unwrap(lex_from(s, j as int))
                    =~= tokens_view(toks@) + (seq![t@] + lex_unwrap(lex_from(s, j as int))));
            }
            toks.push(t);
            i = j;
        } else {
            proof {
                assert(lexeme_end(s, i as int) == i + 1);
            }
            let word = text.substring_char(i, i + 1);
            let t = tokenize(word);
            proof {
                lemma_view_push(toks@, t, tokens_view(toks@));
                assert(tokens_view(toks@) + seq![t@] + lex_unwrap(lex_from(s, i + 1))
                    =~= tokens_view(toks@) + (seq![t@] + lex_unwrap(lex_from(s, i + 1))));
            }
            toks.push(t);
            i = i + 1;
        }
    }
    proof {
        assert(lex_from(s, n as int) == Ok::<Seq<SpecToken>, LexError>(Seq::empty()));
        assert(tokens_view(toks@) + Seq::<SpecToken>::empty() =~= tokens_view(toks@));
    }
    Ok(toks)
}

/// Puts a sequence of tokens in front of a lexing result.
pub open spec fn lex_prepend_all(pre: Seq<SpecToken>, r: Result<Seq<SpecToken>, LexError>) -> Result<
    Seq<SpecToken>,
    LexError,
> {
    match r {
        Ok(ts) => Ok(pre + ts),
        Err(e) => Err(e),
    }
}

/// The token sequence of a successful lexing result.
pub open spec fn lex_unwrap(r: Result<Seq<SpecToken>, LexError>) -> Seq<SpecToken> {
    match r {
        Ok(ts) => ts,
        Err(_) => Seq::empty(),
    }
}

proof fn lemma_view_push(ts: Seq<Token>, t: Token, pre: Seq<SpecToken>)
    requires
        pre == tokens_view(ts),
    ensures
        tokens_view(ts.push(t)) == pre + seq![t@],
{
    assert(tokens_view(ts.push(t)) =~= pre + seq![t@]);
}

proof fn lemma_quote_scan_shift(a: Seq<char>, b: Seq<char>, j: int)
    requires
        j >= 0,
    ensures
        quote_scan_len(a + b, a.len() + j) == quote_scan_len(b, j),
    decreases b.len() - j,
{
    if j < b.len() && b[j] != '"' {
        lemma_quote_scan_shift(a, b, j + 1);
    }
}

proof fn lemma_digit_run_shift(a: Seq<char>, b: Seq<char>, j: int)
    requires
        j >= 0,
    ensures
        digit_run_len(a + b, a.len() + j) == digit_run_len(b, j),
    decreases b.len() - j,
{
    if j < b.len() && is_digit_char(b[j]) {
        lemma_digit_run_shift(a, b, j + 1);
    }
}

proof fn lemma_ident_run_shift(a: Seq<char>, b: Seq<char>, j: int)
    requires
        j >= 0,
    ensures
        ident_run_len(a + b, a.len() + j) == ident_run_len(b, j),
    decreases b.len() - j,
{
    if j < b.len() && (is_letter_char(b[j]) || is_digit_char(b[j])) {
        lemma_ident_run_shift(a, b, j + 1);
    }
}

/// Lexing a concatenation from inside the second part sees only the second
/// part.
proof fn lemma_lex_shift(a: Seq<char>, b: Seq<char>, j: int)
    requires
        j >= 0,
    ensures
        lex_from(a + b, a.len() + j) == lex_from(b, j),
    decreases b.len() - j,
{
    let s = a + b;
    let i = a.len() + j;
    if j >= b.len() {
        assert(lex_from(s, i) == Ok::<Seq<SpecToken>, LexError>(Seq::empty()));
    } else {
        assert(s[i] == b[j]);
        if is_space_char(b[j]) {
            lemma_lex_shift(a, b, j + 1);
        } else if b[j] == '"' {
            lemma_quote_scan_shift(a, b, j + 1);
            let m = quote_scan_len(b, j + 1);
            let close = j + 1 + m;
            if close < b.len() && b[close] == '"' {
                assert(s[a.len() + close] == b[close]);
                assert(s.subrange(i, a.len() + close + 1) =~= b.subrange(j, close + 1));
                lemma_lex_shift(a, b, close + 1);
            }
        } else {
            lemma_digit_run_shift(a, b, j + 1);
            lemma_ident_run_shift(a, b, j + 1);
            if j + 1 < b.len() {
                assert(s[i + 1] == b[j + 1]);
            }
            let e = lexeme_end(b, j);
            assert(lexeme_end(s, i) == a.len() + e);
            assert(s.subrange(i, a.len() + e) =~= b.subrange(j, e));
            lemma_lex_shift(a, b, e);
        }
    }
}

proof fn lemma_digit_run_stops(a: Seq<char>, k: int)
    requires
        0 <= k < a.len(),
        !is_digit_char(a.last()),
    ensures
        k + digit_run_len(a, k) < a.len(),
    decreases a.len() - k,
{
    if is_digit_char(a[k]) {
        lemma_digit_run_stops(a, k + 1);
    }
}

proof fn lemma_ident_run_stops(a: Seq<char>, k: int)
    requires
        0 <= k < a.len(),
        !is_letter_char(a.last()),
        !is_digit_char(a.last()),
    ensures
        k + ident_run_len(a, k) < a.len(),
    decreases a.len() - k,
{
    if is_letter_char(a[k]) || is_digit_char(a[k]) {
        lemma_ident_run_stops(a, k + 1);
    }
}

proof fn lemma_quote_scan_prefix(a: Seq<char>, b: Seq<char>, k: int)
    requires
        0 <= k,
        k + quote_scan_len(a, k) < a.len(),
    ensures
        quote_scan_len(a + b, k) == quote_scan_len(a, k),
    decreases a.len() - k,
{
    if k < a.len() && a[k] != '"' {
        lemma_quote_scan_prefix(a, b, k + 1);
    }
}

proof fn lemma_digit_run_prefix(a: Seq<char>, b: Seq<char>, k: int)
    requires
        0 <= k,
        k + digit_run_len(a, k) < a.len(),
    ensures
        digit_run_len(a + b, k) == digit_run_len(a, k),
    decreases a.len() - k,
{
    if k < a.len() && is_digit_char(a[k]) {
        lemma_digit_run_prefix(a, b, k + 1);
    }
}

proof fn lemma_ident_run_prefix(a: Seq<char>, b: Seq<char>, k: int)
    requires
        0 <= k,
        k + ident_run_len(a, k) < a.len(),
    ensures
        ident_run_len(a + b, k) == ident_run_len(a, k),
    decreases a.len() - k,
{
    if k < a.len() && (is_letter_char(a[k]) || is_digit_char(a[k])) {
        lemma_ident_run_prefix(a, b, k + 1);
    }
}

#[verifier::rlimit(90)]
proof fn lemma_lex_concat_from(a: Seq<char>, b: Seq<char>, i: int)
    requires
        0 <= i <= a.len(),
        a.len() > 0 ==> is_space_char(a.last()),
        lex_from(a, i) is Ok,
    ensures
        lex_from(a + b, i) == lex_prepend_all(lex_unwrap(lex_from(a, i)), lex(b)),
    decreases a.len() - i,
{
    let s = a + b;
    if i == a.len() {
        lemma_lex_shift(a, b, 0);
        assert(lex_from(a, i) == Ok::<Seq<SpecToken>, LexError>(Seq::empty()));
        match lex(b) {
            Ok(ts) => {
                assert(Seq::<SpecToken>::empty() + ts =~= ts);
            },
            Err(_) => {},
        }
    } else {
        assert(s[i] == a[i]);
        if is_space_char(a[i]) {
            lemma_lex_concat_from(a, b, i + 1);
        } else {
            // A non-space lexeme never starts at the final character, which
            // is a space, so the character after it still lies in `a`.
            assert(a[i] != a.last());
            assert(i < a.len() - 1);
            if a[i] == '"' {
                let m = quote_scan_len(a, i + 1);
                let close = i + 1 + m;
                assert(close < a.len() && a[close] == '"') by {
                    if !(close < a.len() && a[close] == '"') {
                        assert(lex_from(a, i) is Err);
                    }
                }
                lemma_quote_scan_prefix(a, b, i + 1);
                assert(s[close] == a[close]);
                assert(s.subrange(i, close + 1) =~= a.subrange(i, close + 1));
                lemma_lex_concat_from(a, b, close + 1);
                let tok = spec_tokenize(a.subrange(i, close + 1));
                match lex_from(a, close + 1) {
                    Ok(ts) => {
                        match lex(b) {
                            Ok(tsb) => {
                                assert(seq![tok] + (ts + tsb) =~= (seq![tok] + ts) + tsb);
                            },
                            Err(_) => {},
                        }
                    },
                    Err(_) => {},
                }
            } else {
                if is_digit_char(a[i]) {
                    lemma_digit_run_stops(a, i + 1);
                    lemma_digit_run_prefix(a, b, i + 1);
                }
                if is_letter_char(a[i]) {
                    lemma_ident_run_stops(a, i + 1);
                    lemma_ident_run_prefix(a, b, i + 1);
                }
                if is_op_head_char(a[i]) {
                    assert(s[i + 1] == a[i + 1]);
                }
                let e = lexeme_end(a, i);
                assert(lexeme_end(s, i) == e);
                assert(e <= a.len());
                assert(s.subrange(i, e) =~= a.subrange(i, e));
                lemma_lex_concat_from(a, b, e);
                let tok = spec_tokenize(a.subrange(i, e));
                match lex_from(a, e) {
                    Ok(ts) => {
                        match lex(b) {
                            Ok(tsb) => {
                                assert(seq![tok] + (ts + tsb) =~= (seq![tok] + ts) + tsb);
                            },
                            Err(_) => {},
                        }
                    },
                    Err(_) => {},
                }
            }
        }
    }
}

/// Tokenizing is compositional over concatenation: when a first text does
/// not end in the middle of a lexeme — it is empty or ends in whitespace —
/// and lexes cleanly, tokenizing it and a second text separately and joining
/// the two token sequences gives exactly the tokens of the concatenated
/// text, whatever the second text holds.
pub proof fn lemma_lex_concat(a: Seq<char>, b: Seq<char>)
    requires
        lex(a) is Ok,
        a.len() > 0 ==> is_space_char(a.last()),
    ensures
        lex(a + b) == lex_prepend_all(lex_unwrap(lex(a)), lex(b)),
{
    lemma_lex_concat_from(a, b, 0);
}

/// The sentinel token that closes every token stream.
pub open spec fn eof_token() -> SpecToken {
    SpecToken { kind: TokenKind::Eof, text: Seq::empty() }
}

/// Where a cursor stands after one step: one position further, except at the
/// final token, where it stays.
pub open spec fn spec_advance(len: int, pos: int) -> int {
    if pos + 1 < len {
        pos + 1
    } else {
        pos
    }
}

/// A cursor over the token sequence of one source text. The sequence always
/// ends in an [`TokenKind::Eof`] sentinel, so the current token can be read
/// without a bounds check; the cursor never moves past the sentinel.
#[derive(Debug)]
pub struct Scanner {
    tokens: Vec<Token>,
    pos: usize,
}

impl Scanner {
    /// The token sequence under the cursor, sentinel included.
    pub closed spec fn toks(&self) -> Seq<SpecToken> {
        tokens_view(self.tokens@)
    }

    /// The cursor position.
    pub closed spec fn pos_spec(&self) -> int {
        self.pos as int
    }

    /// The scanner's invariant: the stream is non-empty, ends in the
    /// sentinel, and the cursor is in bounds.
    pub open spec fn wf(&self) -> bool {
        &&& self.toks().len() >= 1
        &&& self.toks().last() == eof_token()
        &&& 0 <= self.pos_spec() < self.toks().len()
    }

    /// Tokenizes a whole source text and places the cursor on its first
    /// token. The stream is the result of [`lex`] with the sentinel
    /// appended; an unterminated string literal is the one failure.
    pub fn new(text: &str) -> (r: Result<Scanner, LexError>)
        ensures
            match r {
                Ok(sc) => {
                    &&& sc.wf()
                    &&& lex(text@) is Ok
                    &&& sc.toks() == lex_unwrap(lex(text@)).push(eof_token())
                    &&& sc.pos_spec() == 0
                },
                Err(e) => lex(text@) == Err::<Seq<SpecToken>, LexError>(e),
            },
    {
        match split(text) {
            Ok(mut toks) => {
                let ghost before = toks@;
                toks.push(Token { kind: TokenKind::Eof, value: std::string::String::new() });
                proof {
                    assert(tokens_view(toks@) =~= tokens_view(before).push(eof_token()));
                }
                Ok(Scanner { tokens: toks, pos: 0 })
            },
            Err(e) => Err(e),
        }
    }

    /// True while the current token is not the last input token: at least
    /// one more input token stands before the sentinel.
    pub fn is_not_end(&self) -> (r: bool)
        ensures
            r == (self.pos_spec() + 2 < self.toks().len()),
    {
        self.tokens.len() >= 2 && self.pos < self.tokens.len() - 2
    }

    /// The current token.
    pub fn peek(&self) -> (t: Token)
        requires
            self.wf(),
        ensures
            t@ == self.toks()[self.pos_spec()],
    {
        let t = &self.tokens[self.pos];
        Token { kind: t.kind, value: t.value.clone() }
    }

    /// The token one step ahead of the current one: what [`Scanner::next`]
    /// would return, without moving the cursor.
    pub fn peek_next(&self) -> (t: Token)
        requires
            self.wf(),
        ensures
            t@ == self.toks()[spec_advance(self.toks().len() as int, self.pos_spec())],
    {
        let q = if self.pos < self.tokens.len() - 1 {
            self.pos + 1
        } else {
            self.pos
        };
        let t = &self.tokens[q];
        Token { kind: t.kind, value: t.value.clone() }
    }

    /// Moves the cursor one token forward — except at the sentinel, where it
    /// stays — and returns the token it then stands on.
    pub fn next(&mut self) -> (t: Token)
        requires
            old(self).wf(),
        ensures
            final(self).wf(),
            final(self).toks() == old(self).toks(),
            final(self).pos_spec() == spec_advance(
                old(self).toks().len() as int,
                old(self).pos_spec(),
            ),
            t@ == final(self).toks()[final(self).pos_spec()],
    {
        if self.pos < self.tokens.len() - 1 {
            self.pos = self.pos + 1;
        }
        let t = &self.tokens[self.pos];
        Token { kind: t.kind, value: t.value.clone() }
    }
}

} // verus!
