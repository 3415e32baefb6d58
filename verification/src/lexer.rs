//! The lexer: turns slide source text into a sequence of located tokens.
//!
//! Lexical rules: a line whose first non-blank characters are `//` is dropped
//! whole; `[ ] ( ) { } ,` are single-character tokens; `::` is one token,
//! told from a lone `:` by one character of lookahead; text between a pair of
//! `"` delimiters is collected verbatim into one string value token; any
//! other maximal run of characters is a bare word, classified as a number, a
//! boolean, a `#RRGGBB` colour, or an identifier. Every token carries the
//! 0-based line and column of its first character.

use vstd::prelude::*;
use vstd::string::StrSliceExecFns;
use vstd::string::StringExecFns;

use crate::style::{PropertyValue, PropertyValueView};
use crate::text::str_eq;

verus! {

/// One token of slide source text.
#[derive(Debug, PartialEq, Eq)]
pub enum Token {
    /// `[`
    OpeningSlideParen,
    /// `]`
    ClosingSlideParen,
    /// `::`
    Definition,
    /// `:`
    ValueAssignment,
    /// `,`
    ListSeparator,
    /// `"`
    StringDelim,
    /// `(`
    OpeningArgsParen,
    /// `)`
    ClosingArgsParen,
    /// `{`
    OpeningParamsParen,
    /// `}`
    ClosingParamsParen,
    /// a number, string, boolean or colour literal
    Value(PropertyValue),
    /// any other bare word
    Ident(String),
}

/// The mathematical shape of a token.
pub enum TokenView {
    OpeningSlideParen,
    ClosingSlideParen,
    Definition,
    ValueAssignment,
    ListSeparator,
    StringDelim,
    OpeningArgsParen,
    ClosingArgsParen,
    OpeningParamsParen,
    ClosingParamsParen,
    Value(PropertyValueView),
    Ident(Seq<char>),
}

impl View for Token {
    type V = TokenView;

    open spec fn view(&self) -> TokenView {
        match self {
            Token::OpeningSlideParen => TokenView::OpeningSlideParen,
            Token::ClosingSlideParen => TokenView::ClosingSlideParen,
            Token::Definition => TokenView::Definition,
            Token::ValueAssignment => TokenView::ValueAssignment,
            Token::ListSeparator => TokenView::ListSeparator,
            Token::StringDelim => TokenView::StringDelim,
            Token::OpeningArgsParen => TokenView::OpeningArgsParen,
            Token::ClosingArgsParen => TokenView::ClosingArgsParen,
            Token::OpeningParamsParen => TokenView::OpeningParamsParen,
            Token::ClosingParamsParen => TokenView::ClosingParamsParen,
            Token::Value(v) => TokenView::Value(v@),
            Token::Ident(s) => TokenView::Ident(s@),
        }
    }
}

impl Clone for Token {
    fn clone(&self) -> (r: Self)
        ensures
            r@ == self@,
    {
        match self {
            Token::OpeningSlideParen => Token::OpeningSlideParen,
            Token::ClosingSlideParen => Token::ClosingSlideParen,
            Token::Definition => Token::Definition,
            Token::ValueAssignment => Token::ValueAssignment,
            Token::ListSeparator => Token::ListSeparator,
            Token::StringDelim => Token::StringDelim,
            Token::OpeningArgsParen => Token::OpeningArgsParen,
            Token::ClosingArgsParen => Token::ClosingArgsParen,
            Token::OpeningParamsParen => Token::OpeningParamsParen,
            Token::ClosingParamsParen => Token::ClosingParamsParen,
            Token::Value(v) => Token::Value(v.clone()),
            Token::Ident(s) => Token::Ident(s.clone()),
        }
    }
}

/// The 0-based source position of a token's first character.
#[derive(Clone, Copy, Debug, Default, PartialEq, Eq, PartialOrd, Ord, Structural)]
pub struct TokenLocation {
    pub line: usize,
    pub col: usize,
}

/// One token together with its source position.
#[derive(Debug, PartialEq, Eq)]
pub struct FatToken {
    pub token: Token,
    pub location: TokenLocation,
}

/// The mathematical shape of a located token.
pub struct FatTokenView {
    pub token: TokenView,
    pub location: TokenLocation,
}

impl View for FatToken {
    type V = FatTokenView;

    open spec fn view(&self) -> FatTokenView {
        FatTokenView { token: self.token@, location: self.location }
    }
}

impl DeepView for FatToken {
    type V = FatTokenView;

    open spec fn deep_view(&self) -> FatTokenView {
        self@
    }
}

impl Clone for FatToken {
    fn clone(&self) -> (r: Self)
        ensures
            r@ == self@,
    {
        FatToken { token: self.token.clone(), location: self.location }
    }
}

/// Blank characters inside a line.
pub open spec fn is_space(c: char) -> bool {
    c == ' ' || c == '\t' || c == '\r'
}

/// Characters that stand alone as tokens or open one.
pub open spec fn is_structural(c: char) -> bool {
    c == '[' || c == ']' || c == '(' || c == ')' || c == '{' || c == '}' || c == '"' || c == ','
        || c == ':'
}

/// Characters that may continue a bare word.
pub open spec fn is_word_char(c: char) -> bool {
    !is_space(c) && !is_structural(c) && c != '\n'
}

/// The index of the first line break at or after `i`, or the text's end.
pub open spec fn line_end(s: Seq<char>, i: int) -> int
    decreases s.len() - i,
{
    if i < 0 || i >= s.len() || s[i] == '\n' {
        i
    } else {
        line_end(s, i + 1)
    }
}

/// The index of the first non-blank character at or after `i`.
pub open spec fn skip_spaces(s: Seq<char>, i: int) -> int
    decreases s.len() - i,
{
    if 0 <= i < s.len() && is_space(s[i]) {
        skip_spaces(s, i + 1)
    } else {
        i
    }
}

/// The first non-blank characters at or after `i`, on the same line, are `//`.
pub open spec fn is_comment_from(s: Seq<char>, i: int) -> bool {
    let j = skip_spaces(s, i);
    j + 1 < s.len() && s[j] == '/' && s[j + 1] == '/'
}

/// The index just past the bare word starting at `i`.
pub open spec fn word_end(s: Seq<char>, i: int) -> int
    decreases s.len() - i,
{
    if 0 <= i < s.len() && is_word_char(s[i]) {
        word_end(s, i + 1)
    } else {
        i
    }
}

/// The index of the closing `"` of a string literal, the line's end, or the
/// text's end, whichever comes first at or after `i`.
pub open spec fn string_end(s: Seq<char>, i: int) -> int
    decreases s.len() - i,
{
    if i < 0 || i >= s.len() || s[i] == '"' || s[i] == '\n' {
        i
    } else {
        string_end(s, i + 1)
    }
}

/// Decimal digits.
pub open spec fn is_digit(c: char) -> bool {
    48 <= c as u32 <= 57
}

/// The value of one decimal digit.
pub open spec fn digit_val(c: char) -> int {
    c as u32 - 48
}

/// The value of a run of decimal digits.
pub open spec fn digits_val(w: Seq<char>) -> int
    decreases w.len(),
{
    if w.len() == 0 {
        0
    } else {
        digits_val(w.drop_last()) * 10 + digit_val(w.last())
    }
}

/// Every character is a decimal digit.
pub open spec fn all_digits(w: Seq<char>) -> bool {
    forall|i: int| 0 <= i < w.len() ==> is_digit(#[trigger] w[i])
}

/// The word is a decimal number that fits an unsigned 32-bit integer.
pub open spec fn is_number_word(w: Seq<char>) -> bool {
    w.len() > 0 && all_digits(w) && digits_val(w) <= u32::MAX
}

/// Hexadecimal digits.
pub open spec fn is_hex_digit(c: char) -> bool {
    48 <= c as u32 <= 57 || 97 <= c as u32 <= 102 || 65 <= c as u32 <= 70
}

/// The value of one hexadecimal digit.
pub open spec fn hex_val(c: char) -> int {
    if 48 <= c as u32 <= 57 {
        c as u32 - 48
    } else if 97 <= c as u32 <= 102 {
        c as u32 - 87
    } else {
        c as u32 - 55
    }
}

/// The word is `#` followed by exactly six hexadecimal digits.
pub open spec fn is_colour_word(w: Seq<char>) -> bool {
    w.len() == 7 && w[0] == '#' && (forall|i: int| 1 <= i < 7 ==> is_hex_digit(#[trigger] w[i]))
}

/// The value of one of the three channels of a colour word.
pub open spec fn colour_channel(w: Seq<char>, k: int) -> int {
    hex_val(w[2 * k + 1]) * 16 + hex_val(w[2 * k + 2])
}

/// How a bare word is read: as a number if it parses as one, else as a
/// boolean literal, else as a colour literal, else as an identifier.
pub open spec fn spec_classify(w: Seq<char>) -> TokenView {
    if is_number_word(w) {
        TokenView::Value(PropertyValueView::Number(digits_val(w) as u32))
    } else if w == "true"@ {
        TokenView::Value(PropertyValueView::Boolean(true))
    } else if w == "false"@ {
        TokenView::Value(PropertyValueView::Boolean(false))
    } else if is_colour_word(w) {
        TokenView::Value(
            PropertyValueView::Colour(
                colour_channel(w, 0) as u8,
                colour_channel(w, 1) as u8,
                colour_channel(w, 2) as u8,
            ),
        )
    } else {
        TokenView::Ident(w)
    }
}

/// One located token.
pub open spec fn fat(t: TokenView, line: int, col: int) -> FatTokenView {
    FatTokenView { token: t, location: TokenLocation { line: line as usize, col: col as usize } }
}

/// The token at one structural character.
pub open spec fn structural_token(c: char) -> TokenView {
    if c == '[' {
        TokenView::OpeningSlideParen
    } else if c == ']' {
        TokenView::ClosingSlideParen
    } else if c == '(' {
        TokenView::OpeningArgsParen
    } else if c == ')' {
        TokenView::ClosingArgsParen
    } else if c == '{' {
        TokenView::OpeningParamsParen
    } else if c == '}' {
        TokenView::ClosingParamsParen
    } else {
        TokenView::ListSeparator
    }
}

/// The token sequence of the text from position `i`, which stands at line
/// `line`, column `col`; comment lines are checked for at column 0 only.
pub open spec fn spec_lex(s: Seq<char>, i: int, line: int, col: int) -> Seq<FatTokenView>
    decreases s.len() - i, 1int,
{
    if i < 0 || i >= s.len() {
        Seq::empty()
    } else if col == 0 && is_comment_from(s, i) && line_end(s, i) >= i {
        if line_end(s, i) >= s.len() {
            Seq::empty()
        } else {
            spec_lex(s, line_end(s, i) + 1, line + 1, 0)
        }
    } else {
        spec_lex_token(s, i, line, col)
    }
}

/// The token sequence of the text from position `i`, with the comment check
/// already behind us.
pub open spec fn spec_lex_token(s: Seq<char>, i: int, line: int, col: int) -> Seq<FatTokenView>
    decreases s.len() - i, 0int,
{
    if i < 0 || i >= s.len() {
        Seq::empty()
    } else {
        let c = s[i];
        if c == '\n' {
            spec_lex(s, i + 1, line + 1, 0)
        } else if is_space(c) {
            spec_lex(s, i + 1, line, col + 1)
        } else if c == ':' {
            if i + 1 < s.len() && s[i + 1] == ':' {
                seq![fat(TokenView::Definition, line, col)] + spec_lex(s, i + 2, line, col + 2)
            } else {
                seq![fat(TokenView::ValueAssignment, line, col)] + spec_lex(s, i + 1, line, col + 1)
            }
        } else if c == '"' {
            let e = string_end(s, i + 1);
            if i + 1 <= e <= s.len() {
                let content = s.subrange(i + 1, e);
                let tok = fat(TokenView::Value(PropertyValueView::String(content)), line, col);
                if e < s.len() && s[e] == '"' {
                    seq![tok] + spec_lex(s, e + 1, line, col + (e + 1 - i))
                } else {
                    seq![tok] + spec_lex(s, e, line, col + (e - i))
                }
            } else {
                Seq::empty()
            }
        } else if is_structural(c) {
            seq![fat(structural_token(c), line, col)] + spec_lex(s, i + 1, line, col + 1)
        } else {
            let e = word_end(s, i);
            if i < e <= s.len() {
                seq![fat(spec_classify(s.subrange(i, e)), line, col)] + spec_lex(
                    s,
                    e,
                    line,
                    col + (e - i),
                )
            } else {
                Seq::empty()
            }
        }
    }
}


/// Scans to the first line break at or after `from`.
fn scan_line_end(s: &str, from: usize) -> (r: usize)
    requires
        from <= s@.len(),
    ensures
        r == line_end(s@, from as int),
        from <= r <= s@.len(),
        r < s@.len() ==> s@[r as int] == '\n',
{
    let n = s.unicode_len();
    let mut j = from;
    while j < n
        invariant
            n == s@.len(),
            from <= j <= n,
            line_end(s@, from as int) == line_end(s@, j as int),
        decreases n - j,
    {
        if s.get_char(j) == '\n' {
            return j;
        }
        j = j + 1;
    }
    j
}

/// Scans to the first non-blank character at or after `from`.
fn scan_skip_spaces(s: &str, from: usize) -> (r: usize)
    requires
        from <= s@.len(),
    ensures
        r == skip_spaces(s@, from as int),
        from <= r <= s@.len(),
{
    let n = s.unicode_len();
    let mut j = from;
    while j < n
        invariant
            n == s@.len(),
            from <= j <= n,
            skip_spaces(s@, from as int) == skip_spaces(s@, j as int),
        decreases n - j,
    {
        let c = s.get_char(j);
        if !(c == ' ' || c == '\t' || c == '\r') {
            return j;
        }
        j = j + 1;
    }
    j
}

/// Whether the line holding position `i` is a comment line.
fn is_comment_at(s: &str, i: usize) -> (r: bool)
    requires
        i <= s@.len(),
    ensures
        r == is_comment_from(s@, i as int),
{
    let n = s.unicode_len();
    let j = scan_skip_spaces(s, i);
    if j < n && n - j > 1 {
        s.get_char(j) == '/' && s.get_char(j + 1) == '/'
    } else {
        false
    }
}

/// Scans to the end of the bare word starting at `from`.
fn scan_word_end(s: &str, from: usize) -> (r: usize)
    requires
        from <= s@.len(),
    ensures
        r == word_end(s@, from as int),
        from <= r <= s@.len(),
{
    let n = s.unicode_len();
    let mut j = from;
    while j < n
        invariant
            n == s@.len(),
            from <= j <= n,
            word_end(s@, from as int) == word_end(s@, j as int),
        decreases n - j,
    {
        let c = s.get_char(j);
        let structural = c == '[' || c == ']' || c == '(' || c == ')' || c == '{' || c == '}' || c
            == '"' || c == ',' || c == ':';
        let space = c == ' ' || c == '\t' || c == '\r';
        if structural || space || c == '\n' {
            return j;
        }
        j = j + 1;
    }
    j
}

/// Scans to the closing string delimiter, the line's end, or the text's end.
fn scan_string_end(s: &str, from: usize) -> (r: usize)
    requires
        from <= s@.len(),
    ensures
        r == string_end(s@, from as int),
        from <= r <= s@.len(),
        r < s@.len() ==> (s@[r as int] == '"' || s@[r as int] == '\n'),
{
    let n = s.unicode_len();
    let mut j = from;
    while j < n
        invariant
            n == s@.len(),
            from <= j <= n,
            string_end(s@, from as int) == string_end(s@, j as int),
        decreases n - j,
    {
        let c = s.get_char(j);
        if c == '"' || c == '\n' {
            return j;
        }
        j = j + 1;
    }
    j
}

/// A bare word runs at least one character past its start.
proof fn lemma_word_end_ge(s: Seq<char>, i: int)
    ensures
        word_end(s, i) >= i,
    decreases s.len() - i,
{
    if 0 <= i < s.len() && is_word_char(s[i]) {
        lemma_word_end_ge(s, i + 1);
    }
}

/// The value of a run of decimal digits is never negative.
proof fn lemma_digits_val_nonneg(w: Seq<char>)
    requires
        all_digits(w),
    ensures
        digits_val(w) >= 0,
    decreases w.len(),
{
    if w.len() > 0 {
        assert forall|i: int| 0 <= i < w.drop_last().len() implies is_digit(
            #[trigger] w.drop_last()[i],
        ) by {
            assert(w.drop_last()[i] == w[i]);
        }
        lemma_digits_val_nonneg(w.drop_last());
    }
}

/// A prefix of a digit run never exceeds the whole run's value.
proof fn lemma_digits_val_grow(w: Seq<char>, k: int)
    requires
        all_digits(w),
        0 <= k <= w.len(),
    ensures
        digits_val(w.take(k)) <= digits_val(w),
    decreases w.len() - k,
{
    if k == w.len() {
        assert(w.take(k) =~= w);
    } else {
        assert(w.take(k + 1).drop_last() =~= w.take(k));
        assert(w.take(k + 1).last() == w[k]);
        assert forall|i: int| 0 <= i < w.take(k).len() implies is_digit(
            #[trigger] w.take(k)[i],
        ) by {
            assert(w.take(k)[i] == w[i]);
        }
        lemma_digits_val_nonneg(w.take(k));
        assert(digits_val(w.take(k + 1)) == digits_val(w.take(k)) * 10 + digit_val(w[k]));
        lemma_digits_val_grow(w, k + 1);
    }
}

/// Parses a bare word as an unsigned 32-bit decimal number.
fn parse_u32(w: &str) -> (r: Option<u32>)
    ensures
        match r {
            Some(v) => is_number_word(w@) && v == digits_val(w@),
            None => !is_number_word(w@),
        },
{
    let n = w.unicode_len();
    if n == 0 {
        return None;
    }
    let mut acc: u32 = 0;
    let mut i: usize = 0;
    while i < n
        invariant
            n == w@.len(),
            0 <= i <= n,
            forall|j: int| 0 <= j < i ==> is_digit(#[trigger] w@[j]),
            acc == digits_val(w@.take(i as int)),
        decreases n - i,
    {
        let c = w.get_char(i);
        let cu = c as u32;
        if cu < 48 || cu > 57 {
            proof {
                assert(!is_digit(w@[i as int]));
            }
            return None;
        }
        let d = cu - 48;
        proof {
            assert(w@.take(i + 1 as int).drop_last() =~= w@.take(i as int));
            assert(w@.take(i + 1 as int).last() == w@[i as int]);
        }
        if acc > (u32::MAX - d) / 10 {
            proof {
                assert forall|j: int| 0 <= j < i + 1 implies is_digit(#[trigger] w@[j]) by {}
                assert forall|j: int| 0 <= j < w@.take(i + 1 as int).len() implies is_digit(
                    #[trigger] w@.take(i + 1 as int)[j],
                ) by {
                    assert(w@.take(i + 1 as int)[j] == w@[j]);
                }
                assert(acc * 10 + d > u32::MAX) by (nonlinear_arith)
                    requires
                        acc > (u32::MAX - d) / 10,
                        0 <= d <= 9,
                ;
                assert(digits_val(w@.take(i + 1 as int)) > u32::MAX);
                if all_digits(w@) {
                    lemma_digits_val_grow(w@, i + 1 as int);
                }
            }
            return None;
        }
        proof {
            assert(acc * 10 + d <= u32::MAX) by (nonlinear_arith)
                requires
                    acc <= (u32::MAX - d) / 10,
                    0 <= d <= 9,
            ;
        }
        acc = acc * 10 + d;
        i = i + 1;
    }
    proof {
        assert(w@.take(n as int) =~= w@);
    }
    Some(acc)
}

/// Parses a bare word as a `#RRGGBB` colour literal.
fn parse_colour(w: &str) -> (r: Option<(u8, u8, u8)>)
    ensures
        match r {
            Some(v) => is_colour_word(w@) && v.0 == colour_channel(w@, 0) && v.1 == colour_channel(
                w@,
                1,
            ) && v.2 == colour_channel(w@, 2),
            None => !is_colour_word(w@),
        },
{
    let n = w.unicode_len();
    if n != 7 {
        return None;
    }
    if !(w.get_char(0) == '#') {
        return None;
    }
    let mut i: usize = 1;
    while i < 7
        invariant
            w@.len() == 7,
            1 <= i <= 7,
            forall|j: int| 1 <= j < i ==> is_hex_digit(#[trigger] w@[j]),
        decreases 7 - i,
    {
        let cu = w.get_char(i) as u32;
        let ok = (48 <= cu && cu <= 57) || (97 <= cu && cu <= 102) || (65 <= cu && cu <= 70);
        if !ok {
            proof {
                assert(!is_hex_digit(w@[i as int]));
            }
            return None;
        }
        i = i + 1;
    }
    let r = hex_digit_val(w.get_char(1)) * 16 + hex_digit_val(w.get_char(2));
    let g = hex_digit_val(w.get_char(3)) * 16 + hex_digit_val(w.get_char(4));
    let b = hex_digit_val(w.get_char(5)) * 16 + hex_digit_val(w.get_char(6));
    Some((r, g, b))
}

/// The value of one hexadecimal digit character.
fn hex_digit_val(c: char) -> (r: u8)
    requires
        is_hex_digit(c),
    ensures
        r == hex_val(c),
        r <= 15,
{
    let cu = c as u32;
    if 48 <= cu && cu <= 57 {
        (cu - 48) as u8
    } else if 97 <= cu && cu <= 102 {
        (cu - 87) as u8
    } else {
        (cu - 55) as u8
    }
}

/// Classifies one bare word.
fn classify_word(w: &str) -> (t: Token)
    ensures
        t@ == spec_classify(w@),
{
    match parse_u32(w) {
        Some(v) => {
            return Token::Value(PropertyValue::Number(v));
        },
        None => {},
    }
    if str_eq(w, "true") {
        return Token::Value(PropertyValue::Boolean(true));
    }
    if str_eq(w, "false") {
        return Token::Value(PropertyValue::Boolean(false));
    }
    match parse_colour(w) {
        Some((r, g, b)) => {
            return Token::Value(PropertyValue::Colour(r, g, b));
        },
        None => {},
    }
    Token::Ident(String::from_str(w))
}

/// Turns slide source text into its token sequence.
pub fn lex(source: &str) -> (r: Vec<FatToken>)
    ensures
        r.deep_view() == spec_lex(source@, 0, 0, 0),
        r@.len() <= source@.len(),
{
    let n = source.unicode_len();
    let mut toks: Vec<FatToken> = Vec::new();
    let mut i: usize = 0;
    let mut line: usize = 0;
    let mut col: usize = 0;
    while i < n
        invariant
            n == source@.len(),
            0 <= i <= n,
            col <= i,
            line <= i,
            toks@.len() <= i,
            toks.deep_view() + spec_lex(source@, i as int, line as int, col as int) == spec_lex(
                source@,
                0,
                0,
                0,
            ),
        decreases n - i,
    {
        let ghost s = source@;
        let ghost pre = toks.deep_view();
        let ghost i0 = i as int;
        let ghost line0 = line as int;
        let ghost col0 = col as int;
        if col == 0 && is_comment_at(source, i) {
            let le = scan_line_end(source, i);
            proof {
                assert(spec_lex(s, i0, line0, 0) == if le >= s.len() {
                    Seq::<FatTokenView>::empty()
                } else {
                    spec_lex(s, le + 1, line0 + 1, 0)
                });
            }
            if le >= n {
                i = n;
                proof {
                    assert(spec_lex(s, i as int, line as int, col as int) == Seq::<
                        FatTokenView,
                    >::empty());
                    assert(pre + Seq::<FatTokenView>::empty() =~= pre);
                }
            } else {
                i = le + 1;
                line = line + 1;
                col = 0;
            }
            continue ;
        }
        let c = source.get_char(i);
        proof {
            assert(spec_lex(s, i0, line0, col0) == spec_lex_token(s, i0, line0, col0));
        }
        if c == '\n' {
            proof {
                assert(spec_lex_token(s, i0, line0, col0) == spec_lex(s, i0 + 1, line0 + 1, 0));
            }
            i = i + 1;
            line = line + 1;
            col = 0;
        } else if c == ' ' || c == '\t' || c == '\r' {
            proof {
                assert(spec_lex_token(s, i0, line0, col0) == spec_lex(s, i0 + 1, line0, col0 + 1));
            }
            i = i + 1;
            col = col + 1;
        } else if c == ':' {
            let double = i + 1 < n && source.get_char(i + 1) == ':';
            let tok = if double {
                Token::Definition
            } else {
                Token::ValueAssignment
            };
            let ghost tv = tok@;
            toks.push(FatToken { token: tok, location: TokenLocation { line, col } });
            proof {
                assert(toks.deep_view() =~= pre.push(fat(tv, line0, col0)));
            }
            if double {
                proof {
                    assert(spec_lex_token(s, i0, line0, col0) == seq![
                        fat(TokenView::Definition, line0, col0),
                    ] + spec_lex(s, i0 + 2, line0, col0 + 2));
                    assert(pre.push(fat(tv, line0, col0)) + spec_lex(s, i0 + 2, line0, col0 + 2)
                        =~= pre + (seq![fat(tv, line0, col0)] + spec_lex(
                        s,
                        i0 + 2,
                        line0,
                        col0 + 2,
                    )));
                }
                i = i + 2;
                col = col + 2;
            } else {
                proof {
                    assert(spec_lex_token(s, i0, line0, col0) == seq![
                        fat(TokenView::ValueAssignment, line0, col0),
                    ] + spec_lex(s, i0 + 1, line0, col0 + 1));
                    assert(pre.push(fat(tv, line0, col0)) + spec_lex(s, i0 + 1, line0, col0 + 1)
                        =~= pre + (seq![fat(tv, line0, col0)] + spec_lex(
                        s,
                        i0 + 1,
                        line0,
                        col0 + 1,
                    )));
                }
                i = i + 1;
                col = col + 1;
            }
        } else if c == '"' {
            let e = scan_string_end(source, i + 1);
            let content = source.substring_char(i + 1, e);
            let tok = Token::Value(PropertyValue::String(String::from_str(content)));
            let ghost tv = tok@;
            toks.push(FatToken { token: tok, location: TokenLocation { line, col } });
            proof {
                assert(tv == TokenView::Value(PropertyValueView::String(s.subrange(i0 + 1, e as int))));
                assert(toks.deep_view() =~= pre.push(fat(tv, line0, col0)));
            }
            if e < n && source.get_char(e) == '"' {
                proof {
                    assert(spec_lex_token(s, i0, line0, col0) == seq![fat(tv, line0, col0)]
                        + spec_lex(s, e + 1, line0, col0 + (e + 1 - i0)));
                    assert(pre.push(fat(tv, line0, col0)) + spec_lex(
                        s,
                        e + 1,
                        line0,
                        col0 + (e + 1 - i0),
                    ) =~= pre + (seq![fat(tv, line0, col0)] + spec_lex(
                        s,
                        e + 1,
                        line0,
                        col0 + (e + 1 - i0),
                    )));
                }
                col = col + (e + 1 - i);
                i = e + 1;
            } else {
                proof {
                    assert(spec_lex_token(s, i0, line0, col0) == seq![fat(tv, line0, col0)]
                        + spec_lex(s, e as int, line0, col0 + (e - i0)));
                    assert(pre.push(fat(tv, line0, col0)) + spec_lex(
                        s,
                        e as int,
                        line0,
                        col0 + (e - i0),
                    ) =~= pre + (seq![fat(tv, line0, col0)] + spec_lex(
                        s,
                        e as int,
                        line0,
                        col0 + (e - i0),
                    )));
                }
                col = col + (e - i);
                i = e;
            }
        } else if c == '[' || c == ']' || c == '(' || c == ')' || c == '{' || c == '}' || c == ','
        {
            let tok = if c == '[' {
                Token::OpeningSlideParen
            } else if c == ']' {
                Token::ClosingSlideParen
            } else if c == '(' {
                Token::OpeningArgsParen
            } else if c == ')' {
                Token::ClosingArgsParen
            } else if c == '{' {
                Token::OpeningParamsParen
            } else if c == '}' {
                Token::ClosingParamsParen
            } else {
                Token::ListSeparator
            };
            let ghost tv = tok@;
            toks.push(FatToken { token: tok, location: TokenLocation { line, col } });
            proof {
                assert(tv == structural_token(c));
                assert(toks.deep_view() =~= pre.push(fat(tv, line0, col0)));
                assert(spec_lex_token(s, i0, line0, col0) == seq![fat(tv, line0, col0)] + spec_lex(
                    s,
                    i0 + 1,
                    line0,
                    col0 + 1,
                ));
                assert(pre.push(fat(tv, line0, col0)) + spec_lex(s, i0 + 1, line0, col0 + 1) =~= pre
                    + (seq![fat(tv, line0, col0)] + spec_lex(s, i0 + 1, line0, col0 + 1)));
            }
            i = i + 1;
            col = col + 1;
        } else {
            let we = scan_word_end(source, i);
            proof {
                assert(is_word_char(s[i0]));
                assert(word_end(s, i0) == word_end(s, i0 + 1));
                lemma_word_end_ge(s, i0 + 1);
                assert(we > i);
            }
            let w = source.substring_char(i, we);
            let tok = classify_word(w);
            let ghost tv = tok@;
            toks.push(FatToken { token: tok, location: TokenLocation { line, col } });
            proof {
                assert(tv == spec_classify(s.subrange(i0, we as int)));
                assert(toks.deep_view() =~= pre.push(fat(tv, line0, col0)));
                assert(spec_lex_token(s, i0, line0, col0) == seq![fat(tv, line0, col0)] + spec_lex(
                    s,
                    we as int,
                    line0,
                    col0 + (we - i0),
                ));
                assert(pre.push(fat(tv, line0, col0)) + spec_lex(
                    s,
                    we as int,
                    line0,
                    col0 + (we - i0),
                ) =~= pre + (seq![fat(tv, line0, col0)] + spec_lex(
                    s,
                    we as int,
                    line0,
                    col0 + (we - i0),
                )));
            }
            col = col + (we - i);
            i = we;
        }
    }
    proof {
        assert(spec_lex(source@, i as int, line as int, col as int) == Seq::<
            FatTokenView,
        >::empty());
        assert(toks.deep_view() + Seq::<FatTokenView>::empty() =~= toks.deep_view());
    }
    toks
}

} // verus!
