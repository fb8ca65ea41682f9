//! Lexical analysis: script text to a sequence of classified tokens, each
//! paired with the source text it came from.
use vstd::prelude::*;

verus! {

/// The kind of a lexeme.
#[derive(PartialEq, Eq, Structural, Clone, Copy, Debug)]
pub enum Token {
    Make,
    Be,
    Do,
    Change,
    To,
    Repeat,
    Times,
    If,
    Say,
    Forever,
    KeyPressed,
    Plus,
    Minus,
    Star,
    Slash,
    Percent,
    LParen,
    RParen,
    Number,
    Text,
    Identifier,
}

/// A decimal digit.
pub open spec fn is_digit(c: char) -> bool {
    '0' <= c && c <= '9'
}

/// A character that can begin an identifier.
pub open spec fn is_ident_start(c: char) -> bool {
    ('a' <= c && c <= 'z') || ('A' <= c && c <= 'Z') || c == '_'
}

/// A character that can continue an identifier.
pub open spec fn is_ident_char(c: char) -> bool {
    is_ident_start(c) || is_digit(c)
}

/// The first index at or after `i` that does not hold a digit.
pub open spec fn digit_end(s: Seq<char>, i: int) -> int
    decreases s.len() - i,
{
    if 0 <= i < s.len() && is_digit(s[i]) {
        digit_end(s, i + 1)
    } else {
        i
    }
}

/// The first index at or after `i` that does not hold an identifier character.
pub open spec fn ident_end(s: Seq<char>, i: int) -> int
    decreases s.len() - i,
{
    if 0 <= i < s.len() && is_ident_char(s[i]) {
        ident_end(s, i + 1)
    } else {
        i
    }
}

/// The first index at or after `i` that holds `stop`, or the length if none does.
pub open spec fn find_char(s: Seq<char>, i: int, stop: char) -> int
    decreases s.len() - i,
{
    if 0 <= i < s.len() && s[i] != stop {
        find_char(s, i + 1, stop)
    } else {
        i
    }
}

/// The token that a whole word spells: a keyword, else an identifier.
pub open spec fn word_token(w: Seq<char>) -> Token {
    if w == "make"@ {
        Token::Make
    } else if w == "be"@ {
        Token::Be
    } else if w == "do"@ {
        Token::Do
    } else if w == "change"@ {
        Token::Change
    } else if w == "to"@ {
        Token::To
    } else if w == "repeat"@ {
        Token::Repeat
    } else if w == "times"@ {
        Token::Times
    } else if w == "if"@ {
        Token::If
    } else if w == "say"@ {
        Token::Say
    } else if w == "forever"@ {
        Token::Forever
    } else {
        Token::Identifier
    }
}

/// The token of a one-character operator or parenthesis.
pub open spec fn symbol_token(c: char) -> Option<Token> {
    if c == '+' {
        Some(Token::Plus)
    } else if c == '-' {
        Some(Token::Minus)
    } else if c == '*' {
        Some(Token::Star)
    } else if c == '/' {
        Some(Token::Slash)
    } else if c == '%' {
        Some(Token::Percent)
    } else if c == '(' {
        Some(Token::LParen)
    } else if c == ')' {
        Some(Token::RParen)
    } else {
        None
    }
}

/// Whether `key-pressed` is spelled at index `i`.
pub open spec fn key_pressed_at(s: Seq<char>, i: int) -> bool {
    0 <= i && i + 11 <= s.len() && s.subrange(i, i + 11) == "key-pressed"@
}

/// The tokens of `s` from index `i` on, each with its exact source slice (a
/// text literal's slice keeps its quotes).
/// Blanks, `#` comments and characters that start no token are skipped.
pub open spec fn lex_from(s: Seq<char>, i: int) -> Seq<(Token, Seq<char>)>
    decreases s.len() - i,
    via lex_from_decreases
{
    if i < 0 || i >= s.len() {
        seq![]
    } else {
        let c = s[i];
        if c == '#' {
            lex_from(s, find_char(s, i + 1, '\n'))
        } else if is_digit(c) {
            let j = digit_end(s, i);
            seq![(Token::Number, s.subrange(i, j))] + lex_from(s, j)
        } else if c == '"' {
            let j = find_char(s, i + 1, '"');
            if j < s.len() {
                seq![(Token::Text, s.subrange(i, j + 1))] + lex_from(s, j + 1)
            } else {
                lex_from(s, i + 1)
            }
        } else if key_pressed_at(s, i) {
            seq![(Token::KeyPressed, s.subrange(i, i + 11))] + lex_from(s, i + 11)
        } else if is_ident_start(c) {
            let j = ident_end(s, i);
            seq![(word_token(s.subrange(i, j)), s.subrange(i, j))] + lex_from(s, j)
        } else if let Some(t) = symbol_token(c) {
            seq![(t, s.subrange(i, i + 1))] + lex_from(s, i + 1)
        } else {
            lex_from(s, i + 1)
        }
    }
}

#[via_fn]
proof fn lex_from_decreases(s: Seq<char>, i: int) {
    if 0 <= i < s.len() {
        lemma_find_char(s, i + 1, '\n');
        lemma_find_char(s, i + 1, '"');
        lemma_digit_end(s, i + 1);
        lemma_ident_end(s, i + 1);
    }
}

/// The tokens of a whole script.
pub open spec fn lex(s: Seq<char>) -> Seq<(Token, Seq<char>)> {
    lex_from(s, 0)
}

/// Pairs each token with the view of its text.
pub open spec fn paired(tokens: Seq<Token>, texts: Seq<&str>) -> Seq<(Token, Seq<char>)> {
    Seq::new(tokens.len(), |k: int| (tokens[k], texts[k]@))
}

proof fn lemma_digit_end(s: Seq<char>, i: int)
    requires
        0 <= i <= s.len(),
    ensures
        i <= digit_end(s, i) <= s.len(),
    decreases s.len() - i,
{
    if i < s.len() && is_digit(s[i]) {
        lemma_digit_end(s, i + 1);
    }
}

proof fn lemma_ident_end(s: Seq<char>, i: int)
    requires
        0 <= i <= s.len(),
    ensures
        i <= ident_end(s, i) <= s.len(),
    decreases s.len() - i,
{
    if i < s.len() && is_ident_char(s[i]) {
        lemma_ident_end(s, i + 1);
    }
}

proof fn lemma_find_char(s: Seq<char>, i: int, stop: char)
    requires
        0 <= i <= s.len(),
    ensures
        i <= find_char(s, i, stop) <= s.len(),
    decreases s.len() - i,
{
    if i < s.len() && s[i] != stop {
        lemma_find_char(s, i + 1, stop);
    }
}

/// The characters of `s`, in order.
fn chars_of(s: &str) -> (r: Vec<char>)
    ensures
        r@ == s@,
{
    let n = s.unicode_len();
    let mut r: Vec<char> = Vec::new();
    let mut i: usize = 0;
    while i < n
        invariant
            n == s@.len(),
            i <= n,
            r@ == s@.subrange(0, i as int),
        decreases n - i,
    {
        r.push(s.get_char(i));
        i = i + 1;
    }
    assert(r@ =~= s@);
    r
}

/// Whether the characters of `s` from `i` to `j` spell `w`.
fn spells(s: &Vec<char>, i: usize, j: usize, w: &str) -> (r: bool)
    requires
        i <= j <= s@.len(),
    ensures
        r == (s@.subrange(i as int, j as int) == w@),
{
    let n = w.unicode_len();
    if n != j - i {
        return false;
    }
    let mut k: usize = 0;
    while k < n
        invariant
            n == w@.len(),
            n == j - i,
            i <= j <= s@.len(),
            k <= n,
            forall|t: int| 0 <= t < k ==> s@[i + t] == w@[t],
        decreases n - k,
    {
        if s[i + k] != w.get_char(k) {
            assert(s@.subrange(i as int, j as int)[k as int] != w@[k as int]);
            return false;
        }
        k = k + 1;
    }
    assert(s@.subrange(i as int, j as int) =~= w@);
    true
}

fn classify_word(s: &Vec<char>, i: usize, j: usize) -> (t: Token)
    requires
        i <= j <= s@.len(),
    ensures
        t == word_token(s@.subrange(i as int, j as int)),
{
    if spells(s, i, j, "make") {
        Token::Make
    } else if spells(s, i, j, "be") {
        Token::Be
    } else if spells(s, i, j, "do") {
        Token::Do
    } else if spells(s, i, j, "change") {
        Token::Change
    } else if spells(s, i, j, "to") {
        Token::To
    } else if spells(s, i, j, "repeat") {
        Token::Repeat
    } else if spells(s, i, j, "times") {
        Token::Times
    } else if spells(s, i, j, "if") {
        Token::If
    } else if spells(s, i, j, "say") {
        Token::Say
    } else if spells(s, i, j, "forever") {
        Token::Forever
    } else {
        Token::Identifier
    }
}

fn classify_symbol(c: char) -> (r: Option<Token>)
    ensures
        r == symbol_token(c),
{
    if c == '+' {
        Some(Token::Plus)
    } else if c == '-' {
        Some(Token::Minus)
    } else if c == '*' {
        Some(Token::Star)
    } else if c == '/' {
        Some(Token::Slash)
    } else if c == '%' {
        Some(Token::Percent)
    } else if c == '(' {
        Some(Token::LParen)
    } else if c == ')' {
        Some(Token::RParen)
    } else {
        None
    }
}

/// The end of the run of digits that starts at `i`.
fn scan_digits(s: &Vec<char>, i: usize) -> (j: usize)
    requires
        i <= s@.len(),
    ensures
        j == digit_end(s@, i as int),
{
    let mut j = i;
    while j < s.len() && '0' <= s[j] && s[j] <= '9'
        invariant
            i <= j <= s@.len(),
            digit_end(s@, i as int) == digit_end(s@, j as int),
        decreases s@.len() - j,
    {
        j = j + 1;
    }
    j
}

fn scan_ident(s: &Vec<char>, i: usize) -> (j: usize)
    requires
        i <= s@.len(),
    ensures
        j == ident_end(s@, i as int),
{
    let mut j = i;
    while j < s.len() && (('a' <= s[j] && s[j] <= 'z') || ('A' <= s[j] && s[j] <= 'Z') || s[j]
        == '_' || ('0' <= s[j] && s[j] <= '9'))
        invariant
            i <= j <= s@.len(),
            ident_end(s@, i as int) == ident_end(s@, j as int),
        decreases s@.len() - j,
    {
        j = j + 1;
    }
    j
}

fn scan_to(s: &Vec<char>, i: usize, stop: char) -> (j: usize)
    requires
        i <= s@.len(),
    ensures
        j == find_char(s@, i as int, stop),
{
    let mut j = i;
    while j < s.len() && s[j] != stop
        invariant
            i <= j <= s@.len(),
            find_char(s@, i as int, stop) == find_char(s@, j as int, stop),
        decreases s@.len() - j,
    {
        j = j + 1;
    }
    j
}

/// Splits a script into tokens and their texts, in source order; see `lex`.
/// Lexing never fails: what starts no token is skipped.
pub fn tokenize<'a>(src: &'a str) -> (r: (Vec<Token>, Vec<&'a str>))
    ensures
        r.0@.len() == r.1@.len(),
        paired(r.0@, r.1@) == lex(src@),
{
    let s = chars_of(src);
    let n = s.len();
    let mut tokens: Vec<Token> = Vec::new();
    let mut texts: Vec<&'a str> = Vec::new();
    let mut i: usize = 0;
    while i < n
        invariant
            s@ == src@,
            n == s@.len(),
            i <= n,
            tokens@.len() == texts@.len(),
            paired(tokens@, texts@) + lex_from(s@, i as int) == lex(s@),
        decreases n - i,
    {
        let ghost old_pairs = paired(tokens@, texts@);
        let c = s[i];
        let mut next = i + 1;
        let mut found: Option<(Token, usize, usize)> = None;
        if c == '#' {
            proof { lemma_find_char(s@, i + 1, '\n'); }
            next = scan_to(&s, i + 1, '\n');
        } else if '0' <= c && c <= '9' {
            proof { lemma_digit_end(s@, i as int); }
            next = scan_digits(&s, i);
            found = Some((Token::Number, i, next));
        } else if c == '"' {
            proof { lemma_find_char(s@, i + 1, '"'); }
            let j = scan_to(&s, i + 1, '"');
            if j < n {
                found = Some((Token::Text, i, j + 1));
                next = j + 1;
            }
        } else if n - i >= 11 && spells(&s, i, i + 11, "key-pressed") {
            next = i + 11;
            found = Some((Token::KeyPressed, i, next));
        } else if ('a' <= c && c <= 'z') || ('A' <= c && c <= 'Z') || c == '_' {
            proof { lemma_ident_end(s@, i as int); }
            next = scan_ident(&s, i);
            found = Some((classify_word(&s, i, next), i, next));
        } else if let Some(t) = classify_symbol(c) {
            found = Some((t, i, next));
        }
        match found {
            Some((t, a, b)) => {
                let text = src.substring_char(a, b);
                tokens.push(t);
                texts.push(text);
                assert(paired(tokens@, texts@) =~= old_pairs.push((t, s@.subrange(a as int, b as int))));
            }
            None => {}
        }
        assert(lex_from(s@, i as int) == match found {
            Some((t, a, b)) => seq![(t, s@.subrange(a as int, b as int))] + lex_from(s@, next as int),
            None => lex_from(s@, next as int),
        });
        assert(paired(tokens@, texts@) + lex_from(s@, next as int) =~= old_pairs + lex_from(s@, i as int));
        i = next;
    }
    (tokens, texts)
}

} // verus!
