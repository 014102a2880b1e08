use vstd::prelude::*;
use vstd::string::*;

use crate::grammar::{
    attribute_of, keyword_text, match_attribute, tokens_view, Token, TokenView,
};
use crate::text::{is_alphanumeric, is_alphanumeric_char, str_eq};

verus! {

/// An unexpected character, with its 1-based line and column.
#[derive(Clone, Copy, Debug, PartialEq, Eq, Structural)]
pub struct LexError {
    pub character: char,
    pub line: usize,
    pub column: usize,
}

/// A word starts with an ASCII letter.
pub open spec fn is_word_start(c: char) -> bool {
    ('a' <= c && c <= 'z') || ('A' <= c && c <= 'Z')
}

/// A word goes on with letters, digits and underscores.
pub open spec fn is_word_char(c: char) -> bool {
    is_alphanumeric_char(c) || c == '_'
}

pub open spec fn is_blank(c: char) -> bool {
    c == ' ' || c == '\t' || c == '\r'
}

/// Number of word characters in `s` from index `j` on.
pub open spec fn word_run(s: Seq<char>, j: int) -> nat
    decreases s.len() - j,
{
    if 0 <= j < s.len() && is_word_char(s[j]) {
        1 + word_run(s, j + 1)
    } else {
        0
    }
}

/// Whether `s` holds the array suffix `[]` at index `e`.
pub open spec fn suffix_at(s: Seq<char>, e: int) -> bool {
    0 <= e && e + 1 < s.len() && s[e] == '[' && s[e + 1] == ']'
}

/// Length of the word that starts at `i`: its first letter, the word
/// characters after it, and the suffix `[]` when it follows them.
pub open spec fn word_len(s: Seq<char>, i: int) -> nat {
    let n = 1 + word_run(s, i + 1);
    if suffix_at(s, i + n) {
        n + 2
    } else {
        n
    }
}

/// The token that a completed word becomes, given the tokens before it: the
/// reserved word is a keyword; a word right after an identifier is a type;
/// any other word is an identifier.
pub open spec fn classify(w: Seq<char>, before: Seq<TokenView>) -> TokenView {
    if w == keyword_text() {
        TokenView::Keyword(w)
    } else if before.len() > 0 && before.last() is Identifier {
        TokenView::Attribute(attribute_of(w))
    } else {
        TokenView::Identifier(w)
    }
}

/// Lexing `s` from index `i`, with `toks` already produced and the scan at
/// `line` and `col`: the tokens of the whole text, or the first unexpected
/// character with its line and column.
pub open spec fn lex_from(s: Seq<char>, i: int, toks: Seq<TokenView>, line: int, col: int) -> Result<
    Seq<TokenView>,
    (char, int, int),
>
    decreases s.len() - i,
    via lex_from_decreases
{
    if i < 0 || i >= s.len() {
        Ok(toks)
    } else {
        let c = s[i];
        if is_word_start(c) {
            let n = word_len(s, i);
            let w = s.subrange(i, i + n);
            lex_from(s, i + n, toks.push(classify(w, toks)), line, col + n)
        } else if c == '{' {
            lex_from(s, i + 1, toks.push(TokenView::LBracket), line, col + 1)
        } else if c == '}' {
            lex_from(s, i + 1, toks.push(TokenView::RBracket), line, col + 1)
        } else if c == ',' {
            lex_from(s, i + 1, toks.push(TokenView::Comma), line, col + 1)
        } else if c == '\n' {
            lex_from(s, i + 1, toks, line + 1, 1)
        } else if is_blank(c) {
            lex_from(s, i + 1, toks, line, col + 1)
        } else {
            Err((c, line, col))
        }
    }
}

#[via_fn]
proof fn lex_from_decreases(s: Seq<char>, i: int, toks: Seq<TokenView>, line: int, col: int) {
    if 0 <= i < s.len() {
        lemma_word_len_bound(s, i);
    }
}

/// The lexing of a whole text, starting at line 1, column 1.
pub open spec fn lex_spec(s: Seq<char>) -> Result<Seq<TokenView>, (char, int, int)> {
    lex_from(s, 0, seq![], 1, 1)
}

proof fn lemma_word_run_bound(s: Seq<char>, j: int)
    requires
        0 <= j,
    ensures
        j + word_run(s, j) <= if j <= s.len() { s.len() as int } else { j },
    decreases s.len() - j,
{
    if 0 <= j < s.len() && is_word_char(s[j]) {
        lemma_word_run_bound(s, j + 1);
    }
}

proof fn lemma_word_len_bound(s: Seq<char>, i: int)
    requires
        0 <= i < s.len(),
    ensures
        i + word_len(s, i) <= s.len(),
{
    lemma_word_run_bound(s, i + 1);
}

/// Turns a scanned word into its token, given the tokens before it.
fn word_token(word: String, tokens: &Vec<Token>) -> (t: Token)
    ensures
        t@ == classify(word@, tokens_view(tokens@)),
{
    if str_eq(word.as_str(), "model") {
        return Token::Keyword(word);
    }
    let n = tokens.len();
    if n > 0 {
        if let Token::Identifier(_) = &tokens[n - 1] {
            return Token::Attribute(match_attribute(word));
        }
    }
    Token::Identifier(word)
}

/// Splits schema text into tokens, failing at the first character that no
/// token or separator can start with.
pub fn lex(input: &str) -> (r: Result<Vec<Token>, LexError>)
    requires
        input@.len() < usize::MAX,
    ensures
        match (r, lex_spec(input@)) {
            (Ok(ts), Ok(v)) => tokens_view(ts@) == v,
            (Err(e), Err((c, line, col))) => e.character == c && e.line == line && e.column == col,
            _ => false,
        },
{
    let ghost s = input@;
    let n = input.unicode_len();
    let mut tokens: Vec<Token> = Vec::new();
    let mut i: usize = 0;
    let mut line: usize = 1;
    let mut col: usize = 1;
    assert(tokens_view(tokens@) =~= seq![]);
    while i < n
        invariant
            n == s.len(),
            s == input@,
            n < usize::MAX,
            i <= n,
            1 <= line <= i + 1,
            1 <= col <= i + 1,
            lex_from(s, i as int, tokens_view(tokens@), line as int, col as int) == lex_spec(s),
        decreases n - i,
    {
        let c = input.get_char(i);
        if ('a' <= c && c <= 'z') || ('A' <= c && c <= 'Z') {
            let mut j: usize = i + 1;
            proof {
                lemma_word_run_bound(s, i + 1);
            }
            while j < n
                invariant
                    n == s.len(),
                    s == input@,
                    i < j <= n,
                    j + word_run(s, j as int) == i + 1 + word_run(s, i + 1),
                ensures
                    i < j <= n,
                    j + word_run(s, j as int) == i + 1 + word_run(s, i + 1),
                    j == n || !is_word_char(s[j as int]),
                decreases n - j,
            {
                let d = input.get_char(j);
                if is_alphanumeric(d) || d == '_' {
                    j = j + 1;
                } else {
                    break;
                }
            }
            assert(word_run(s, j as int) == 0);
            assert(j == i + 1 + word_run(s, i + 1));
            if j + 1 < n && input.get_char(j) == '[' && input.get_char(j + 1) == ']' {
                j = j + 2;
            }
            assert(j == i + word_len(s, i as int));
            let word = String::from_str(input.substring_char(i, j));
            assert(word@ == s.subrange(i as int, j as int));
            let t = word_token(word, &tokens);
            let ghost before = tokens_view(tokens@);
            tokens.push(t);
            assert(tokens_view(tokens@) =~= before.push(t@));
            assert(lex_from(s, i as int, before, line as int, col as int) == lex_from(
                s,
                j as int,
                before.push(classify(word@, before)),
                line as int,
                col + (j - i),
            ));
            col = col + (j - i);
            i = j;
        } else if c == '{' || c == '}' || c == ',' {
            let t = if c == '{' {
                Token::LBracket
            } else if c == '}' {
                Token::RBracket
            } else {
                Token::Comma
            };
            let ghost before = tokens_view(tokens@);
            tokens.push(t);
            assert(tokens_view(tokens@) =~= before.push(t@));
            col = col + 1;
            i = i + 1;
        } else if c == '\n' {
            line = line + 1;
            col = 1;
            i = i + 1;
        } else if c == ' ' || c == '\t' || c == '\r' {
            col = col + 1;
            i = i + 1;
        } else {
            return Err(LexError { character: c, line, column: col });
        }
    }
    Ok(tokens)
}

/// Whether two lexing outcomes agree: both succeed, or both fail on the same
/// character at the same column, with the first's line `d` past the second's.
pub open spec fn same_failure(
    a: Result<Seq<TokenView>, (char, int, int)>,
    b: Result<Seq<TokenView>, (char, int, int)>,
    d: int,
) -> bool {
    match (a, b) {
        (Ok(_), Ok(_)) => true,
        (Err((c, l, k)), Err((c2, l2, k2))) => c == c2 && l == l2 + d && k == k2,
        _ => false,
    }
}

pub open spec fn has_no_newline(t: Seq<char>) -> bool {
    forall|k: int| 0 <= k < t.len() ==> t[k] != '\n'
}

proof fn lemma_word_run_shift(p: Seq<char>, t: Seq<char>, j: int)
    requires
        0 <= j,
    ensures
        word_run(p + t, p.len() + j) == word_run(t, j),
    decreases t.len() - j,
{
    if j < t.len() {
        assert((p + t)[p.len() + j] == t[j]);
        if is_word_char(t[j]) {
            lemma_word_run_shift(p, t, j + 1);
        }
    }
}

/// Text lexed after a prefix fails as it fails alone, with lines shifted.
proof fn lemma_lex_shift(
    p: Seq<char>,
    t: Seq<char>,
    j: int,
    toks: Seq<TokenView>,
    toks2: Seq<TokenView>,
    line: int,
    col: int,
    d: int,
)
    requires
        0 <= j,
    ensures
        same_failure(lex_from(p + t, p.len() + j, toks, line + d, col), lex_from(t, j, toks2, line, col), d),
    decreases t.len() - j,
{
    let s = p + t;
    let i = p.len() + j;
    if j < t.len() {
        assert(s[i] == t[j]);
        let c = t[j];
        if is_word_start(c) {
            lemma_word_run_shift(p, t, j + 1);
            lemma_word_len_bound(t, j);
            let e = j + 1 + word_run(t, j + 1);
            if 0 <= e && e + 1 < t.len() {
                assert(s[p.len() + e] == t[e]);
                assert(s[p.len() + e + 1] == t[e + 1]);
            }
            assert(suffix_at(s, i + 1 + word_run(s, i + 1)) == suffix_at(t, e));
            let n = word_len(t, j);
            assert(word_len(s, i) == n);
            assert(i + n == p.len() + (j + n));
            lemma_lex_shift(
                p,
                t,
                j + n,
                toks.push(classify(s.subrange(i, i + n), toks)),
                toks2.push(classify(t.subrange(j, j + n), toks2)),
                line,
                col + n,
                d,
            );
        } else if c == '{' {
            lemma_lex_shift(p, t, j + 1, toks.push(TokenView::LBracket), toks2.push(TokenView::LBracket), line, col + 1, d);
        } else if c == '}' {
            lemma_lex_shift(p, t, j + 1, toks.push(TokenView::RBracket), toks2.push(TokenView::RBracket), line, col + 1, d);
        } else if c == ',' {
            lemma_lex_shift(p, t, j + 1, toks.push(TokenView::Comma), toks2.push(TokenView::Comma), line, col + 1, d);
        } else if c == '\n' {
            lemma_lex_shift(p, t, j + 1, toks, toks2, line + 1, 1, d);
        } else if is_blank(c) {
            lemma_lex_shift(p, t, j + 1, toks, toks2, line, col + 1, d);
        }
    }
}

proof fn lemma_word_run_prefix(l: Seq<char>, s: Seq<char>, j: int)
    requires
        0 <= j <= l.len() < s.len(),
        s.subrange(0, l.len() as int) == l,
        !is_word_char(s[l.len() as int]),
    ensures
        word_run(s, j) == word_run(l, j),
    decreases l.len() - j,
{
    if j < l.len() {
        assert(s[j] == s.subrange(0, l.len() as int)[j]);
        if is_word_char(l[j]) {
            lemma_word_run_prefix(l, s, j + 1);
        }
    }
}

/// A first line that lexes cleanly hands over to the second line at line 2,
/// column 1.
proof fn lemma_lex_first_line(l1: Seq<char>, l2: Seq<char>, i: int, toks: Seq<TokenView>, col: int)
    requires
        0 <= i <= l1.len(),
        has_no_newline(l1),
        lex_from(l1, i, toks, 1, col) is Ok,
    ensures
        same_failure(lex_from(l1 + "\n"@ + l2, i, toks, 1, col), lex_spec(l2), 1),
    decreases l1.len() - i,
{
    reveal_strlit("\n");
    let p = l1 + "\n"@;
    let s = p + l2;
    assert(s.subrange(0, l1.len() as int) =~= l1);
    assert(s[l1.len() as int] == '\n');
    if i == l1.len() {
        lemma_lex_shift(p, l2, 0, toks, seq![], 1, 1, 1);
    } else {
        assert(s[i] == l1[i]);
        let c = l1[i];
        if is_word_start(c) {
            lemma_word_run_prefix(l1, s, i + 1);
            lemma_word_run_bound(l1, i + 1);
            lemma_word_len_bound(l1, i);
            let e = i + 1 + word_run(l1, i + 1);
            if e + 1 < l1.len() {
                assert(s[e] == l1[e]);
                assert(s[e + 1] == l1[e + 1]);
            } else if e + 1 == l1.len() {
                assert(s[e + 1] == '\n');
            }
            assert(suffix_at(s, e) == suffix_at(l1, e));
            let n = word_len(l1, i);
            assert(word_len(s, i) == n);
            assert(s.subrange(i, i + n) =~= l1.subrange(i, i + n));
            lemma_lex_first_line(l1, l2, i + n, toks.push(classify(l1.subrange(i, i + n), toks)), col + n);
        } else if c == '{' {
            lemma_lex_first_line(l1, l2, i + 1, toks.push(TokenView::LBracket), col + 1);
        } else if c == '}' {
            lemma_lex_first_line(l1, l2, i + 1, toks.push(TokenView::RBracket), col + 1);
        } else if c == ',' {
            lemma_lex_first_line(l1, l2, i + 1, toks.push(TokenView::Comma), col + 1);
        } else if is_blank(c) {
            lemma_lex_first_line(l1, l2, i + 1, toks, col + 1);
        }
    }
}

proof fn lemma_single_line_error(t: Seq<char>, j: int, toks: Seq<TokenView>, line: int, col: int)
    requires
        0 <= j,
        has_no_newline(t),
    ensures
        lex_from(t, j, toks, line, col) matches Err((_, l, _)) ==> l == line,
    decreases t.len() - j,
{
    if j < t.len() {
        let c = t[j];
        if is_word_start(c) {
            lemma_word_len_bound(t, j);
            let n = word_len(t, j);
            lemma_single_line_error(t, j + n, toks.push(classify(t.subrange(j, j + n), toks)), line, col + n);
        } else if c == '{' {
            lemma_single_line_error(t, j + 1, toks.push(TokenView::LBracket), line, col + 1);
        } else if c == '}' {
            lemma_single_line_error(t, j + 1, toks.push(TokenView::RBracket), line, col + 1);
        } else if c == ',' {
            lemma_single_line_error(t, j + 1, toks.push(TokenView::Comma), line, col + 1);
        } else if is_blank(c) {
            lemma_single_line_error(t, j + 1, toks, line, col + 1);
        }
    }
}

/// In a text of two lines whose first line lexes cleanly, a character that
/// the lexer rejects on the second line is reported on line 2, at the column
/// it has counted from the start of that line: the character and column that
/// lexing the second line alone reports.
pub proof fn lemma_second_line_error(l1: Seq<char>, l2: Seq<char>)
    requires
        has_no_newline(l1),
        has_no_newline(l2),
        lex_spec(l1) is Ok,
        lex_spec(l2) is Err,
    ensures
        lex_spec(l1 + "\n"@ + l2) matches Err((c, line, col)) && line == 2 && lex_spec(l2) == Err::<
            Seq<TokenView>,
            (char, int, int),
        >((c, 1, col)),
{
    lemma_lex_first_line(l1, l2, 0, seq![], 1);
    lemma_single_line_error(l2, 0, seq![], 1, 1);
}

/// Whether the lexer rejects `c` where a token could start.
pub open spec fn is_rejected(c: char) -> bool {
    !is_word_start(c) && c != '{' && c != '}' && c != ',' && c != '\n' && !is_blank(c)
}

pub open spec fn spaces(k: nat) -> Seq<char> {
    Seq::new(k, |_i: int| ' ')
}

proof fn lemma_spaces_then_rejected(t: Seq<char>, k: nat, c: char, j: int, toks: Seq<TokenView>)
    requires
        0 <= j <= k < t.len(),
        forall|m: int| 0 <= m < k ==> t[m] == ' ',
        t[k as int] == c,
        is_rejected(c),
    ensures
        lex_from(t, j, toks, 1, j + 1) == Err::<Seq<TokenView>, (char, int, int)>((c, 1, k + 1 as int)),
    decreases k - j,
{
    if j < k {
        lemma_spaces_then_rejected(t, k, c, j + 1, toks);
    }
}

/// In a text whose first line lexes cleanly, a character that the lexer
/// rejects, standing after `k` spaces at the start of the second line, is
/// reported on line 2 at column `k + 1`: the column counts from the start of
/// that line, whatever the first line holds and whatever follows.
pub proof fn lemma_second_line_column(l1: Seq<char>, k: nat, c: char, rest: Seq<char>)
    requires
        has_no_newline(l1),
        lex_spec(l1) is Ok,
        is_rejected(c),
    ensures
        lex_spec(l1 + "\n"@ + (spaces(k) + seq![c] + rest)) == Err::<Seq<TokenView>, (char, int, int)>(
            (c, 2, k + 1 as int),
        ),
{
    let l2 = spaces(k) + seq![c] + rest;
    assert forall|m: int| 0 <= m < k implies l2[m] == ' ' by {}
    assert(l2[k as int] == c);
    lemma_spaces_then_rejected(l2, k, c, 0, seq![]);
    lemma_lex_first_line(l1, l2, 0, seq![], 1);
}

} // verus!
