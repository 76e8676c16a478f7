//! The lexer: source text to tokens.
use vstd::prelude::*;

use crate::text::{chars_of, string_of};

verus! {

/// A token of the source text.
#[derive(PartialEq, Eq, Debug)]
pub enum Token {
    LeftParen,
    RightParen,
    Quote,
    /// An atom: a run of characters up to a delimiter, or a whole string
    /// literal with its quotes.
    Symbol(String),
}

/// The model of a token.
pub enum TokenV {
    LeftParen,
    RightParen,
    Quote,
    Symbol(Seq<char>),
}

impl View for Token {
    type V = TokenV;

    open spec fn view(&self) -> TokenV {
        match self {
            Token::LeftParen => TokenV::LeftParen,
            Token::RightParen => TokenV::RightParen,
            Token::Quote => TokenV::Quote,
            Token::Symbol(s) => TokenV::Symbol(s@),
        }
    }
}

/// The models of a sequence of tokens.
pub open spec fn tokens_view(ts: Seq<Token>) -> Seq<TokenV> {
    ts.map_values(|t: Token| t@)
}

/// Unicode `White_Space`, the property that `char::is_whitespace` tests.
pub open spec fn is_space(c: char) -> bool {
    let u = c as u32;
    ||| 0x09 <= u <= 0x0d
    ||| u == 0x20
    ||| u == 0x85
    ||| u == 0xa0
    ||| u == 0x1680
    ||| 0x2000 <= u <= 0x200a
    ||| u == 0x2028
    ||| u == 0x2029
    ||| u == 0x202f
    ||| u == 0x205f
    ||| u == 0x3000
}

/// Whether `c` is white space.
pub fn is_whitespace(c: char) -> (b: bool)
    ensures
        b == is_space(c),
{
    let u = c as u32;
    (0x09 <= u && u <= 0x0d) || u == 0x20 || u == 0x85 || u == 0xa0 || u == 0x1680 || (0x2000
        <= u && u <= 0x200a) || u == 0x2028 || u == 0x2029 || u == 0x202f || u == 0x205f || u
        == 0x3000
}

/// The symbol `s[last..end]` when it is not empty.
pub open spec fn pinch(s: Seq<char>, last: nat, end: nat) -> Seq<TokenV> {
    if last != end {
        seq![TokenV::Symbol(s.subrange(last as int, end as int))]
    } else {
        seq![]
    }
}

/// The tokens of `s[i..]`, where the pending atom starts at `last` and
/// `in_string` tells whether a string literal is open.
///
/// A `"` opens a string literal, inside which every character but `"` is part
/// of the atom; the closing `"` ends the atom. Outside string literals, `(`,
/// `)` and `'` are tokens of their own, white space separates atoms, and any
/// other character belongs to the current atom.
pub open spec fn lex_from(s: Seq<char>, i: nat, last: nat, in_string: bool) -> Seq<TokenV>
    decreases s.len() - i,
{
    if i >= s.len() {
        pinch(s, last, s.len())
    } else {
        let c = s[i as int];
        if in_string && c != '"' {
            lex_from(s, i + 1, last, true)
        } else if c == '"' && !in_string {
            lex_from(s, i + 1, last, true)
        } else if c == '"' {
            pinch(s, last, i + 1) + lex_from(s, i + 1, i + 1, false)
        } else if c == '(' {
            pinch(s, last, i) + seq![TokenV::LeftParen] + lex_from(s, i + 1, i + 1, false)
        } else if c == ')' {
            pinch(s, last, i) + seq![TokenV::RightParen] + lex_from(s, i + 1, i + 1, false)
        } else if c == '\'' {
            pinch(s, last, i) + seq![TokenV::Quote] + lex_from(s, i + 1, i + 1, false)
        } else if is_space(c) {
            pinch(s, last, i) + lex_from(s, i + 1, i + 1, false)
        } else {
            lex_from(s, i + 1, last, false)
        }
    }
}

/// The tokens of a source text.
pub open spec fn lex_spec(s: Seq<char>) -> Seq<TokenV> {
    lex_from(s, 0, 0, false)
}

/// Appends the symbol `chars[last..end]` to `tokens` unless it is empty.
fn push_pinch(tokens: &mut Vec<Token>, chars: &Vec<char>, last: usize, end: usize)
    requires
        last <= end <= chars.len(),
    ensures
        tokens_view(final(tokens)@) == tokens_view(old(tokens)@) + pinch(
            chars@,
            last as nat,
            end as nat,
        ),
{
    let ghost before = tokens@;
    if last != end {
        let sym = string_of(chars, last, end);
        tokens.push(Token::Symbol(sym));
        assert(tokens_view(tokens@) =~= tokens_view(before) + pinch(chars@, last as nat, end as nat));
    } else {
        assert(tokens_view(tokens@) =~= tokens_view(before) + pinch(chars@, last as nat, end as nat));
    }
}

/// Appends a token.
fn push_token(tokens: &mut Vec<Token>, t: Token)
    ensures
        tokens_view(final(tokens)@) == tokens_view(old(tokens)@) + seq![t@],
{
    let ghost before = tokens@;
    tokens.push(t);
    assert(tokens_view(tokens@) =~= tokens_view(before) + seq![t@]);
}

/// Splits source text into tokens.
pub fn lex(code: &str) -> (tokens: Vec<Token>)
    ensures
        tokens_view(tokens@) == lex_spec(code@),
{
    let chars = chars_of(code);
    let n = chars.len();
    let mut tokens: Vec<Token> = Vec::new();
    let mut last: usize = 0;
    let mut in_string = false;
    let mut i: usize = 0;
    assert(tokens_view(tokens@) =~= seq![]);
    while i < n
        invariant
            n == chars.len(),
            chars@ == code@,
            last <= i <= n,
            tokens_view(tokens@) + lex_from(chars@, i as nat, last as nat, in_string) == lex_spec(
                code@,
            ),
        decreases n - i,
    {
        let c = chars[i];
        let ghost before = tokens_view(tokens@);
        let ghost s = chars@;
        if in_string && c != '"' {
        } else if c == '"' && !in_string {
            in_string = true;
        } else if c == '"' {
            let ghost old_last = last;
            push_pinch(&mut tokens, &chars, last, i + 1);
            last = i + 1;
            in_string = false;
            assert(before + (pinch(s, old_last as nat, i as nat + 1) + lex_from(s, i as nat + 1, i as nat + 1, false))
                =~= before + pinch(s, old_last as nat, i as nat + 1) + lex_from(s, i as nat + 1, i as nat + 1, false));
        } else if c == '(' || c == ')' || c == '\'' || is_whitespace(c) {
            let ghost old_last = last;
            push_pinch(&mut tokens, &chars, last, i);
            if c == '(' {
                push_token(&mut tokens, Token::LeftParen);
                assert(before + (pinch(s, old_last as nat, i as nat) + seq![TokenV::LeftParen] + lex_from(s, i as nat + 1, i as nat + 1, false))
                    =~= before + pinch(s, old_last as nat, i as nat) + seq![TokenV::LeftParen] + lex_from(s, i as nat + 1, i as nat + 1, false));
            } else if c == ')' {
                push_token(&mut tokens, Token::RightParen);
                assert(before + (pinch(s, old_last as nat, i as nat) + seq![TokenV::RightParen] + lex_from(s, i as nat + 1, i as nat + 1, false))
                    =~= before + pinch(s, old_last as nat, i as nat) + seq![TokenV::RightParen] + lex_from(s, i as nat + 1, i as nat + 1, false));
            } else if c == '\'' {
                push_token(&mut tokens, Token::Quote);
                assert(before + (pinch(s, old_last as nat, i as nat) + seq![TokenV::Quote] + lex_from(s, i as nat + 1, i as nat + 1, false))
                    =~= before + pinch(s, old_last as nat, i as nat) + seq![TokenV::Quote] + lex_from(s, i as nat + 1, i as nat + 1, false));
            } else {
                assert(before + (pinch(s, old_last as nat, i as nat) + lex_from(s, i as nat + 1, i as nat + 1, false))
                    =~= before + pinch(s, old_last as nat, i as nat) + lex_from(s, i as nat + 1, i as nat + 1, false));
            }
            last = i + 1;
            in_string = false;
        } else {
            in_string = false;
        }
        i += 1;
    }
    push_pinch(&mut tokens, &chars, last, n);
    tokens
}

/// Inside an open string literal, the characters up to the closing `"` all
/// belong to the atom, whatever they are: lexing from inside the literal at
/// `i` gives the atom that ends at the closing quote `j`, then the tokens
/// after it.
pub proof fn law_string_literal_run(s: Seq<char>, i: nat, last: nat, j: nat)
    requires
        last <= i <= j < s.len(),
        s[j as int] == '"',
        forall|m: int| i <= m < j ==> s[m] != '"',
    ensures
        lex_from(s, i, last, true) == seq![TokenV::Symbol(s.subrange(last as int, (j + 1) as int))] + lex_from(
            s,
            j + 1,
            j + 1,
            false,
        ),
    decreases j - i,
{
    if i < j {
        law_string_literal_run(s, i + 1, last, j);
    }
}

/// Law: a string literal, a `"`, text without `"`, and a `"`, lexes to one
/// atom holding the whole literal with its quotes, whatever characters
/// (brackets, quotes, white space) the text holds.
pub proof fn law_string_literal_is_one_atom(t: Seq<char>)
    requires
        forall|m: int| 0 <= m < t.len() ==> t[m] != '"',
    ensures
        lex_spec(seq!['"'] + t + seq!['"']) == seq![TokenV::Symbol(seq!['"'] + t + seq!['"'])],
{
    let s = seq!['"'] + t + seq!['"'];
    let j = t.len() + 1;
    assert(s[0] == '"');
    assert(s[j as int] == '"');
    assert forall|m: int| 1 <= m < j implies s[m] != '"' by {
        assert(s[m] == t[m - 1]);
    }
    law_string_literal_run(s, 1, 0, j);
    assert(lex_from(s, j + 1, j + 1, false) == pinch(s, j + 1, s.len()));
    assert(s.subrange(0, (j + 1) as int) =~= s);
    assert(lex_spec(s) == lex_from(s, 1, 0, true));
    assert(seq![TokenV::Symbol(s)] + Seq::<TokenV>::empty() =~= seq![TokenV::Symbol(s)]);
}

/// Whether `c` separates atoms outside string literals: a bracket, a
/// quote mark, or white space.
pub open spec fn is_separator(c: char) -> bool {
    c == '(' || c == ')' || c == '\'' || is_space(c)
}

/// The tokens that a separator stands for.
pub open spec fn separator_tokens(c: char) -> Seq<TokenV> {
    if c == '(' {
        seq![TokenV::LeftParen]
    } else if c == ')' {
        seq![TokenV::RightParen]
    } else if c == '\'' {
        seq![TokenV::Quote]
    } else {
        seq![]
    }
}

proof fn lemma_lex_shift(s: Seq<char>, b: Seq<char>, off: nat, j: nat, last: nat, st: bool)
    requires
        s.len() == off + b.len(),
        forall|m: int| 0 <= m < b.len() ==> #[trigger] b[m] == s[off + m],
        last <= j <= b.len(),
    ensures
        lex_from(s, off + j, off + last, st) == lex_from(b, j, last, st),
    decreases b.len() - j,
{
    assert forall|x: int, y: int| 0 <= x <= y <= b.len() implies #[trigger] s.subrange(off + x, off + y)
        == b.subrange(x, y) by {
        assert(s.subrange(off + x, off + y) =~= b.subrange(x, y));
    }
    assert(pinch(s, off + last, off + j) == pinch(b, last, j));
    assert(pinch(s, off + last, s.len()) == pinch(b, last, b.len())) by {
        assert(s.subrange((off + last) as int, s.len() as int) =~= b.subrange(last as int, b.len() as int));
    }
    if j < b.len() {
        assert(s[(off + j) as int] == b[j as int]);
        assert(pinch(s, off + last, off + j + 1) == pinch(b, last, j + 1)) by {
            assert(s.subrange((off + last) as int, (off + j + 1) as int) =~= b.subrange(
                last as int,
                (j + 1) as int,
            ));
        }
        lemma_lex_shift(s, b, off, j + 1, last, true);
        lemma_lex_shift(s, b, off, j + 1, last, false);
        lemma_lex_shift(s, b, off, j + 1, j + 1, false);
        lemma_lex_shift(s, b, off, j + 1, j + 1, true);
    }
}

proof fn lemma_lex_prefix(a: Seq<char>, c: char, b: Seq<char>, i: nat, last: nat)
    requires
        is_separator(c),
        forall|m: int| 0 <= m < a.len() ==> #[trigger] a[m] != '"',
        last <= i <= a.len(),
    ensures
        ({
            let s = a + seq![c] + b;
            lex_from(s, i, last, false) == lex_from(a, i, last, false) + separator_tokens(c)
                + lex_from(s, a.len() + 1, a.len() + 1, false)
        }),
    decreases a.len() - i,
{
    let s = a + seq![c] + b;
    let n = a.len();
    let rest = lex_from(s, n + 1, n + 1, false);
    assert(pinch(s, last, i) == pinch(a, last, i)) by {
        assert(s.subrange(last as int, i as int) =~= a.subrange(last as int, i as int));
    }
    if i == n {
        assert(s[n as int] == c);
        assert(c != '"');
        assert(lex_from(a, i, last, false) == pinch(a, last, n));
        if c == '(' || c == ')' || c == '\'' {
        } else {
            assert(separator_tokens(c) =~= seq![]);
        }
        assert(lex_from(s, i, last, false) =~= pinch(a, last, n) + separator_tokens(c) + rest);
    } else {
        let x = a[i as int];
        assert(s[i as int] == x);
        assert(x != '"');
        let tail_a = lex_from(a, i + 1, i + 1, false);
        if x == '(' || x == ')' || x == '\'' || is_space(x) {
            lemma_lex_prefix(a, c, b, i + 1, i + 1);
            let t: Seq<TokenV> = if x == '(' {
                seq![TokenV::LeftParen]
            } else if x == ')' {
                seq![TokenV::RightParen]
            } else if x == '\'' {
                seq![TokenV::Quote]
            } else {
                seq![]
            };
            assert(lex_from(a, i, last, false) == pinch(a, last, i) + t + tail_a);
            assert(lex_from(s, i, last, false) == pinch(s, last, i) + t + lex_from(s, i + 1, i + 1, false));
            assert(lex_from(s, i, last, false) =~= lex_from(a, i, last, false) + separator_tokens(c) + rest);
        } else {
            lemma_lex_prefix(a, c, b, i + 1, last);
        }
    }
}

/// Law: outside string literals a separator (a bracket, a quote mark or
/// white space) splits the text: the tokens of `a`, the separator, `b` are
/// the tokens of `a`, then the bracket or quote token (none for white
/// space), then the tokens of `b`, whenever `a` opens no string literal.
pub proof fn law_lex_separator_split(a: Seq<char>, c: char, b: Seq<char>)
    requires
        is_separator(c),
        forall|m: int| 0 <= m < a.len() ==> #[trigger] a[m] != '"',
    ensures
        lex_spec(a + seq![c] + b) == lex_spec(a) + separator_tokens(c) + lex_spec(b),
{
    let s = a + seq![c] + b;
    lemma_lex_prefix(a, c, b, 0, 0);
    assert forall|m: int| 0 <= m < b.len() implies #[trigger] b[m] == s[(a.len() + 1) + m] by {}
    lemma_lex_shift(s, b, a.len() + 1, 0, 0, false);
}

proof fn lemma_lex_atom(t: Seq<char>, i: nat)
    requires
        i <= t.len(),
        forall|m: int| 0 <= m < t.len() ==> !is_separator(#[trigger] t[m]) && t[m] != '"',
    ensures
        lex_from(t, i, 0, false) == pinch(t, 0, t.len()),
    decreases t.len() - i,
{
    if i < t.len() {
        assert(!is_separator(t[i as int]) && t[i as int] != '"');
        lemma_lex_atom(t, i + 1);
    }
}

/// Law: a nonempty text without separators or double quotes is one atom.
pub proof fn law_lex_atom(t: Seq<char>)
    requires
        t.len() > 0,
        forall|m: int| 0 <= m < t.len() ==> !is_separator(#[trigger] t[m]) && t[m] != '"',
    ensures
        lex_spec(t) == seq![TokenV::Symbol(t)],
{
    lemma_lex_atom(t, 0);
    assert(t.subrange(0, t.len() as int) =~= t);
}

} // verus!
