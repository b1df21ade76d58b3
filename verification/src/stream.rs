//! What the characters of an input mean: where each token begins and ends,
//! its kind and text, the line and column it stands at, and the sequence of
//! all tokens from a given offset on.

use vstd::prelude::*;
use crate::lexer::{keyword_kind, keyword_of, LocView, TokenKind, TokenView};
use crate::text::{char_is_alphabetic, char_is_numeric, char_is_whitespace, lowercase_of};

verus! {

/// The kinds of run that the lexer consumes as far as they reach.
#[derive(Debug, PartialEq, Eq, Structural, Clone, Copy)]
pub enum Run {
    /// Whitespace other than a newline.
    Blank,
    /// Whatever stands before the next newline.
    Line,
    /// Whatever stands before the next occurrence of the quote character.
    Quoted(char),
    /// Alphabetic characters.
    Letters,
    /// Numeric characters.
    Numerals,
}

impl Run {
    /// Whether a run of this kind goes on over `c`.
    pub open spec fn keeps(self, c: char) -> bool {
        match self {
            Run::Blank => char_is_whitespace(c) && c != '\n',
            Run::Line => c != '\n',
            Run::Quoted(q) => c != q,
            Run::Letters => char_is_alphabetic(c),
            Run::Numerals => char_is_numeric(c),
        }
    }

    /// Whether a run of this kind goes on over `c`.
    pub fn accepts(self, c: char) -> (r: bool)
        ensures
            r == self.keeps(c),
    {
        match self {
            Run::Blank => c.is_whitespace() && c != '\n',
            Run::Line => c != '\n',
            Run::Quoted(q) => c != q,
            Run::Letters => c.is_alphabetic(),
            Run::Numerals => c.is_numeric(),
        }
    }
}

/// The offset at which the run that begins at `from` ends: that of the first
/// character at or after `from` that the run does not keep, or the length of
/// `s` where it keeps them all.
pub open spec fn run_end(s: Seq<char>, from: int, run: Run) -> int
    decreases s.len() - from,
{
    if 0 <= from < s.len() && run.keeps(s[from]) {
        run_end(s, from + 1, run)
    } else {
        from
    }
}

/// A run ends at or after its beginning and within the input, keeps every
/// character before its end, and does not keep the one at its end.
pub proof fn lemma_run_end(s: Seq<char>, from: int, run: Run)
    requires
        0 <= from <= s.len(),
    ensures
        from <= run_end(s, from, run) <= s.len(),
        forall|i: int| from <= i < run_end(s, from, run) ==> run.keeps(#[trigger] s[i]),
        run_end(s, from, run) < s.len() ==> !run.keeps(s[run_end(s, from, run)]),
    decreases s.len() - from,
{
    if from < s.len() && run.keeps(s[from]) {
        lemma_run_end(s, from + 1, run);
    }
}

/// The offset just behind the line that `from` stands in: behind its
/// newline, or the length of `s` where no newline follows.
pub open spec fn line_end(s: Seq<char>, from: int) -> int {
    let e = run_end(s, from, Run::Line);
    if e < s.len() {
        e + 1
    } else {
        e
    }
}

/// The offset at which the next token begins, seen from `from`: blanks, empty
/// lines and comments, which reach from a `#` to the end of its line, are
/// passed over. It is the length of `s` where nothing else is left.
pub open spec fn token_start(s: Seq<char>, from: int) -> int
    decreases s.len() - from,
    when 0 <= from <= s.len()
{
    let p = run_end(s, from, Run::Blank);
    if p < s.len() && (s[p] == '\n' || s[p] == '#') {
        proof {
            lemma_run_end(s, from, Run::Blank);
            lemma_run_end(s, p, Run::Line);
        }
        token_start(s, line_end(s, p))
    } else {
        p
    }
}

/// A token begins at or after the offset it is looked for from, within the
/// input, and not at a blank, a newline or a `#`.
pub proof fn lemma_token_start(s: Seq<char>, from: int)
    requires
        0 <= from <= s.len(),
    ensures
        from <= token_start(s, from) <= s.len(),
        token_start(s, from) < s.len() ==> {
            let c = s[token_start(s, from)];
            !Run::Blank.keeps(c) && c != '\n' && c != '#'
        },
    decreases s.len() - from,
{
    let p = run_end(s, from, Run::Blank);
    lemma_run_end(s, from, Run::Blank);
    if p < s.len() && (s[p] == '\n' || s[p] == '#') {
        lemma_run_end(s, p, Run::Line);
        lemma_token_start(s, line_end(s, p));
    }
}

/// Looking for a token from `from` on comes to the same as looking for it
/// behind the blanks that begin at `from`, and where a newline or a `#`
/// stands there, behind that line.
pub proof fn lemma_token_start_steps(s: Seq<char>, from: int)
    requires
        0 <= from <= s.len(),
    ensures
        from <= run_end(s, from, Run::Blank) <= s.len(),
        run_end(s, run_end(s, from, Run::Blank), Run::Blank) == run_end(s, from, Run::Blank),
        token_start(s, run_end(s, from, Run::Blank)) == token_start(s, from),
        ({
            let p = run_end(s, from, Run::Blank);
            if p < s.len() && (s[p] == '\n' || s[p] == '#') {
                p < line_end(s, p) <= s.len() && token_start(s, line_end(s, p)) == token_start(
                    s,
                    from,
                )
            } else {
                token_start(s, from) == p
            }
        }),
{
    let p = run_end(s, from, Run::Blank);
    lemma_run_end(s, from, Run::Blank);
    lemma_run_end(s, p, Run::Line);
    assert(run_end(s, p, Run::Blank) == p);
}

/// One token as the input gives it: its kind, its text, and the offsets at
/// which it begins and behind which the lexer goes on.
pub struct Lexeme {
    pub kind: TokenKind,
    pub text: Seq<char>,
    pub start: int,
    pub end: int,
}

/// What the first character of a token shows the token to be.
#[derive(Debug, PartialEq, Eq, Structural, Clone, Copy)]
pub enum Opening {
    /// A quote, single or double: a string.
    Quote,
    /// An alphabetic character: a word.
    Letter,
    /// A numeric character that is not alphabetic: a number.
    Numeral,
    /// Anything else: no token.
    Other,
}

/// What the character `c` shows the token that it begins to be.
pub open spec fn opening_of(c: char) -> Opening {
    if c == '"' || c == '\'' {
        Opening::Quote
    } else if char_is_alphabetic(c) {
        Opening::Letter
    } else if char_is_numeric(c) {
        Opening::Numeral
    } else {
        Opening::Other
    }
}

/// What the character `c` shows the token that it begins to be.
pub fn opening(c: char) -> (first: Opening)
    ensures
        first == opening_of(c),
{
    if c == '"' || c == '\'' {
        Opening::Quote
    } else if c.is_alphabetic() {
        Opening::Letter
    } else if c.is_numeric() {
        Opening::Numeral
    } else {
        Opening::Other
    }
}

impl Opening {
    /// The kind of a token that begins so. A string is `Str` if it is
    /// `closed` and `UnclosedStr` if not. A word is of the kind that
    /// `lowered`, its lowercase form, has in the keyword table. A number is
    /// `Num`, and any other character is `Invalid`.
    pub open spec fn kind(self, closed: bool, lowered: Seq<char>) -> TokenKind {
        match self {
            Opening::Quote => if closed {
                TokenKind::Str
            } else {
                TokenKind::UnclosedStr
            },
            Opening::Letter => keyword_of(lowered),
            Opening::Numeral => TokenKind::Num,
            Opening::Other => TokenKind::Invalid,
        }
    }

    /// The kind of a token that begins so, given whether a string found its
    /// closing quote, and the lowercase form of a word.
    pub fn token_kind(self, closed: bool, lowered: &str) -> (kind: TokenKind)
        ensures
            kind == self.kind(closed, lowered@),
    {
        match self {
            Opening::Quote => if closed {
                TokenKind::Str
            } else {
                TokenKind::UnclosedStr
            },
            Opening::Letter => keyword_kind(lowered),
            Opening::Numeral => TokenKind::Num,
            Opening::Other => TokenKind::Invalid,
        }
    }
}

/// The token that begins at offset `p`, where `p` is where a token begins.
/// Its first character shows what it is, and with that its kind.
///
/// A quote opens a string that reaches to the next quote of the same kind;
/// its text is what stands between them, and it is unclosed where the input
/// ends first. A letter begins a word, which reaches as far as letters
/// follow. A numeric character begins a number, which reaches as far as
/// numeric characters follow. Any other character is a token by itself, and
/// the end of the input is a token of its own.
pub open spec fn lexeme_at(s: Seq<char>, p: int) -> Lexeme {
    if !(0 <= p < s.len()) {
        Lexeme { kind: TokenKind::End, text: Seq::empty(), start: p, end: p }
    } else {
        let first = opening_of(s[p]);
        match first {
            Opening::Quote => {
                let e = run_end(s, p + 1, Run::Quoted(s[p]));
                let closed = e < s.len();
                Lexeme {
                    kind: first.kind(closed, Seq::empty()),
                    text: s.subrange(p + 1, e),
                    start: p,
                    end: if closed {
                        e + 1
                    } else {
                        e
                    },
                }
            },
            Opening::Letter => {
                let e = run_end(s, p + 1, Run::Letters);
                let text = s.subrange(p, e);
                Lexeme { kind: first.kind(true, lowercase_of(text)), text, start: p, end: e }
            },
            Opening::Numeral => {
                let e = run_end(s, p + 1, Run::Numerals);
                Lexeme {
                    kind: first.kind(true, Seq::empty()),
                    text: s.subrange(p, e),
                    start: p,
                    end: e,
                }
            },
            Opening::Other => Lexeme {
                kind: first.kind(true, Seq::empty()),
                text: s.subrange(p, p + 1),
                start: p,
                end: p + 1,
            },
        }
    }
}

/// The next token, seen from `from`.
pub open spec fn next_lexeme(s: Seq<char>, from: int) -> Lexeme {
    lexeme_at(s, token_start(s, from))
}

/// The next token lies within the input behind `from`, and every token but
/// the end of the input holds at least one character.
pub proof fn lemma_next_lexeme(s: Seq<char>, from: int)
    requires
        0 <= from <= s.len(),
    ensures
        from <= next_lexeme(s, from).start <= next_lexeme(s, from).end <= s.len(),
        next_lexeme(s, from).start == token_start(s, from),
        next_lexeme(s, from).kind != TokenKind::End ==> next_lexeme(s, from).start
            < next_lexeme(s, from).end,
        next_lexeme(s, from).kind == TokenKind::End <==> token_start(s, from) == s.len(),
{
    lemma_token_start(s, from);
    let p = token_start(s, from);
    if p < s.len() {
        lemma_run_end(s, p + 1, Run::Quoted(s[p]));
        lemma_run_end(s, p + 1, Run::Letters);
        lemma_run_end(s, p + 1, Run::Numerals);
        lemma_keyword_is_no_terminal(lowercase_of(s.subrange(p, run_end(s, p + 1, Run::Letters))));
    }
}

/// No word is of a kind that ends the stream.
pub proof fn lemma_keyword_is_no_terminal(word: Seq<char>)
    ensures
        !keyword_of(word).is_terminal(),
{
}

/// How many newlines stand before offset `upto`.
pub open spec fn newlines_before(s: Seq<char>, upto: int) -> nat
    decreases upto,
{
    if upto <= 0 || upto > s.len() {
        0
    } else if s[upto - 1] == '\n' {
        newlines_before(s, upto - 1) + 1
    } else {
        newlines_before(s, upto - 1)
    }
}

/// The offset at which the line that `upto` stands in begins: just behind
/// the last newline before `upto`, or 0 where there is none.
pub open spec fn line_start(s: Seq<char>, upto: int) -> int
    decreases upto,
{
    if upto <= 0 || upto > s.len() {
        0
    } else if s[upto - 1] == '\n' {
        upto
    } else {
        line_start(s, upto - 1)
    }
}

/// The location of offset `p`: rows and columns are counted from 1, a row
/// for each newline before `p`, a column for each character of its line
/// before `p`.
pub open spec fn loc_at(s: Seq<char>, file_path: Option<Seq<char>>, p: int) -> LocView {
    LocView {
        file_path,
        row: newlines_before(s, p) + 1,
        col: (p - line_start(s, p) + 1) as nat,
    }
}

/// A line begins at or before any offset in it, and no newline stands
/// between the two; there are no more newlines before an offset than
/// characters.
pub proof fn lemma_line_start(s: Seq<char>, p: int)
    requires
        0 <= p <= s.len(),
    ensures
        0 <= line_start(s, p) <= p,
        newlines_before(s, p) <= p,
        line_start(s, p) == 0 || s[line_start(s, p) - 1] == '\n',
        forall|i: int| line_start(s, p) <= i < p ==> s[i] != '\n',
    decreases p,
{
    if p > 0 {
        lemma_line_start(s, p - 1);
    }
}

/// The token that a lexeme stands for.
pub open spec fn token_of(s: Seq<char>, file_path: Option<Seq<char>>, x: Lexeme) -> TokenView {
    TokenView { kind: x.kind, text: x.text, loc: loc_at(s, file_path, x.start) }
}

/// The tokens of `s` from offset `from` on, up to and including the one that
/// ends the stream: the end of the input, or the first invalid character.
pub open spec fn tokens_from(s: Seq<char>, file_path: Option<Seq<char>>, from: int) -> Seq<
    TokenView,
>
    decreases s.len() - from,
    when 0 <= from <= s.len()
{
    let x = next_lexeme(s, from);
    if x.kind.is_terminal() {
        seq![token_of(s, file_path, x)]
    } else {
        proof {
            lemma_next_lexeme(s, from);
        }
        seq![token_of(s, file_path, x)] + tokens_from(s, file_path, x.end)
    }
}

/// The tokens from `from` on are the next token and, unless it ends the
/// stream, the tokens from its end on.
pub proof fn lemma_tokens_from_unfold(s: Seq<char>, file_path: Option<Seq<char>>, from: int)
    requires
        0 <= from <= s.len(),
    ensures
        ({
            let x = next_lexeme(s, from);
            let ts = tokens_from(s, file_path, from);
            &&& ts.len() > 0
            &&& ts[0] == token_of(s, file_path, x)
            &&& from <= x.end <= s.len()
            &&& ts.drop_first() == if x.kind.is_terminal() {
                Seq::empty()
            } else {
                tokens_from(s, file_path, x.end)
            }
        }),
{
    let x = next_lexeme(s, from);
    lemma_next_lexeme(s, from);
    if x.kind.is_terminal() {
        assert(seq![token_of(s, file_path, x)].drop_first() =~= Seq::empty());
    } else {
        assert((seq![token_of(s, file_path, x)] + tokens_from(s, file_path, x.end)).drop_first()
            =~= tokens_from(s, file_path, x.end));
    }
}

/// Whether the last token of `ts`, and no other, ends the stream. The empty
/// sequence, which is what an exhausted lexer has left, is well terminated.
pub open spec fn well_terminated(ts: Seq<TokenView>) -> bool {
    forall|i: int| 0 <= i < ts.len() ==> ((#[trigger] ts[i]).kind.is_terminal() <==> i == ts.len() - 1)
}

/// The tokens of an input are never none, and only the last of them ends
/// the stream.
pub proof fn lemma_tokens_from(s: Seq<char>, file_path: Option<Seq<char>>, from: int)
    requires
        0 <= from <= s.len(),
    ensures
        tokens_from(s, file_path, from).len() > 0,
        well_terminated(tokens_from(s, file_path, from)),
    decreases s.len() - from,
{
    let x = next_lexeme(s, from);
    lemma_next_lexeme(s, from);
    if !x.kind.is_terminal() {
        lemma_tokens_from(s, file_path, x.end);
    }
}

/// The offsets at which the tokens from `from` on begin, one for each token
/// of `tokens_from`.
pub open spec fn starts_from(s: Seq<char>, from: int) -> Seq<int>
    decreases s.len() - from,
    when 0 <= from <= s.len()
{
    let x = next_lexeme(s, from);
    if x.kind.is_terminal() {
        seq![x.start]
    } else {
        proof {
            lemma_next_lexeme(s, from);
        }
        seq![x.start] + starts_from(s, x.end)
    }
}

/// Whether `c` is a newline.
pub open spec fn is_newline() -> spec_fn(char) -> bool {
    |c: char| c == '\n'
}

/// What the location of an offset means. Its row is one more than the
/// number of newlines before the offset. Its column is one more than the
/// distance from the beginning of the line, which is the input's beginning
/// or stands just behind a newline, with no newline between it and the
/// offset.
pub proof fn lemma_loc_at(s: Seq<char>, file_path: Option<Seq<char>>, p: int)
    requires
        0 <= p <= s.len(),
    ensures
        loc_at(s, file_path, p).file_path == file_path,
        loc_at(s, file_path, p).row == s.take(p).filter(is_newline()).len() + 1,
        loc_at(s, file_path, p).col == p - line_start(s, p) + 1,
        0 <= line_start(s, p) <= p,
        line_start(s, p) == 0 || s[line_start(s, p) - 1] == '\n',
        forall|i: int| line_start(s, p) <= i < p ==> s[i] != '\n',
    decreases p,
{
    reveal(Seq::filter);
    lemma_line_start(s, p);
    if p > 0 {
        lemma_loc_at(s, file_path, p - 1);
        assert(s.take(p).drop_last() == s.take(p - 1));
    }
}

/// Every token stands at the location of the offset at which it begins.
/// These offsets lie within the input, at or behind `from`, and rise from
/// token to token.
pub proof fn lemma_token_locations(s: Seq<char>, file_path: Option<Seq<char>>, from: int)
    requires
        0 <= from <= s.len(),
    ensures
        starts_from(s, from).len() == tokens_from(s, file_path, from).len(),
        forall|i: int|
            0 <= i < starts_from(s, from).len() ==> from <= #[trigger] starts_from(s, from)[i]
                <= s.len(),
        forall|i: int|
            0 <= i < starts_from(s, from).len() ==> (#[trigger] tokens_from(
                s,
                file_path,
                from,
            )[i]).loc == loc_at(s, file_path, starts_from(s, from)[i]),
        forall|i: int, j: int|
            0 <= i < j < starts_from(s, from).len() ==> starts_from(s, from)[i] < starts_from(
                s,
                from,
            )[j],
    decreases s.len() - from,
{
    let x = next_lexeme(s, from);
    lemma_next_lexeme(s, from);
    if !x.kind.is_terminal() {
        lemma_token_locations(s, file_path, x.end);
        let rest = starts_from(s, x.end);
        let starts = starts_from(s, from);
        assert forall|i: int, j: int| 0 <= i < j < starts.len() implies starts[i] < starts[j] by {
            assert(starts[j] == rest[j - 1]);
            if i > 0 {
                assert(starts[i] == rest[i - 1]);
            }
        }
    }
}

} // verus!
