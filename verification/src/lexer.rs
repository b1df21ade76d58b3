//! Tokens with their locations, and the lexer that hands them out one at a
//! time with a single token of lookahead.

use vstd::prelude::*;
use crate::stream::{
    lemma_next_lexeme, lemma_run_end, lemma_token_start_steps, lemma_tokens_from,
    lemma_tokens_from_unfold, line_end, line_start, loc_at, newlines_before, next_lexeme, opening,
    run_end, token_of, token_start, tokens_from, well_terminated, Opening, Run,
};
use crate::text::{caret_line, decimal_digits, marker, push_decimal, same_text};

verus! {

/// Where a token begins: the line and the column, both counted from 1, and
/// the name of the source if it has one.
#[derive(Debug)]
pub struct Loc {
    pub file_path: Option<String>,
    pub row: usize,
    pub col: usize,
}

/// A location as a mathematical value.
pub struct LocView {
    pub file_path: Option<Seq<char>>,
    pub row: nat,
    pub col: nat,
}

/// The characters of an optional string.
pub open spec fn opt_text(s: Option<String>) -> Option<Seq<char>> {
    match s {
        Some(t) => Some(t@),
        None => None,
    }
}

impl View for Loc {
    type V = LocView;

    open spec fn view(&self) -> LocView {
        LocView { file_path: opt_text(self.file_path), row: self.row as nat, col: self.col as nat }
    }
}

impl LocView {
    /// The location as text: the name of the source if there is one, the
    /// row and the column, with a colon between them.
    pub open spec fn text(self) -> Seq<char> {
        let place = decimal_digits(self.row) + seq![':'] + decimal_digits(self.col);
        match self.file_path {
            Some(path) => path + seq![':'] + place,
            None => place,
        }
    }
}

impl Loc {
    /// The location as text, for a message.
    pub fn to_string(&self) -> (text: String)
        ensures
            text@ == self@.text(),
    {
        let mut text = String::new();
        match &self.file_path {
            Some(path) => {
                text.append(path.as_str());
                text.push(':');
            },
            None => {},
        }
        push_decimal(&mut text, self.row);
        text.push(':');
        push_decimal(&mut text, self.col);
        assert(text@ =~= self@.text());
        text
    }
}

impl Clone for Loc {
    fn clone(&self) -> (r: Self)
        ensures
            r == *self,
    {
        Loc { file_path: self.file_path.clone(), row: self.row, col: self.col }
    }
}

/// The kinds of token.
#[derive(Debug, PartialEq, Eq, Structural, Clone, Copy)]
pub enum TokenKind {
    // values
    Str,
    Num,
    // keywords
    Quit,
    Remind,
    List,
    Edit,
    Help,
    // symbols
    Colon,
    Semicolon,
    // terminators
    UnclosedStr,
    Invalid,
    End,
}

impl TokenKind {
    /// Whether a token of this kind is the last one of its stream.
    pub open spec fn is_terminal(self) -> bool {
        self == TokenKind::End || self == TokenKind::Invalid
    }

    /// Whether a token of this kind is the last one of its stream.
    pub fn ends_stream(self) -> (r: bool)
        ensures
            r == self.is_terminal(),
    {
        self == TokenKind::End || self == TokenKind::Invalid
    }
}

/// The kind of a word, given in lowercase: that of the keyword it spells, or
/// `Str` where it spells none.
pub open spec fn keyword_of(word: Seq<char>) -> TokenKind {
    if word == "quit"@ || word == "q"@ || word == "exit"@ {
        TokenKind::Quit
    } else if word == "edit"@ || word == "e"@ {
        TokenKind::Edit
    } else if word == "remind"@ || word == "r"@ {
        TokenKind::Remind
    } else if word == "list"@ || word == "ls"@ {
        TokenKind::List
    } else if word == "help"@ || word == "h"@ {
        TokenKind::Help
    } else {
        TokenKind::Str
    }
}

/// Looks a lowercase word up in the keyword table.
pub fn keyword_kind(word: &str) -> (kind: TokenKind)
    ensures
        kind == keyword_of(word@),
{
    if same_text(word, "quit") || same_text(word, "q") || same_text(word, "exit") {
        TokenKind::Quit
    } else if same_text(word, "edit") || same_text(word, "e") {
        TokenKind::Edit
    } else if same_text(word, "remind") || same_text(word, "r") {
        TokenKind::Remind
    } else if same_text(word, "list") || same_text(word, "ls") {
        TokenKind::List
    } else if same_text(word, "help") || same_text(word, "h") {
        TokenKind::Help
    } else {
        TokenKind::Str
    }
}

/// A token: its kind, its text and where it begins.
#[derive(Debug)]
pub struct Token {
    pub kind: TokenKind,
    pub text: String,
    pub loc: Loc,
}

/// A token as a mathematical value.
pub struct TokenView {
    pub kind: TokenKind,
    pub text: Seq<char>,
    pub loc: LocView,
}

impl View for Token {
    type V = TokenView;

    open spec fn view(&self) -> TokenView {
        TokenView { kind: self.kind, text: self.text@, loc: self.loc@ }
    }
}

impl TokenView {
    /// The token as text: what it holds and where it stands.
    pub open spec fn text_at(self) -> Seq<char> {
        self.text + " at "@ + self.loc.text()
    }

    /// The line that marks the token under a prompt of one character:
    /// spaces up to its column, then a caret for each of its characters.
    pub open spec fn marker(self) -> Seq<char> {
        marker(self.loc.col, self.text.len())
    }
}

impl Token {
    /// The token as text, for a message.
    pub fn to_string(&self) -> (text: String)
        ensures
            text@ == self@.text_at(),
    {
        let mut text = self.text.clone();
        text.append(" at ");
        let place = self.loc.to_string();
        text.append(place.as_str());
        text
    }

    /// The line that marks the token under a prompt of one character.
    pub fn marker(&self) -> (line: String)
        ensures
            line@ == self@.marker(),
    {
        caret_line(self.loc.col, self.text.as_str().unicode_len())
    }
}

impl Clone for Token {
    fn clone(&self) -> (r: Self)
        ensures
            r == *self,
    {
        Token { kind: self.kind, text: self.text.clone(), loc: self.loc.clone() }
    }
}

/// A lexer over the characters of one input. It hands out the tokens of the
/// input in order and keeps at most one token that was looked at but not yet
/// taken.
pub struct Lexer {
    chars: Vec<char>,
    exhausted: bool,
    peeked: Option<Token>,
    file_path: Option<String>,
    lnum: usize,
    cnum: usize,
    bol: usize,
}

/// A lexer as a mathematical value: the input and its name, the offset up to
/// which the input has been read, whether the token that ends the stream has
/// been read, and the token in the lookahead slot.
pub struct LexerView {
    pub input: Seq<char>,
    pub file_path: Option<Seq<char>>,
    pub pos: nat,
    pub exhausted: bool,
    pub peeked: Option<TokenView>,
}

impl LexerView {
    /// The tokens that are still to come, the one in the lookahead slot
    /// first. An exhausted lexer with an empty slot has none.
    pub open spec fn remaining(self) -> Seq<TokenView> {
        let unread = if self.exhausted {
            Seq::empty()
        } else {
            tokens_from(self.input, self.file_path, self.pos as int)
        };
        match self.peeked {
            Some(t) => seq![t] + unread,
            None => unread,
        }
    }

    /// The location of the offset up to which the input has been read.
    pub open spec fn loc(self) -> LocView {
        loc_at(self.input, self.file_path, self.pos as int)
    }

    /// The lexer once the next token has been read from the input: it
    /// stands behind that token, and is exhausted if the token ends the
    /// stream.
    pub open spec fn read(self) -> LexerView {
        let x = next_lexeme(self.input, self.pos as int);
        LexerView { pos: x.end as nat, exhausted: x.kind.is_terminal(), ..self }
    }

    /// The lexer once the next token has been taken: out of the lookahead
    /// slot if one is there, else from the input. Where no token is to come
    /// nothing changes.
    pub open spec fn after_next(self) -> LexerView {
        if self.peeked is Some {
            LexerView { peeked: None, ..self }
        } else if self.exhausted {
            self
        } else {
            self.read()
        }
    }

    /// The lexer once the next token has been looked at: the token is in
    /// the lookahead slot, read from the input if the slot was empty.
    /// Where no token is to come nothing changes.
    pub open spec fn after_peek(self) -> LexerView {
        if self.peeked is Some || self.exhausted {
            self
        } else {
            LexerView {
                peeked: Some(
                    token_of(self.input, self.file_path, next_lexeme(self.input, self.pos as int)),
                ),
                ..self.read()
            }
        }
    }

    /// The lexer once `n` tokens have been taken.
    pub open spec fn after(self, n: nat) -> LexerView
        decreases n,
    {
        if n == 0 {
            self
        } else {
            self.after((n - 1) as nat).after_next()
        }
    }

    /// The invariant of a lexer, as far as its value shows it: the offset
    /// lies within the input, and the lexer is exhausted exactly if the
    /// token in the lookahead slot, if there is one, ends the stream.
    pub open spec fn wf(self) -> bool {
        &&& self.pos <= self.input.len()
        &&& self.peeked matches Some(t) ==> (t.kind.is_terminal() <==> self.exhausted)
    }

    /// Taking a token takes the first of those still to come, and leaves a
    /// well-formed lexer well formed.
    pub proof fn lemma_after_next(self)
        requires
            self.wf(),
        ensures
            self.after_next().wf(),
            well_terminated(self.remaining()),
            self.remaining().len() > 0 ==> self.after_next().remaining()
                == self.remaining().skip(1),
            self.remaining().len() == 0 ==> self.after_next() == self,
    {
        if self.peeked is Some {
            if !self.exhausted {
                lemma_tokens_from(self.input, self.file_path, self.pos as int);
            }
            assert(self.after_next().remaining() =~= self.remaining().skip(1));
        } else if self.exhausted {
        } else {
            lemma_tokens_from(self.input, self.file_path, self.pos as int);
            lemma_tokens_from_unfold(self.input, self.file_path, self.pos as int);
            assert(self.remaining().drop_first() =~= self.remaining().skip(1));
        }
    }

    /// Taking `n` tokens leaves those still to come but the first `n`, and
    /// leaves a well-formed lexer well formed.
    pub proof fn lemma_after(self, n: nat)
        requires
            self.wf(),
        ensures
            self.after(n).wf(),
            self.after(n).input == self.input,
            self.after(n).file_path == self.file_path,
            n <= self.remaining().len() ==> self.after(n).remaining() == self.remaining().skip(
                n as int,
            ),
        decreases n,
    {
        if n == 0 {
            assert(self.remaining().skip(0) =~= self.remaining());
        } else {
            let before = self.after((n - 1) as nat);
            self.lemma_after((n - 1) as nat);
            before.lemma_after_next();
            if n <= self.remaining().len() {
                assert(self.remaining().skip(n - 1).skip(1) =~= self.remaining().skip(n as int));
            }
        }
    }

    /// Looking at a token takes nothing: the same tokens are still to come,
    /// looking again changes nothing, and taking a token afterwards leaves
    /// what taking it at once would have left.
    pub proof fn lemma_after_peek(self)
        requires
            self.wf(),
        ensures
            self.after_peek().wf(),
            self.after_peek().remaining() == self.remaining(),
            self.after_peek().after_peek() == self.after_peek(),
            self.after_peek().after_next() == self.after_next(),
    {
        if self.peeked is None && !self.exhausted {
            lemma_tokens_from_unfold(self.input, self.file_path, self.pos as int);
            assert(self.after_peek().remaining() =~= self.remaining());
        }
    }

    /// Taking `m` tokens and then `n` more is taking `m + n`.
    pub proof fn lemma_after_after(self, m: nat, n: nat)
        ensures
            self.after(m).after(n) == self.after(m + n),
        decreases n,
    {
        if n > 0 {
            self.lemma_after_after(m, (n - 1) as nat);
        }
    }
}

impl View for Lexer {
    type V = LexerView;

    closed spec fn view(&self) -> LexerView {
        LexerView {
            input: self.chars@,
            file_path: opt_text(self.file_path),
            pos: self.cnum as nat,
            exhausted: self.exhausted,
            peeked: match self.peeked {
                Some(t) => Some(t@),
                None => None,
            },
        }
    }
}

impl Lexer {
    /// The invariant of a lexer: the offset lies within the input, the line
    /// count and the beginning of the line belong to that offset, and the
    /// lexer is exhausted exactly if the token in the lookahead slot, if
    /// there is one, ends the stream.
    pub closed spec fn wf(&self) -> bool {
        &&& self.chars.len() < usize::MAX
        &&& self.cnum <= self.chars.len()
        &&& self.lnum <= self.cnum
        &&& self.bol <= self.cnum
        &&& self.lnum == newlines_before(self.chars@, self.cnum as int)
        &&& self.bol == line_start(self.chars@, self.cnum as int)
        &&& self.peeked matches Some(t) ==> (t.kind.is_terminal() <==> self.exhausted)
    }

    /// Of a well-formed lexer the offset lies within the input, and of the
    /// tokens still to come the last one, and no other, ends the stream.
    pub proof fn lemma_remaining(&self)
        requires
            self.wf(),
        ensures
            self@.wf(),
            well_terminated(self@.remaining()),
            !self@.exhausted ==> self@.remaining().len() > 0,
    {
        if !self.exhausted {
            lemma_tokens_from(self@.input, self@.file_path, self@.pos as int);
        }
    }

    /// A lexer at the beginning of `chars`, which came from the source named
    /// `file_path`.
    pub fn new(chars: Vec<char>, file_path: Option<String>) -> (lexer: Self)
        requires
            chars.len() < usize::MAX,
        ensures
            lexer.wf(),
            lexer@ == (LexerView {
                input: chars@,
                file_path: opt_text(file_path),
                pos: 0,
                exhausted: false,
                peeked: None,
            }),
            lexer@.remaining() == tokens_from(chars@, opt_text(file_path), 0),
            lexer@.remaining().len() > 0,
    {
        proof {
            lemma_tokens_from(chars@, opt_text(file_path), 0);
        }
        Lexer { chars, exhausted: false, peeked: None, file_path, lnum: 0, cnum: 0, bol: 0 }
    }

    /// The location of the offset up to which the input has been read.
    pub fn loc(&self) -> (loc: Loc)
        requires
            self.wf(),
        ensures
            loc@ == self@.loc(),
    {
        Loc { file_path: self.file_path.clone(), row: self.lnum + 1, col: self.cnum - self.bol + 1 }
    }

    /// Whether the token that ends the stream has been read from the input.
    pub fn is_exhausted(&self) -> (r: bool)
        ensures
            r == self@.exhausted,
    {
        self.exhausted
    }

    /// Whether a token is still to come.
    pub fn has_token(&self) -> (r: bool)
        requires
            self.wf(),
        ensures
            r == (self@.remaining().len() > 0),
    {
        proof {
            self.lemma_remaining();
        }
        self.peeked.is_some() || !self.exhausted
    }

    /// Reads one character.
    fn advance(&mut self)
        requires
            old(self).wf(),
            old(self).cnum < old(self).chars.len(),
        ensures
            final(self).wf(),
            final(self)@ == (LexerView { pos: old(self)@.pos + 1, ..old(self)@ }),
    {
        let c: char = self.chars[self.cnum];
        self.cnum += 1;
        if c == '\n' {
            self.lnum += 1;
            self.bol = self.cnum;
        }
    }

    /// Reads the run of the given kind that begins at the current offset.
    fn skip_run(&mut self, run: Run)
        requires
            old(self).wf(),
        ensures
            final(self).wf(),
            final(self)@ == (LexerView {
                pos: run_end(old(self)@.input, old(self)@.pos as int, run) as nat,
                ..old(self)@
            }),
    {
        proof {
            lemma_run_end(self@.input, self@.pos as int, run);
        }
        while self.cnum < self.chars.len() && run.accepts(self.chars[self.cnum])
            invariant
                self.wf(),
                self@ == (LexerView { pos: self@.pos, ..old(self)@ }),
                run_end(self@.input, self@.pos as int, run) == run_end(
                    old(self)@.input,
                    old(self)@.pos as int,
                    run,
                ),
            decreases self.chars.len() - self.cnum,
        {
            self.advance();
        }
    }

    /// Reads the run of the given kind that begins at the current offset and
    /// appends its characters to `text`.
    fn take_run(&mut self, run: Run, text: &mut String)
        requires
            old(self).wf(),
        ensures
            final(self).wf(),
            final(self)@ == (LexerView {
                pos: run_end(old(self)@.input, old(self)@.pos as int, run) as nat,
                ..old(self)@
            }),
            final(text)@ == old(text)@ + old(self)@.input.subrange(
                old(self)@.pos as int,
                final(self)@.pos as int,
            ),
    {
        proof {
            lemma_run_end(self@.input, self@.pos as int, run);
        }
        while self.cnum < self.chars.len() && run.accepts(self.chars[self.cnum])
            invariant
                self.wf(),
                self@ == (LexerView { pos: self@.pos, ..old(self)@ }),
                old(self)@.pos <= self@.pos <= self@.input.len(),
                run_end(self@.input, self@.pos as int, run) == run_end(
                    old(self)@.input,
                    old(self)@.pos as int,
                    run,
                ),
                text@ == old(text)@ + self@.input.subrange(old(self)@.pos as int, self@.pos as int),
            decreases self.chars.len() - self.cnum,
        {
            text.push(self.chars[self.cnum]);
            self.advance();
        }
    }

    /// Reads blanks: whitespace up to the next newline.
    fn trim_whitespace(&mut self)
        requires
            old(self).wf(),
        ensures
            final(self).wf(),
            final(self)@ == (LexerView {
                pos: run_end(old(self)@.input, old(self)@.pos as int, Run::Blank) as nat,
                ..old(self)@
            }),
    {
        self.skip_run(Run::Blank);
    }

    /// Reads the rest of the line, its newline included.
    fn drop_line(&mut self)
        requires
            old(self).wf(),
        ensures
            final(self).wf(),
            final(self)@ == (LexerView {
                pos: line_end(old(self)@.input, old(self)@.pos as int) as nat,
                ..old(self)@
            }),
    {
        proof {
            lemma_run_end(self@.input, self@.pos as int, Run::Line);
        }
        self.skip_run(Run::Line);
        if self.cnum < self.chars.len() {
            self.advance();
        }
    }

    /// Reads the next token from the input.
    fn chop_tokens(&mut self) -> (token: Token)
        requires
            old(self).wf(),
            !old(self)@.exhausted,
            old(self)@.peeked is None,
        ensures
            final(self).wf(),
            token@ == token_of(
                old(self)@.input,
                old(self)@.file_path,
                next_lexeme(old(self)@.input, old(self)@.pos as int),
            ),
            final(self)@ == old(self)@.read(),
    {
        proof {
            lemma_token_start_steps(self@.input, self@.pos as int);
            lemma_next_lexeme(self@.input, self@.pos as int);
        }
        self.trim_whitespace();
        while self.cnum < self.chars.len() && (self.chars[self.cnum] == '\n'
            || self.chars[self.cnum] == '#')
            invariant
                self.wf(),
                self@ == (LexerView { pos: self@.pos, ..old(self)@ }),
                old(self)@.pos <= old(self)@.input.len(),
                self@.pos <= self@.input.len(),
                self@.pos == run_end(self@.input, self@.pos as int, Run::Blank),
                token_start(self@.input, self@.pos as int) == token_start(
                    old(self)@.input,
                    old(self)@.pos as int,
                ),
            decreases self.chars.len() - self.cnum,
        {
            proof {
                lemma_token_start_steps(self@.input, self@.pos as int);
                lemma_token_start_steps(self@.input, line_end(self@.input, self@.pos as int));
            }
            self.drop_line();
            self.trim_whitespace();
        }
        let ghost start = self@.pos as int;
        assert(start == token_start(old(self)@.input, old(self)@.pos as int));
        let loc = self.loc();
        if self.cnum >= self.chars.len() {
            self.exhausted = true;
            return Token { kind: TokenKind::End, text: String::new(), loc };
        }
        let c: char = self.chars[self.cnum];
        let first = opening(c);
        let mut text = String::new();
        self.advance();
        proof {
            lemma_run_end(self@.input, start + 1, Run::Quoted(c));
            lemma_run_end(self@.input, start + 1, Run::Letters);
            lemma_run_end(self@.input, start + 1, Run::Numerals);
        }
        match first {
            Opening::Quote => {
                self.take_run(Run::Quoted(c), &mut text);
                let closed = self.cnum < self.chars.len();
                if closed {
                    self.advance();
                }
                Token { kind: first.token_kind(closed, ""), text, loc }
            },
            Opening::Letter => {
                text.push(c);
                self.take_run(Run::Letters, &mut text);
                assert(text@ == self@.input.subrange(start, self@.pos as int));
                let lowered = text.as_str().to_lowercase();
                Token { kind: first.token_kind(true, lowered.as_str()), text, loc }
            },
            Opening::Numeral => {
                text.push(c);
                self.take_run(Run::Numerals, &mut text);
                assert(text@ == self@.input.subrange(start, self@.pos as int));
                Token { kind: first.token_kind(true, ""), text, loc }
            },
            Opening::Other => {
                text.push(c);
                assert(text@ == self@.input.subrange(start, start + 1));
                self.exhausted = true;
                Token { kind: first.token_kind(true, ""), text, loc }
            },
        }
    }

    /// Takes the next token. The caller sees to it that one is still to
    /// come.
    pub fn next_token(&mut self) -> (token: Token)
        requires
            old(self).wf(),
            old(self)@.remaining().len() > 0,
        ensures
            final(self).wf(),
            token@ == old(self)@.remaining()[0],
            final(self)@ == old(self)@.after_next(),
            final(self)@.remaining() == old(self)@.remaining().drop_first(),
    {
        let ghost before = self@;
        match self.peeked.take() {
            Some(token) => {
                assert(self@.remaining() =~= before.remaining().drop_first());
                token
            },
            None => {
                proof {
                    lemma_tokens_from_unfold(before.input, before.file_path, before.pos as int);
                }
                self.chop_tokens()
            },
        }
    }

    /// Takes the next token if one is still to come.
    pub fn next(&mut self) -> (token: Option<Token>)
        requires
            old(self).wf(),
        ensures
            final(self).wf(),
            match token {
                Some(t) => old(self)@.remaining().len() > 0 && t@ == old(self)@.remaining()[0]
                    && final(self)@.remaining() == old(self)@.remaining().drop_first(),
                None => old(self)@.remaining().len() == 0,
            },
            final(self)@ == old(self)@.after_next(),
    {
        proof {
            self.lemma_remaining();
        }
        if self.has_token() {
            Some(self.next_token())
        } else {
            None
        }
    }

    /// Looks at the next token without taking it: the token is still to come
    /// afterwards. The caller sees to it that one is still to come.
    pub fn peek_token(&mut self) -> (token: &Token)
        requires
            old(self).wf(),
            old(self)@.remaining().len() > 0,
        ensures
            final(self).wf(),
            token@ == old(self)@.remaining()[0],
            final(self)@ == old(self)@.after_peek(),
            final(self)@.remaining() == old(self)@.remaining(),
            final(self)@.peeked == Some(token@),
    {
        let ghost before = self@;
        if self.peeked.is_none() {
            proof {
                lemma_tokens_from_unfold(before.input, before.file_path, before.pos as int);
            }
            let token = self.chop_tokens();
            self.peeked = Some(token);
            assert(self@.remaining() =~= before.remaining());
        }
        self.peeked.as_ref().unwrap()
    }

    /// Takes the next token and tells whether it is of the given kind: `Ok`
    /// with the token if it is, `Err` with the token if it is not. The
    /// caller sees to it that a token is still to come.
    pub fn expect_token(&mut self, kind: TokenKind) -> (r: Result<Token, Token>)
        requires
            old(self).wf(),
            old(self)@.remaining().len() > 0,
        ensures
            final(self).wf(),
            final(self)@ == old(self)@.after_next(),
            final(self)@.remaining() == old(self)@.remaining().drop_first(),
            match r {
                Ok(t) => t@ == old(self)@.remaining()[0] && t@.kind == kind,
                Err(t) => t@ == old(self)@.remaining()[0] && t@.kind != kind,
            },
    {
        let token = self.next_token();
        if kind == token.kind {
            Ok(token)
        } else {
            Err(token)
        }
    }

    /// Takes all the tokens that are still to come.
    pub fn tokens(&mut self) -> (tokens: Vec<Token>)
        requires
            old(self).wf(),
        ensures
            final(self).wf(),
            token_views(tokens@) == old(self)@.remaining(),
            final(self)@ == old(self)@.after(old(self)@.remaining().len()),
            final(self)@.remaining().len() == 0,
    {
        let mut tokens: Vec<Token> = Vec::new();
        while self.has_token()
            invariant
                self.wf(),
                token_views(tokens@) + self@.remaining() == old(self)@.remaining(),
                self@ == old(self)@.after(tokens.len() as nat),
            decreases self@.remaining().len(),
        {
            let ghost taken = token_views(tokens@);
            let ghost left = self@.remaining();
            let token = self.next_token();
            tokens.push(token);
            proof {
                assert(token_views(tokens@) =~= taken.push(left[0]));
                assert(taken.push(left[0]) + left.drop_first() =~= taken + left);
            }
        }
        proof {
            assert(token_views(tokens@) + self@.remaining() =~= token_views(tokens@));
            assert(token_views(tokens@).len() == tokens.len());
        }
        tokens
    }
}

/// The tokens of a list as mathematical values.
pub open spec fn token_views(tokens: Seq<Token>) -> Seq<TokenView> {
    tokens.map_values(|t: Token| t@)
}

} // verus!
