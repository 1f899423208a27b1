//! The tokenizer: a finite-state machine over classified characters.

use crate::error::LexError;
use vstd::prelude::*;

verus! {

/// The coarse lexical class of a character.
#[derive(Debug, Copy, Clone, PartialEq, Eq, Structural)]
pub enum InputClass {
    Other,
    Whitespace,
    Letter,
    Digit,
    Dot,
    Colon,
    Quote,
    LF,
}

/// What kind of token the machine is accumulating.
#[derive(Debug, Copy, Clone, PartialEq, Eq, Structural)]
pub enum LexerState {
    Initial,
    Whitespace,
    Other,
    Alphanum,
    Num,
    Quote,
    DoubleQuote,
    LF,
}

/// What the machine does with the pending span on a transition.
#[derive(Debug, Copy, Clone, PartialEq, Eq, Structural)]
pub enum LexerAction {
    /// Nothing: the pending span, if any, goes on.
    NoAction,
    /// A new span opens at the current position.
    Advance,
    /// The pending span closes as a token, and a new span opens.
    EmitAndAdvance,
    /// The pending span closes as a token, and no span is pending.
    EmitAndReset,
    /// The pending span closes as one more fragment of the number before
    /// it, or as a token where no number stands before it, and a new span
    /// opens.
    AppendAndAdvance,
    /// As `AppendAndAdvance`, but no span is pending afterwards.
    AppendAndReset,
    /// The scan fails.
    Stop,
}

impl InputClass {
    /// The class of a character.
    pub open spec fn of(c: char) -> InputClass {
        if c == ' ' || c == '\t' {
            InputClass::Whitespace
        } else if ('a' <= c && c <= 'z') || ('A' <= c && c <= 'Z') {
            InputClass::Letter
        } else if ('0' <= c && c <= '9') || c == '_' {
            InputClass::Digit
        } else if c == '.' {
            InputClass::Dot
        } else if c == ':' {
            InputClass::Colon
        } else if c == '"' {
            InputClass::Quote
        } else if c == '\n' {
            InputClass::LF
        } else {
            InputClass::Other
        }
    }

    /// The class of a character: blank and tab are whitespace, the ASCII
    /// letters are letters, the ASCII digits and the underscore are digits,
    /// and dot, colon, double quote and line feed have a class each. Every
    /// other character is `Other`.
    pub fn classify(c: char) -> (r: InputClass)
        ensures
            r == InputClass::of(c),
    {
        match c {
            ' ' | '\t' => InputClass::Whitespace,
            'a'..='z' | 'A'..='Z' => InputClass::Letter,
            '0'..='9' | '_' => InputClass::Digit,
            '.' => InputClass::Dot,
            ':' => InputClass::Colon,
            '"' => InputClass::Quote,
            '\n' => InputClass::LF,
            _ => InputClass::Other,
        }
    }
}

impl LexerState {
    /// The transition table. `None` stands for the end of the input.
    pub open spec fn next(state: LexerState, class: Option<InputClass>) -> (
        LexerState,
        LexerAction,
    ) {
        match state {
            LexerState::Initial | LexerState::Whitespace => match class {
                Some(InputClass::Other | InputClass::Dot | InputClass::Colon) => (
                    LexerState::Other,
                    LexerAction::Advance,
                ),
                Some(InputClass::Whitespace) => (LexerState::Whitespace, LexerAction::NoAction),
                Some(InputClass::Letter) => (LexerState::Alphanum, LexerAction::Advance),
                Some(InputClass::Digit) => (LexerState::Num, LexerAction::Advance),
                Some(InputClass::Quote) => (LexerState::Quote, LexerAction::Advance),
                None | Some(InputClass::LF) => (LexerState::LF, LexerAction::Advance),
            },
            LexerState::Other => match class {
                Some(InputClass::Other) => (LexerState::Other, LexerAction::EmitAndAdvance),
                Some(InputClass::Whitespace) => (LexerState::Whitespace, LexerAction::EmitAndReset),
                Some(InputClass::Letter) => (LexerState::Alphanum, LexerAction::EmitAndAdvance),
                Some(InputClass::Digit) => (LexerState::Num, LexerAction::EmitAndAdvance),
                Some(InputClass::Dot | InputClass::Colon) => (
                    LexerState::Other,
                    LexerAction::NoAction,
                ),
                Some(InputClass::Quote) => (LexerState::Quote, LexerAction::EmitAndAdvance),
                None | Some(InputClass::LF) => (LexerState::LF, LexerAction::EmitAndAdvance),
            },
            LexerState::Alphanum => match class {
                Some(InputClass::Other) => (LexerState::Other, LexerAction::EmitAndAdvance),
                Some(InputClass::Whitespace) => (LexerState::Whitespace, LexerAction::EmitAndReset),
                Some(InputClass::Letter | InputClass::Digit) => (
                    LexerState::Alphanum,
                    LexerAction::NoAction,
                ),
                Some(InputClass::Dot | InputClass::Colon) => (
                    LexerState::Other,
                    LexerAction::NoAction,
                ),
                Some(InputClass::Quote) => (LexerState::Quote, LexerAction::EmitAndAdvance),
                None | Some(InputClass::LF) => (LexerState::LF, LexerAction::EmitAndAdvance),
            },
            LexerState::Num => match class {
                Some(InputClass::Other) => (LexerState::Other, LexerAction::AppendAndAdvance),
                Some(InputClass::Whitespace) => (
                    LexerState::Whitespace,
                    LexerAction::AppendAndReset,
                ),
                Some(InputClass::Letter | InputClass::Digit | InputClass::Dot) => (
                    LexerState::Num,
                    LexerAction::NoAction,
                ),
                Some(InputClass::Colon) => (LexerState::Other, LexerAction::NoAction),
                Some(InputClass::Quote) => (LexerState::Quote, LexerAction::AppendAndAdvance),
                None | Some(InputClass::LF) => (LexerState::LF, LexerAction::AppendAndAdvance),
            },
            LexerState::Quote => match class {
                Some(InputClass::Quote) => (LexerState::DoubleQuote, LexerAction::NoAction),
                None => (LexerState::LF, LexerAction::Stop),
                _ => (LexerState::Quote, LexerAction::NoAction),
            },
            LexerState::DoubleQuote => match class {
                Some(InputClass::Other | InputClass::Dot | InputClass::Colon) => (
                    LexerState::Other,
                    LexerAction::EmitAndAdvance,
                ),
                Some(InputClass::Whitespace) => (LexerState::Whitespace, LexerAction::EmitAndReset),
                Some(InputClass::Letter) => (LexerState::Alphanum, LexerAction::EmitAndAdvance),
                Some(InputClass::Digit) => (LexerState::Num, LexerAction::EmitAndAdvance),
                Some(InputClass::Quote) => (LexerState::Quote, LexerAction::NoAction),
                None | Some(InputClass::LF) => (LexerState::LF, LexerAction::EmitAndAdvance),
            },
            LexerState::LF => match class {
                Some(InputClass::Other | InputClass::Dot | InputClass::Colon) => (
                    LexerState::Other,
                    LexerAction::EmitAndAdvance,
                ),
                Some(InputClass::Whitespace) => (
                    LexerState::Whitespace,
                    LexerAction::EmitAndAdvance,
                ),
                Some(InputClass::Letter) => (LexerState::Alphanum, LexerAction::EmitAndAdvance),
                Some(InputClass::Digit) => (LexerState::Num, LexerAction::EmitAndAdvance),
                Some(InputClass::Quote) => (LexerState::Quote, LexerAction::EmitAndAdvance),
                None | Some(InputClass::LF) => (LexerState::LF, LexerAction::EmitAndAdvance),
            },
        }
    }

    /// The state that follows `state` on a character of class `class`, or
    /// on the end of the input for `None`, and what is done with the pending
    /// span: the entry of the transition table.
    pub fn transition(state: LexerState, class: Option<InputClass>) -> (r: (
        LexerState,
        LexerAction,
    ))
        ensures
            r == LexerState::next(state, class),
    {
        match state {
            LexerState::Initial | LexerState::Whitespace => match class {
                Some(InputClass::Other | InputClass::Dot | InputClass::Colon) => (
                    LexerState::Other,
                    LexerAction::Advance,
                ),
                Some(InputClass::Whitespace) => (LexerState::Whitespace, LexerAction::NoAction),
                Some(InputClass::Letter) => (LexerState::Alphanum, LexerAction::Advance),
                Some(InputClass::Digit) => (LexerState::Num, LexerAction::Advance),
                Some(InputClass::Quote) => (LexerState::Quote, LexerAction::Advance),
                None | Some(InputClass::LF) => (LexerState::LF, LexerAction::Advance),
            },
            LexerState::Other => match class {
                Some(InputClass::Other) => (LexerState::Other, LexerAction::EmitAndAdvance),
                Some(InputClass::Whitespace) => (LexerState::Whitespace, LexerAction::EmitAndReset),
                Some(InputClass::Letter) => (LexerState::Alphanum, LexerAction::EmitAndAdvance),
                Some(InputClass::Digit) => (LexerState::Num, LexerAction::EmitAndAdvance),
                Some(InputClass::Dot | InputClass::Colon) => (
                    LexerState::Other,
                    LexerAction::NoAction,
                ),
                Some(InputClass::Quote) => (LexerState::Quote, LexerAction::EmitAndAdvance),
                None | Some(InputClass::LF) => (LexerState::LF, LexerAction::EmitAndAdvance),
            },
            LexerState::Alphanum => match class {
                Some(InputClass::Other) => (LexerState::Other, LexerAction::EmitAndAdvance),
                Some(InputClass::Whitespace) => (LexerState::Whitespace, LexerAction::EmitAndReset),
                Some(InputClass::Letter | InputClass::Digit) => (
                    LexerState::Alphanum,
                    LexerAction::NoAction,
                ),
                Some(InputClass::Dot | InputClass::Colon) => (
                    LexerState::Other,
                    LexerAction::NoAction,
                ),
                Some(InputClass::Quote) => (LexerState::Quote, LexerAction::EmitAndAdvance),
                None | Some(InputClass::LF) => (LexerState::LF, LexerAction::EmitAndAdvance),
            },
            LexerState::Num => match class {
                Some(InputClass::Other) => (LexerState::Other, LexerAction::AppendAndAdvance),
                Some(InputClass::Whitespace) => (
                    LexerState::Whitespace,
                    LexerAction::AppendAndReset,
                ),
                Some(InputClass::Letter | InputClass::Digit | InputClass::Dot) => (
                    LexerState::Num,
                    LexerAction::NoAction,
                ),
                Some(InputClass::Colon) => (LexerState::Other, LexerAction::NoAction),
                Some(InputClass::Quote) => (LexerState::Quote, LexerAction::AppendAndAdvance),
                None | Some(InputClass::LF) => (LexerState::LF, LexerAction::AppendAndAdvance),
            },
            LexerState::Quote => match class {
                Some(InputClass::Quote) => (LexerState::DoubleQuote, LexerAction::NoAction),
                None => (LexerState::LF, LexerAction::Stop),
                _ => (LexerState::Quote, LexerAction::NoAction),
            },
            LexerState::DoubleQuote => match class {
                Some(InputClass::Other | InputClass::Dot | InputClass::Colon) => (
                    LexerState::Other,
                    LexerAction::EmitAndAdvance,
                ),
                Some(InputClass::Whitespace) => (LexerState::Whitespace, LexerAction::EmitAndReset),
                Some(InputClass::Letter) => (LexerState::Alphanum, LexerAction::EmitAndAdvance),
                Some(InputClass::Digit) => (LexerState::Num, LexerAction::EmitAndAdvance),
                Some(InputClass::Quote) => (LexerState::Quote, LexerAction::NoAction),
                None | Some(InputClass::LF) => (LexerState::LF, LexerAction::EmitAndAdvance),
            },
            LexerState::LF => match class {
                Some(InputClass::Other | InputClass::Dot | InputClass::Colon) => (
                    LexerState::Other,
                    LexerAction::EmitAndAdvance,
                ),
                Some(InputClass::Whitespace) => (
                    LexerState::Whitespace,
                    LexerAction::EmitAndAdvance,
                ),
                Some(InputClass::Letter) => (LexerState::Alphanum, LexerAction::EmitAndAdvance),
                Some(InputClass::Digit) => (LexerState::Num, LexerAction::EmitAndAdvance),
                Some(InputClass::Quote) => (LexerState::Quote, LexerAction::EmitAndAdvance),
                None | Some(InputClass::LF) => (LexerState::LF, LexerAction::EmitAndAdvance),
            },
        }
    }

    /// Spans that accumulate in this state close as a token: every state
    /// but the two in which no token is under way.
    pub open spec fn spec_has_token(self) -> bool {
        self != LexerState::Initial && self != LexerState::Whitespace
    }

    /// Whether spans that accumulate in this state close as a token.
    #[verifier::when_used_as_spec(spec_has_token)]
    pub fn has_token(self) -> (r: bool)
        ensures
            r == self.spec_has_token(),
    {
        match self {
            LexerState::Initial | LexerState::Whitespace => false,
            _ => true,
        }
    }
}

/// A token of the language.
#[derive(Debug, Clone, PartialEq)]
pub enum Token {
    /// A name.
    Identifier(String),
    /// A numeric literal: one fragment for a single number, several for
    /// the numbers of an inline vector.
    Number(Vec<String>),
    /// An operator glyph.
    Operator(String),
    /// A quoted string, quotes included.
    StringLiteral(String),
    /// The end of a line.
    Eol,
}

/// What a token is: its kind, and the text of its span or spans.
pub enum TokenView {
    Identifier(Seq<char>),
    Number(Seq<Seq<char>>),
    Operator(Seq<char>),
    StringLiteral(Seq<char>),
    Eol,
}

impl View for Token {
    type V = TokenView;

    open spec fn view(&self) -> TokenView {
        match *self {
            Token::Identifier(s) => TokenView::Identifier(s@),
            Token::Number(v) => TokenView::Number(v@.map_values(|s: String| s@)),
            Token::Operator(s) => TokenView::Operator(s@),
            Token::StringLiteral(s) => TokenView::StringLiteral(s@),
            Token::Eol => TokenView::Eol,
        }
    }
}

impl TokenView {
    /// The token that a span of text `s` closes as, where it accumulated in
    /// `state`: an operator, an identifier, a number of one fragment, a
    /// string, or the end of a line. Meant for states that have a token.
    pub open spec fn emitted(s: Seq<char>, state: LexerState) -> TokenView {
        match state {
            LexerState::Other => TokenView::Operator(s),
            LexerState::Alphanum => TokenView::Identifier(s),
            LexerState::Num => TokenView::Number(seq![s]),
            LexerState::Quote | LexerState::DoubleQuote => TokenView::StringLiteral(s),
            _ => TokenView::Eol,
        }
    }
}

impl TokenView {
    /// The token that stands last after the span `s`, which accumulated in
    /// `state`, closes behind the token `last`: where both are numbers,
    /// `last` with `s` as one more fragment.
    pub open spec fn extended(last: TokenView, s: Seq<char>) -> TokenView {
        match last {
            TokenView::Number(v) => TokenView::Number(v.push(s)),
            _ => last,
        }
    }
}

impl Token {
    /// Closes the span `s`, which accumulated in `state`, behind the token
    /// `last`, if there is one. A numeric span behind a number becomes one
    /// more fragment of that number, and nothing is returned. Every other
    /// span closes as a token of its own, which is returned.
    pub fn append(s: &str, state: LexerState, last: Option<&mut Token>) -> (r: Option<Token>)
        requires
            state.has_token(),
        ensures
            match last {
                Some(t) => if state == LexerState::Num && (*t)@ is Number {
                    r is None && (*final(t))@ == TokenView::extended((*t)@, s@)
                } else {
                    r matches Some(e) && e@ == TokenView::emitted(s@, state) && *final(t) == *t
                },
                None => r matches Some(e) && e@ == TokenView::emitted(s@, state),
            },
    {
        match (state, last) {
            (LexerState::Num, Some(Token::Number(v))) => {
                let ghost before = v@;
                v.push(s.to_owned());
                proof {
                    assert(v@.map_values(|s: String| s@) =~= before.map_values(
                        |s: String| s@,
                    ).push(s@));
                }
                None
            },
            _ => Some(Token::emit(s, state)),
        }
    }

    /// The token that the span `s` closes as, where it accumulated in
    /// `state`.
    pub fn emit(s: &str, state: LexerState) -> (r: Token)
        requires
            state.has_token(),
        ensures
            r@ == TokenView::emitted(s@, state),
    {
        match state {
            LexerState::Other => Token::Operator(s.to_owned()),
            LexerState::Alphanum => Token::Identifier(s.to_owned()),
            LexerState::Num => {
                let mut v: Vec<String> = Vec::new();
                v.push(s.to_owned());
                proof {
                    assert(v@.map_values(|s: String| s@) =~= seq![s@]);
                }
                Token::Number(v)
            },
            LexerState::Quote | LexerState::DoubleQuote => Token::StringLiteral(s.to_owned()),
            _ => Token::Eol,
        }
    }
}

/// The state of a scan between two characters: the state of the machine,
/// where the pending span begins, if one is pending, and the tokens closed
/// so far.
pub struct Scan {
    pub state: LexerState,
    pub start: Option<int>,
    pub tokens: Seq<TokenView>,
}

/// The tokens after a span `s`, which accumulated in `state`, closes behind
/// them by an append action: a numeric span behind a number becomes one more
/// fragment of that number, and every other span a token of its own.
pub open spec fn appended(tokens: Seq<TokenView>, s: Seq<char>, state: LexerState) -> Seq<
    TokenView,
> {
    if state == LexerState::Num && tokens.len() > 0 && tokens.last() is Number {
        tokens.drop_last().push(TokenView::extended(tokens.last(), s))
    } else {
        tokens.push(TokenView::emitted(s, state))
    }
}

impl Scan {
    /// The scan before the first character.
    pub open spec fn initial() -> Scan {
        Scan { state: LexerState::Initial, start: None, tokens: Seq::empty() }
    }

    /// The text of the pending span, where the scan stands before the
    /// character at `at`.
    pub open spec fn pending(self, input: Seq<char>, at: int) -> Seq<char> {
        match self.start {
            Some(j) => input.subrange(j, at),
            None => Seq::empty(),
        }
    }

    /// The scan after the character at `at`, of class `class`, or after the
    /// end of the input at `at`, for `None`; nothing where the machine
    /// stops. The machine moves by its table, and the action of the
    /// transition closes or opens spans.
    pub open spec fn step(self, input: Seq<char>, at: int, class: Option<InputClass>) -> Option<
        Scan,
    > {
        let (state, action) = LexerState::next(self.state, class);
        let text = self.pending(input, at);
        match action {
            LexerAction::NoAction => Some(Scan { state, ..self }),
            LexerAction::Advance => Some(Scan { state, start: Some(at), ..self }),
            LexerAction::EmitAndAdvance => Some(
                Scan {
                    state,
                    start: Some(at),
                    tokens: self.tokens.push(TokenView::emitted(text, self.state)),
                },
            ),
            LexerAction::EmitAndReset => Some(
                Scan {
                    state,
                    start: None,
                    tokens: self.tokens.push(TokenView::emitted(text, self.state)),
                },
            ),
            LexerAction::AppendAndAdvance => Some(
                Scan { state, start: Some(at), tokens: appended(self.tokens, text, self.state) },
            ),
            LexerAction::AppendAndReset => Some(
                Scan { state, start: None, tokens: appended(self.tokens, text, self.state) },
            ),
            LexerAction::Stop => None,
        }
    }

    /// The position that a failure of the scan at `at` reports as the
    /// beginning of what is unfinished.
    pub open spec fn failure(self, at: int) -> LexError {
        LexError::UnterminatedString {
            start: match self.start {
                Some(j) => j as usize,
                None => at as usize,
            },
            end: at as usize,
        }
    }
}

/// The scan after the first `k` characters of `input`, or the failure
/// where the machine has stopped on one of them.
pub open spec fn scanned(input: Seq<char>, k: nat) -> Result<Scan, LexError>
    decreases k,
{
    if k == 0 {
        Ok(Scan::initial())
    } else {
        match scanned(input, (k - 1) as nat) {
            Ok(scan) => match scan.step(input, k - 1, Some(InputClass::of(input[k - 1]))) {
                Some(next) => Ok(next),
                None => Err(scan.failure(k - 1)),
            },
            Err(e) => Err(e),
        }
    }
}

/// The tokens of `input`: those that the machine has closed after it has
/// read every character and then the end of the input. Where the machine
/// stops, the failure.
pub open spec fn lexed(input: Seq<char>) -> Result<Seq<TokenView>, LexError> {
    match scanned(input, input.len()) {
        Ok(scan) => match scan.step(input, input.len() as int, None) {
            Some(last) => Ok(last.tokens),
            None => Err(scan.failure(input.len() as int)),
        },
        Err(e) => Err(e),
    }
}

/// What a sequence of tokens is: the sequence of what each is.
pub open spec fn tokens_view(tokens: Seq<Token>) -> Seq<TokenView> {
    tokens.map_values(|t: Token| t@)
}

/// The number of double quotes in a text.
pub open spec fn quote_count(s: Seq<char>) -> nat
    decreases s.len(),
{
    if s.len() == 0 {
        0
    } else {
        quote_count(s.drop_last()) + if s.last() == '"' {
            1nat
        } else {
            0nat
        }
    }
}

/// The quotes of a text are balanced: their number is even.
pub open spec fn quotes_balanced(s: Seq<char>) -> bool {
    quote_count(s) % 2 == 0
}

/// A blank or a tab: a character that the tokenizer may drop.
pub open spec fn is_blank(c: char) -> bool {
    InputClass::of(c) == InputClass::Whitespace
}

/// A text of blanks and tabs alone.
pub open spec fn all_blank(s: Seq<char>) -> bool {
    forall|i: int| 0 <= i < s.len() ==> is_blank(#[trigger] s[i])
}

/// `kept` is `full` without some of its blanks and tabs: every other
/// character of `full` is kept, in order, and nothing else is.
pub open spec fn drops_only_blanks(full: Seq<char>, kept: Seq<char>) -> bool
    decreases full.len(),
{
    if full.len() == 0 {
        kept.len() == 0
    } else {
        ||| kept.len() > 0 && kept.last() == full.last() && drops_only_blanks(
            full.drop_last(),
            kept.drop_last(),
        )
        ||| is_blank(full.last()) && drops_only_blanks(full.drop_last(), kept)
    }
}

/// The text of the fragments of a number, one after the other.
pub open spec fn fragments_text(fragments: Seq<Seq<char>>) -> Seq<char>
    decreases fragments.len(),
{
    if fragments.len() == 0 {
        Seq::empty()
    } else {
        fragments_text(fragments.drop_last()) + fragments.last()
    }
}

impl TokenView {
    /// The text of the input that the token stands for: its span, the
    /// spans of its fragments one after the other, or the line feed that
    /// ends a line.
    pub open spec fn text(self) -> Seq<char> {
        match self {
            TokenView::Identifier(s) => s,
            TokenView::Number(v) => fragments_text(v),
            TokenView::Operator(s) => s,
            TokenView::StringLiteral(s) => s,
            TokenView::Eol => seq!['\n'],
        }
    }
}

/// The text that a sequence of tokens stands for: their texts, one after
/// the other.
pub open spec fn tokens_text(tokens: Seq<TokenView>) -> Seq<char>
    decreases tokens.len(),
{
    if tokens.len() == 0 {
        Seq::empty()
    } else {
        tokens_text(tokens.drop_last()) + tokens.last().text()
    }
}

/// Closing the span from `j` to `at` adds its text to what is kept.
proof fn lemma_close_span(input: Seq<char>, j: int, at: int, kept: Seq<char>)
    requires
        0 <= j <= at <= input.len(),
        drops_only_blanks(input.take(j), kept),
    ensures
        drops_only_blanks(input.take(at), kept + input.subrange(j, at)),
    decreases at - j,
{
    if j < at {
        lemma_close_span(input, j, at - 1, kept);
        let full = input.take(at);
        let all = kept + input.subrange(j, at);
        assert(full.drop_last() =~= input.take(at - 1));
        assert(all.drop_last() =~= kept + input.subrange(j, at - 1));
    }
}

/// Passing over blanks from `j` to `at` adds nothing to what is kept.
proof fn lemma_skip_blanks(input: Seq<char>, j: int, at: int, kept: Seq<char>)
    requires
        0 <= j <= at <= input.len(),
        drops_only_blanks(input.take(j), kept),
        all_blank(input.subrange(j, at)),
    ensures
        drops_only_blanks(input.take(at), kept),
    decreases at - j,
{
    if j < at {
        lemma_skip_blanks(input, j, at - 1, kept);
        let full = input.take(at);
        assert(full.drop_last() =~= input.take(at - 1));
        assert(full.last() == input.subrange(j, at)[at - 1 - j]);
    }
}

/// A token closed behind the others adds its text to theirs.
proof fn lemma_text_of_pushed(tokens: Seq<TokenView>, token: TokenView)
    ensures
        tokens_text(tokens.push(token)) == tokens_text(tokens) + token.text(),
{
    assert(tokens.push(token).drop_last() =~= tokens);
}

/// A span closed by an append action adds its text to that of the tokens.
proof fn lemma_text_of_appended(tokens: Seq<TokenView>, s: Seq<char>)
    ensures
        tokens_text(appended(tokens, s, LexerState::Num)) == tokens_text(tokens) + s,
{
    if tokens.len() > 0 && tokens.last() is Number {
        let v = tokens.last()->Number_0;
        let rest = tokens.drop_last();
        lemma_text_of_pushed(rest, TokenView::Number(v.push(s)));
        assert(v.push(s).drop_last() =~= v);
    } else {
        lemma_text_of_pushed(tokens, TokenView::Number(seq![s]));
        assert(fragments_text(seq![s].drop_last()) =~= Seq::<char>::empty());
    }
}

impl Scan {
    /// How much of the input the closed tokens account for, where the scan
    /// stands before the character at `at`: all before the pending span,
    /// or all before `at` where no span is pending.
    pub open spec fn covered(self, at: int) -> int {
        match self.start {
            Some(j) => j,
            None => at,
        }
    }

    /// What the scan keeps true of the input before `at`: the closed tokens
    /// stand for the input before the pending span, but for blanks; no span
    /// is pending at the beginning; a span pending between tokens holds
    /// blanks alone; a span pending after a line feed holds the line feed
    /// alone; and the machine is inside a string literal exactly where the
    /// quotes so far are not balanced.
    pub open spec fn faithful(self, input: Seq<char>, at: int) -> bool {
        &&& 0 <= at <= input.len()
        &&& self.reachable(at)
        &&& drops_only_blanks(input.take(self.covered(at)), tokens_text(self.tokens))
        &&& self.state == LexerState::Initial ==> self.start is None
        &&& self.state == LexerState::Whitespace ==> all_blank(
            input.subrange(self.covered(at), at),
        )
        &&& self.state == LexerState::LF ==> at >= 1 && self.start == Some(at - 1) && input[at
            - 1] == '\n'
        &&& (self.state == LexerState::Quote) == !quotes_balanced(input.take(at))
    }
}

/// One character keeps the scan faithful, and never stops the machine.
proof fn lemma_step_faithful(scan: Scan, input: Seq<char>, at: int)
    requires
        scan.faithful(input, at),
        at < input.len(),
    ensures
        scan.step(input, at, Some(InputClass::of(input[at]))) matches Some(next) && next.faithful(
            input,
            at + 1,
        ),
{
    let class = Some(InputClass::of(input[at]));
    let text = tokens_text(scan.tokens);
    let j = scan.covered(at);
    let span = input.subrange(j, at);
    assert(input.take(at + 1).drop_last() =~= input.take(at));
    if scan.state == LexerState::LF {
        assert(span =~= seq!['\n']);
    }
    match LexerState::next(scan.state, class).1 {
        LexerAction::Advance => {
            if scan.start is Some {
                lemma_skip_blanks(input, j, at, text);
            }
        },
        LexerAction::EmitAndAdvance | LexerAction::EmitAndReset => {
            lemma_close_span(input, j, at, text);
            lemma_text_of_pushed(scan.tokens, TokenView::emitted(span, scan.state));
        },
        LexerAction::AppendAndAdvance | LexerAction::AppendAndReset => {
            lemma_close_span(input, j, at, text);
            lemma_text_of_appended(scan.tokens, span);
        },
        LexerAction::NoAction | LexerAction::Stop => {},
    }
}

/// Every scan of a prefix of the input is faithful.
proof fn lemma_scanned_faithful(input: Seq<char>, k: nat)
    requires
        k <= input.len(),
    ensures
        scanned(input, k) matches Ok(scan) && scan.faithful(input, k as int),
    decreases k,
{
    if k > 0 {
        lemma_scanned_faithful(input, (k - 1) as nat);
        lemma_step_faithful(scanned(input, (k - 1) as nat)->Ok_0, input, k - 1);
    }
}

/// Lexing succeeds exactly on the texts whose quotes are balanced.
pub proof fn lex_total_on_balanced_quotes(input: Seq<char>)
    ensures
        lexed(input) is Ok <==> quotes_balanced(input),
{
    lemma_scanned_faithful(input, input.len());
    assert(input.take(input.len() as int) =~= input);
}

/// The tokens of a text stand for the text but for blanks: their spans,
/// one after the other, are the text without some of its blanks and tabs.
pub proof fn lex_keeps_all_but_blanks(input: Seq<char>)
    ensures
        lexed(input) matches Ok(tokens) ==> drops_only_blanks(input, tokens_text(tokens)),
{
    lemma_scanned_faithful(input, input.len());
    let at = input.len() as int;
    let scan = scanned(input, input.len())->Ok_0;
    let text = tokens_text(scan.tokens);
    let j = scan.covered(at);
    let span = input.subrange(j, at);
    assert(input.take(at) =~= input);
    if scan.state == LexerState::Whitespace {
        lemma_skip_blanks(input, j, at, text);
    }
    if scan.state == LexerState::LF {
        assert(span =~= seq!['\n']);
    }
    lemma_close_span(input, j, at, text);
    if scan.state == LexerState::Num {
        lemma_text_of_appended(scan.tokens, span);
    }
    lemma_text_of_pushed(scan.tokens, TokenView::emitted(span, scan.state));
}

/// The beginning of a pending span, as the scan holds it.
pub open spec fn begin_view(start: Option<usize>) -> Option<int> {
    match start {
        Some(j) => Some(j as int),
        None => None,
    }
}

impl Scan {
    /// What holds of every scan that the machine reaches before the
    /// character at `at`: a pending span begins at or before `at`, and a
    /// span is pending in every state that has a token.
    pub open spec fn reachable(self, at: int) -> bool {
        &&& self.start matches Some(j) ==> 0 <= j <= at
        &&& self.state.has_token() ==> self.start is Some
    }
}

/// The table never closes a span in a state that has no token, and every
/// step keeps what holds of the scans that the machine reaches. So no scan
/// ever closes a span that is not pending, or one for which there is no kind
/// of token.
pub proof fn spans_close_only_in_token_states(
    scan: Scan,
    input: Seq<char>,
    at: int,
    class: Option<InputClass>,
)
    requires
        0 <= at,
        scan.reachable(at),
    ensures
        LexerState::next(scan.state, class).1 != LexerAction::NoAction && LexerState::next(
            scan.state,
            class,
        ).1 != LexerAction::Advance && LexerState::next(scan.state, class).1 != LexerAction::Stop
            ==> scan.state.has_token(),
        scan.step(input, at, class) matches Some(next) ==> next.reachable(at + 1),
{
}

/// Carries out one step of the scan on the tokens closed so far. Returns
/// the state and the beginning of the pending span after the step, or
/// nothing where the machine stops.
fn perform(
    input: &str,
    state: LexerState,
    start: Option<usize>,
    tokens: &mut Vec<Token>,
    at: usize,
    class: Option<InputClass>,
) -> (r: Option<(LexerState, Option<usize>)>)
    requires
        at <= input@.len(),
        (Scan { state, start: begin_view(start), tokens: tokens_view(old(tokens)@) }).reachable(
            at as int,
        ),
    ensures
        ({
            let before = Scan {
                state,
                start: begin_view(start),
                tokens: tokens_view(old(tokens)@),
            };
            match r {
                Some((next, begin)) => before.step(input@, at as int, class) == Some(
                    Scan {
                        state: next,
                        start: begin_view(begin),
                        tokens: tokens_view(final(tokens)@),
                    },
                ),
                None => before.step(input@, at as int, class) is None && final(tokens)@ == old(
                    tokens,
                )@,
            }
        }),
{
    let ghost before = Scan { state, start: begin_view(start), tokens: tokens_view(tokens@) };
    let (next, action) = LexerState::transition(state, class);
    match action {
        LexerAction::NoAction => Some((next, start)),
        LexerAction::Advance => Some((next, Some(at))),
        LexerAction::EmitAndAdvance | LexerAction::EmitAndReset => {
            let text = input.substring_char(start.unwrap(), at);
            let ghost closed = tokens@;
            tokens.push(Token::emit(text, state));
            proof {
                assert(tokens_view(tokens@) =~= tokens_view(closed).push(
                    TokenView::emitted(text@, state),
                ));
            }
            if action == LexerAction::EmitAndAdvance {
                Some((next, Some(at)))
            } else {
                Some((next, None))
            }
        },
        LexerAction::AppendAndAdvance | LexerAction::AppendAndReset => {
            let text = input.substring_char(start.unwrap(), at);
            let ghost closed = tokens@;
            match Token::append(text, state, tokens.last_mut()) {
                Some(token) => {
                    tokens.push(token);
                    proof {
                        assert(tokens_view(tokens@) =~= tokens_view(closed).push(
                            TokenView::emitted(text@, state),
                        ));
                    }
                },
                None => {
                    proof {
                        assert(tokens_view(tokens@) =~= tokens_view(closed).drop_last().push(
                            TokenView::extended(tokens_view(closed).last(), text@),
                        ));
                    }
                },
            }
            if action == LexerAction::AppendAndAdvance {
                Some((next, Some(at)))
            } else {
                Some((next, None))
            }
        },
        LexerAction::Stop => None,
    }
}

/// The tokens of a line of input. The machine reads the characters in
/// order and then the end of the input, and the tokens are those that it
/// has closed by then. It fails where the input ends inside a string
/// literal, and nowhere else.
pub fn lex(input: &str) -> (r: Result<Vec<Token>, LexError>)
    ensures
        match r {
            Ok(tokens) => lexed(input@) == Ok::<Seq<TokenView>, LexError>(tokens_view(tokens@)),
            Err(e) => lexed(input@) == Err::<Seq<TokenView>, LexError>(e),
        },
        r is Ok <==> quotes_balanced(input@),
        r matches Ok(tokens) ==> drops_only_blanks(input@, tokens_text(tokens_view(tokens@))),
{
    proof {
        lex_total_on_balanced_quotes(input@);
        lex_keeps_all_but_blanks(input@);
    }
    let n = input.unicode_len();
    let mut state = LexerState::Initial;
    let mut start: Option<usize> = None;
    let mut tokens: Vec<Token> = Vec::new();
    let mut at: usize = 0;
    proof {
        assert(tokens_view(tokens@) =~= Seq::empty());
    }
    for c in it: input.chars()
        invariant
            n == input@.len(),
            it.seq() == input@,
            at == it.index(),
            at <= n,
            scanned(input@, at as nat) == Ok::<Scan, LexError>(
                Scan { state, start: begin_view(start), tokens: tokens_view(tokens@) },
            ),
            (Scan { state, start: begin_view(start), tokens: tokens_view(tokens@) }).reachable(
                at as int,
            ),
    {
        let ghost before = Scan { state, start: begin_view(start), tokens: tokens_view(tokens@) };
        match perform(input, state, start, &mut tokens, at, Some(InputClass::classify(c))) {
            Some((next, begin)) => {
                state = next;
                start = begin;
            },
            None => {
                return Err(
                    LexError::UnterminatedString {
                        start: match start {
                            Some(j) => j,
                            None => at,
                        },
                        end: at,
                    },
                );
            },
        }
        at += 1;
    }
    match perform(input, state, start, &mut tokens, at, None) {
        Some(_) => Ok(tokens),
        None => Err(
            LexError::UnterminatedString {
                start: match start {
                    Some(j) => j,
                    None => at,
                },
                end: at,
            },
        ),
    }
}

} // verus!
