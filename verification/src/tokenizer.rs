//! The tokenizer: turns the characters of a template into positioned tokens.
use crate::reader::{reader_at_start, stepped, CharReader, CharType, ReaderView};
use crate::text::{decimal_text, number_text, string_of, trim, trim_bounds};
use vstd::prelude::*;
use vstd::string::StringExecFns;

verus! {

/// A lexical token with the line and the column where it starts.
#[derive(Clone, Debug, PartialEq, Eq)]
pub enum Token {
    /// A piece of text, trimmed.
    Text(usize, usize, String),
    /// A `#` in column 1.
    CommentMark(usize, usize),
    /// The mark `  #` that introduces a help text.
    HelpMark(usize, usize),
    /// A `=`.
    EqualSign(usize, usize),
}

/// The mathematical content of a [`Token`].
pub enum TokenView {
    Text(int, int, Seq<char>),
    CommentMark(int, int),
    HelpMark(int, int),
    EqualSign(int, int),
}

impl View for Token {
    type V = TokenView;

    open spec fn view(&self) -> TokenView {
        match *self {
            Token::Text(line, column, text) => TokenView::Text(line as int, column as int, text@),
            Token::CommentMark(line, column) => TokenView::CommentMark(line as int, column as int),
            Token::HelpMark(line, column) => TokenView::HelpMark(line as int, column as int),
            Token::EqualSign(line, column) => TokenView::EqualSign(line as int, column as int),
        }
    }
}

/// The contents of a sequence of tokens.
pub open spec fn token_views(tokens: Seq<Token>) -> Seq<TokenView> {
    Seq::new(tokens.len(), |i: int| tokens[i]@)
}

/// The text token for the characters gathered so far, which start at column
/// `start` of line `line`; no token where none was gathered. The text of the
/// token is trimmed, its column is that of the first character gathered.
pub open spec fn text_token(line: int, start: int, text: Seq<char>) -> Seq<TokenView> {
    if text.len() == 0 {
        Seq::empty()
    } else {
        seq![TokenView::Text(line, start, trim(text))]
    }
}

/// Whether `text` ends with two spaces.
pub open spec fn ends_with_spaces(text: Seq<char>) -> bool {
    text.len() >= 2 && text[text.len() - 1] == ' ' && text[text.len() - 2] == ' '
}

/// What bounds the steps that a reader has left.
pub open spec fn steps_left(r: ReaderView) -> int {
    2 * (r.source.len() - r.pos) + if r.in_line {
        1int
    } else {
        0int
    }
}

/// The column at which the gathered text starts once `c` was added to it.
pub open spec fn start_after(start: int, text: Seq<char>, column: int) -> int {
    if text.len() == 0 {
        column
    } else {
        start
    }
}

/// The tokens that are left when the reader stands at `r` and the characters
/// `text`, which start at column `start`, were gathered since the last token.
///
/// Characters are gathered until a mark or the end of the line closes the
/// text. A `=` closes it and gives an equal sign. A `#` in column 1 gives a
/// comment mark. A `#` after two gathered spaces closes the text before those
/// spaces and gives a help mark, at the column of the first of the two
/// spaces. Any other `#` is gathered.
pub open spec fn scanned(r: ReaderView, start: int, text: Seq<char>) -> Seq<TokenView>
    decreases steps_left(r),
{
    if !(0 <= r.pos <= r.source.len()) {
        Seq::empty()
    } else {
        let next = stepped(r).1;
        match stepped(r).0 {
            CharType::Eof => Seq::empty(),
            CharType::Eol => text_token(next.line, start, text) + scanned(next, 0, Seq::empty()),
            CharType::Char(c) => {
                if c == '=' {
                    text_token(next.line, start, text) + seq![
                        TokenView::EqualSign(next.line, next.column),
                    ] + scanned(next, 0, Seq::empty())
                } else if c == '#' && next.column == 1 {
                    text_token(next.line, start, text) + seq![
                        TokenView::CommentMark(next.line, next.column),
                    ] + scanned(next, 0, Seq::empty())
                } else if c == '#' && ends_with_spaces(text) {
                    text_token(next.line, start, text.take(text.len() - 2)) + seq![
                        TokenView::HelpMark(next.line, next.column - 2),
                    ] + scanned(next, 0, Seq::empty())
                } else {
                    scanned(next, start_after(start, text, next.column), text.push(c))
                }
            },
        }
    }
}

/// The tokens of a template.
pub open spec fn tokens_of(source: Seq<char>) -> Seq<TokenView> {
    scanned(reader_at_start(source), 0, Seq::empty())
}

/// What the next closing step gives, when the reader stands at `r` and the
/// characters `text`, which start at column `start`, were gathered since the
/// last token: the tokens that the step closes, and the reader after it.
///
/// Characters are gathered up to the first character that closes a token. An
/// end of line closes the gathered text, where there is any, and gives it
/// alone. A mark gives the gathered text, where there is any, and then the
/// mark: two tokens from one step. The end of the input gives no token.
pub open spec fn closing(r: ReaderView, start: int, text: Seq<char>) -> (Seq<TokenView>, ReaderView)
    decreases steps_left(r),
{
    if !(0 <= r.pos <= r.source.len()) {
        (Seq::empty(), r)
    } else {
        let next = stepped(r).1;
        match stepped(r).0 {
            CharType::Eof => (Seq::empty(), next),
            CharType::Eol => {
                if text.len() > 0 {
                    (text_token(next.line, start, text), next)
                } else {
                    closing(next, 0, Seq::empty())
                }
            },
            CharType::Char(c) => {
                if c == '=' {
                    (
                        text_token(next.line, start, text) + seq![
                            TokenView::EqualSign(next.line, next.column),
                        ],
                        next,
                    )
                } else if c == '#' && next.column == 1 {
                    (
                        text_token(next.line, start, text) + seq![
                            TokenView::CommentMark(next.line, next.column),
                        ],
                        next,
                    )
                } else if c == '#' && ends_with_spaces(text) {
                    (
                        text_token(next.line, start, text.take(text.len() - 2)) + seq![
                            TokenView::HelpMark(next.line, next.column - 2),
                        ],
                        next,
                    )
                } else {
                    closing(next, start_after(start, text, next.column), text.push(c))
                }
            },
        }
    }
}

/// The tokens that are left are those of the next closing step, then those
/// that are left after it.
pub proof fn lemma_scanned_by_steps(r: ReaderView, start: int, text: Seq<char>)
    ensures
        scanned(r, start, text) == closing(r, start, text).0 + scanned(
            closing(r, start, text).1,
            0,
            Seq::empty(),
        ),
    decreases steps_left(r),
{
    if 0 <= r.pos <= r.source.len() {
        let next = stepped(r).1;
        match stepped(r).0 {
            CharType::Eof => {
                assert(stepped(next).0 == CharType::Eof);
            },
            CharType::Eol => {
                if text.len() == 0 {
                    lemma_scanned_by_steps(next, 0, Seq::empty());
                    assert(text_token(next.line, start, text) + scanned(next, 0, Seq::empty())
                        == scanned(next, 0, Seq::empty()));
                }
            },
            CharType::Char(c) => {
                if c == '=' {
                } else if c == '#' && next.column == 1 {
                } else if c == '#' && ends_with_spaces(text) {
                } else {
                    lemma_scanned_by_steps(
                        next,
                        start_after(start, text, next.column),
                        text.push(c),
                    );
                }
            },
        }
    } else {
        assert(Seq::<TokenView>::empty() + Seq::<TokenView>::empty() == Seq::<TokenView>::empty());
    }
}

/// A `#` after two gathered spaces gives a help mark at the column of the
/// first of the two spaces: the column of the `#` less two, on the line of
/// the `#`. Before it comes the text that was gathered before the spaces,
/// where there is any.
pub proof fn lemma_help_mark_column(r: ReaderView, start: int, text: Seq<char>)
    requires
        0 <= r.pos < r.source.len(),
        r.source[r.pos] == '#',
        stepped(r).1.column != 1,
        ends_with_spaces(text),
    ensures
        closing(r, start, text).0 == text_token(
            stepped(r).1.line,
            start,
            text.take(text.len() - 2),
        ) + seq![TokenView::HelpMark(stepped(r).1.line, stepped(r).1.column - 2)],
        closing(r, start, text).1 == stepped(r).1,
{
}

/// The tokens that two slots hold, the first slot first.
pub open spec fn slots(first: Option<Token>, second: Option<Token>) -> Seq<TokenView> {
    (match first {
        Some(token) => seq![token@],
        None => Seq::empty(),
    }) + (match second {
        Some(token) => seq![token@],
        None => Seq::empty(),
    })
}

/// Hands out the tokens of a template one by one.
#[derive(Clone, Debug)]
pub struct Tokenizer {
    reader: CharReader,
    buffer: Option<Token>,
}

impl Token {
    /// The place of the token in the file `path`, for diagnostics:
    /// `path:line:column`.
    pub fn error_prefix(&self, path: &String) -> (r: String)
        ensures
            r@ == path@ + ":"@ + decimal_text(token_line(self@) as nat) + ":"@ + decimal_text(
                token_column(self@) as nat,
            ),
    {
        let mut r = path.clone();
        r.append(":");
        r.append(number_text(self.line()).as_str());
        r.append(":");
        r.append(number_text(self.column()).as_str());
        r
    }

    /// The line on which the token starts.
    pub fn line(&self) -> (r: usize)
        ensures
            r == token_line(self@),
    {
        match self {
            Token::Text(line, _, _) => *line,
            Token::CommentMark(line, _) => *line,
            Token::HelpMark(line, _) => *line,
            Token::EqualSign(line, _) => *line,
        }
    }

    /// The column at which the token starts.
    pub fn column(&self) -> (r: usize)
        ensures
            r == token_column(self@),
    {
        match self {
            Token::Text(_, column, _) => *column,
            Token::CommentMark(_, column) => *column,
            Token::HelpMark(_, column) => *column,
            Token::EqualSign(_, column) => *column,
        }
    }
}

/// The line on which a token starts.
pub open spec fn token_line(t: TokenView) -> int {
    match t {
        TokenView::Text(line, _, _) => line,
        TokenView::CommentMark(line, _) => line,
        TokenView::HelpMark(line, _) => line,
        TokenView::EqualSign(line, _) => line,
    }
}

/// The column at which a token starts.
pub open spec fn token_column(t: TokenView) -> int {
    match t {
        TokenView::Text(_, column, _) => column,
        TokenView::CommentMark(_, column) => column,
        TokenView::HelpMark(_, column) => column,
        TokenView::EqualSign(_, column) => column,
    }
}

impl Tokenizer {
    /// Whether the tokenizer is in a state that reading leads to.
    pub closed spec fn wf(&self) -> bool {
        self.reader.wf()
    }

    /// Where the reader of the tokenizer stands.
    pub closed spec fn reader(&self) -> ReaderView {
        self.reader@
    }

    /// The token that was read ahead: the mark that the last closing step
    /// gave after a text, until it is handed out.
    pub closed spec fn ahead(&self) -> Option<TokenView> {
        match self.buffer {
            Some(token) => Some(token@),
            None => None,
        }
    }

    /// The tokens that are left, the next one first.
    pub closed spec fn remaining(&self) -> Seq<TokenView> {
        (match self.buffer {
            Some(token) => seq![token@],
            None => Seq::empty(),
        }) + scanned(self.reader@, 0, Seq::empty())
    }

    /// The tokens that are left are the token that was read ahead, if any,
    /// then those that the reader has left.
    pub proof fn lemma_remaining(&self)
        ensures
            self.remaining() == (match self.ahead() {
                Some(token) => seq![token],
                None => Seq::empty(),
            }) + scanned(self.reader(), 0, Seq::empty()),
    {
    }

    /// A tokenizer at the start of `source`.
    pub fn new(source: &str) -> (t: Self)
        ensures
            t.wf(),
            t.ahead() is None,
            t.reader() == reader_at_start(source@),
            t.remaining() == tokens_of(source@),
    {
        let t = Tokenizer { reader: CharReader::new(source), buffer: None };
        assert(t.remaining() =~= tokens_of(source@));
        t
    }

    /// The text token for the gathered characters `text`, which the reader
    /// has just passed. `eol` tells that the end of the line closed the text,
    /// `prepends_help` that a help mark did: the column of the first
    /// character is computed back from the column of the reader.
    fn text(&self, text: &Vec<char>, eol: bool, prepends_help: bool) -> (r: Token)
        requires
            text.len() > 0,
            !(eol && prepends_help),
            self.reader@.column + (if eol {
                1int
            } else {
                0int
            }) - (if prepends_help {
                2int
            } else {
                0int
            }) >= text.len(),
        ensures
            r@ == TokenView::Text(
                self.reader@.line,
                self.reader@.column + (if eol {
                    1int
                } else {
                    0int
                }) - (if prepends_help {
                    2int
                } else {
                    0int
                }) - text.len(),
                trim(text@),
            ),
    {
        let (a, b) = trim_bounds(text, 0, text.len());
        assert(text@.subrange(0, text.len() as int) == text@);
        let column = self.reader.column();
        let start = if eol {
            column - (text.len() - 1)
        } else if prepends_help {
            column - (text.len() + 2)
        } else {
            column - text.len()
        };
        Token::Text(self.reader.line(), start, string_of(text, a, b))
    }

    /// The tokens of the next closing step: the next token in the first slot
    /// and, where the same character closed a text and gave a mark, the mark
    /// in the second. Both slots are empty at the end of the input.
    fn next_tokens(&mut self) -> (r: (Option<Token>, Option<Token>))
        requires
            old(self).wf(),
            old(self).buffer is None,
        ensures
            final(self).wf(),
            final(self).buffer is None,
            r.0 is None ==> r.1 is None,
            slots(r.0, r.1) == closing(old(self).reader(), 0, Seq::empty()).0,
            final(self).reader() == closing(old(self).reader(), 0, Seq::empty()).1,
            old(self).remaining() == slots(r.0, r.1) + final(self).remaining(),
            r.0 is None ==> final(self).remaining().len() == 0,
    {
        let mut text: Vec<char> = Vec::new();
        let ghost mut start: int = 0;
        let ghost first = self.reader@;
        let ghost step = closing(first, 0, Seq::empty());
        proof {
            lemma_scanned_by_steps(first, 0, Seq::empty());
            assert(self.remaining() == scanned(first, 0, Seq::empty()));
        }
        loop
            invariant
                self.reader.wf(),
                self.buffer is None,
                first == old(self).reader(),
                step == closing(first, 0, Seq::empty()),
                closing(self.reader@, start, text@) == step,
                old(self).remaining() == step.0 + scanned(step.1, 0, Seq::empty()),
                text.len() > 0 ==> start >= 1 && start + text.len() == self.reader@.column + 1,
                text.len() > 0 ==> self.reader@.in_line,
            decreases steps_left(self.reader@),
        {
            proof {
                self.reader.lemma_positioned();
            }
            let next = self.reader.next();
            let ghost after = self.reader@;
            match next {
                CharType::Eof => {
                    proof {
                        assert(step.0 =~= slots(None, None));
                        assert(stepped(after) == (CharType::Eof, after));
                        assert(self.remaining() == scanned(after, 0, Seq::empty()));
                    }
                    return (None, None);
                },
                CharType::Eol => {
                    if text.len() > 0 {
                        let token = self.text(&text, true, false);
                        proof {
                            assert(step.0 =~= slots(Some(token), None));
                            assert(self.remaining() == scanned(after, 0, Seq::empty()));
                        }
                        return (Some(token), None);
                    }
                    proof {
                        start = 0;
                        assert(text@ =~= Seq::<char>::empty());
                    }
                },
                CharType::Char(c) => {
                    let mut mark: Option<Token> = None;
                    let mut prepends_help = false;
                    let ghost gathered = text@;
                    if c == '=' {
                        mark = Some(Token::EqualSign(self.reader.line(), self.reader.column()));
                    } else if c == '#' {
                        if self.reader.column() == 1 {
                            mark = Some(
                                Token::CommentMark(self.reader.line(), self.reader.column()),
                            );
                        } else if text.len() >= 2 && text[text.len() - 1] == ' ' && text[text.len()
                            - 2] == ' ' {
                            text.pop();
                            text.pop();
                            assert(text@ == gathered.take(gathered.len() - 2));
                            prepends_help = true;
                            mark = Some(
                                Token::HelpMark(self.reader.line(), self.reader.column() - 2),
                            );
                        }
                    }
                    match mark {
                        Some(mark) => {
                            assert(self.remaining() == scanned(after, 0, Seq::empty()));
                            if text.len() == 0 {
                                assert(step.0 =~= slots(Some(mark), None));
                                return (Some(mark), None);
                            }
                            let token = self.text(&text, false, prepends_help);
                            assert(step.0 =~= slots(Some(token), Some(mark)));
                            return (Some(token), Some(mark));
                        },
                        None => {
                            proof {
                                assert(text@ == gathered);
                                assert(step == closing(
                                    after,
                                    start_after(start, gathered, after.column),
                                    gathered.push(c),
                                ));
                                start = start_after(start, gathered, after.column);
                            }
                            text.push(c);
                        },
                    }
                },
            }
        }
    }

    /// The next token of the template; `None` once there is none left.
    ///
    /// A token that was read ahead is handed out first, and the reader stays
    /// where it is. Else the reader makes its next closing step: the first
    /// token of the step is handed out, and the mark that the same character
    /// gave after a text is kept ahead for the next call.
    pub fn next(&mut self) -> (r: Option<Token>)
        requires
            old(self).wf(),
        ensures
            final(self).wf(),
            match r {
                Some(token) => old(self).remaining().len() > 0 && token@ == old(
                    self,
                ).remaining()[0] && final(self).remaining() == old(self).remaining().drop_first(),
                None => old(self).remaining().len() == 0 && final(self).remaining().len() == 0,
            },
            match old(self).ahead() {
                Some(ahead) => r matches Some(token) && token@ == ahead && final(self).ahead()
                    is None && final(self).reader() == old(self).reader(),
                None => {
                    let step = closing(old(self).reader(), 0, Seq::empty());
                    &&& final(self).reader() == step.1
                    &&& step.0.len() <= 2
                    &&& step.0.len() == 0 ==> r is None
                    &&& step.0.len() >= 1 ==> (r matches Some(token) && token@ == step.0[0])
                    &&& final(self).ahead() == if step.0.len() == 2 {
                        Some(step.0[1])
                    } else {
                        None
                    }
                },
            },
    {
        let ghost before = self.remaining();
        match self.buffer.take() {
            Some(token) => {
                assert(self.remaining() =~= before.drop_first());
                return Some(token);
            },
            None => {},
        }
        assert(self.remaining() == before);
        let (first, second) = self.next_tokens();
        match first {
            Some(first) => {
                self.buffer = second;
                assert(self.remaining() =~= before.drop_first());
                Some(first)
            },
            None => None,
        }
    }
}

/// The tokens of a template, in order.
pub fn tokenize(source: &str) -> (r: Vec<Token>)
    ensures
        token_views(r@) == tokens_of(source@),
{
    let mut tokenizer = Tokenizer::new(source);
    let mut tokens: Vec<Token> = Vec::new();
    loop
        invariant
            tokenizer.wf(),
            token_views(tokens@) + tokenizer.remaining() == tokens_of(source@),
        ensures
            token_views(tokens@) == tokens_of(source@),
        decreases tokenizer.remaining().len(),
    {
        let ghost before = token_views(tokens@);
        let ghost left = tokenizer.remaining();
        match tokenizer.next() {
            Some(token) => {
                tokens.push(token);
                assert(token_views(tokens@) =~= before.push(token@));
                assert(before.push(token@) + left.drop_first() =~= before + left);
            },
            None => {
                assert(before + left =~= before);
                break ;
            },
        }
    }
    tokens
}

} // verus!
