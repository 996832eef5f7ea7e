//! The block parser: a line-driven state machine that assembles titles,
//! descriptions and variable lines into blocks, and resolves each block when
//! a blank line or the end of the input closes it.
use crate::classifier::{classified, classify, Classification, Classified};
use crate::error::{Error, ErrorView, Expecting};
use crate::model::{
    all_resolved, block_text, first_unresolved, fits_request, variable_key,
    AutoGeneratedVariable, AutoGeneratedVariableView, Block, BlockView, Comment, SimpleVariable,
    SimpleVariableView, VariableType, VariableView, VariableWithRandomValue,
    VariableWithRandomValueView,
};
use crate::resolver::{lemma_resolution_resolved, resolution};
use crate::terminal::{Terminal, TerminalView};
use crate::text::{
    is_blank, lemma_trim, lines, slice_of, split_lines, string_of, string_views, text_of,
    to_chars, trim, trim_bounds,
};
use vstd::prelude::*;
use vstd::string::StringExecFns;

verus! {

/// The variable that `line` declares at line `pos`, where `draw` is the random
/// value drawn for it; the error where it declares none.
pub open spec fn variable_of(line: Seq<char>, pos: int, alphabet: Seq<char>, draw: Seq<char>) -> Result<
    VariableView,
    ErrorView,
> {
    match classified(line) {
        Classified::Malformed => Err(ErrorView::MalformedVariableLine { line: pos, text: line }),
        Classified::Simple { name, default, help } => Ok(
            VariableView::Input(SimpleVariableView { name, default, help, input: None }),
        ),
        Classified::AutoGenerated { name, pattern } => Ok(
            VariableView::AutoGenerated(
                AutoGeneratedVariableView { name, pattern, context: Map::empty() },
            ),
        ),
        Classified::Random { name, length } => {
            if alphabet.len() == 0 && length != Some(0usize) {
                Err(ErrorView::EmptyAlphabet { line: pos })
            } else {
                Ok(VariableView::Random(VariableWithRandomValueView { name, value: draw }))
            }
        },
    }
}

/// Whether `draw` can be the random value drawn for `line`: where the line
/// asks for a random value that the alphabet can give, `draw` has the length
/// asked for and is made of characters of the alphabet.
pub open spec fn draw_fits(line: Seq<char>, alphabet: Seq<char>, draw: Seq<char>) -> bool {
    classified(line) matches Classified::Random { name, length } ==> (alphabet.len() > 0 || length
        == Some(0usize)) ==> fits_request(draw, alphabet, length)
}

/// The content of a result that holds a variable.
pub open spec fn variable_result(r: Result<VariableType, Error>) -> Result<VariableView, ErrorView> {
    match r {
        Ok(v) => Ok(v@),
        Err(e) => Err(e@),
    }
}

/// The content of a result that holds a flag.
pub open spec fn flag_result(r: Result<bool, Error>) -> Result<bool, ErrorView> {
    match r {
        Ok(b) => Ok(b),
        Err(e) => Err(e@),
    }
}

/// The content of an optional block.
pub open spec fn block_option_view(b: Option<Block>) -> Option<BlockView> {
    match b {
        Some(b) => Some(b@),
        None => None,
    }
}

/// The contents of a sequence of blocks.
pub open spec fn block_views(blocks: Seq<Block>) -> Seq<BlockView> {
    Seq::new(blocks.len(), |i: int| blocks[i]@)
}

/// The mathematical content of a [`Parser`].
pub struct ParserView {
    /// The name of the template, for diagnostics.
    pub path: Seq<char>,
    /// The alphabet of random values.
    pub alphabet: Seq<char>,
    /// Whether defaults are taken without asking the operator.
    pub use_default: bool,
    /// What the next non-blank line is expected to be.
    pub expecting: Expecting,
    /// The block that is being read.
    pub buffer: Option<BlockView>,
    /// The blocks that were read and resolved.
    pub blocks: Seq<BlockView>,
}

/// A block with the given title and nothing else.
pub open spec fn titled(title: Seq<char>) -> BlockView {
    BlockView { title, description: None, variables: Seq::empty() }
}

/// The open block with one more variable; nothing where no block is open.
pub open spec fn with_variable(buffer: Option<BlockView>, v: VariableView) -> Option<BlockView> {
    match buffer {
        Some(b) => Some(BlockView { variables: b.variables.push(v), ..b }),
        None => None,
    }
}

/// The open block with the given description; nothing where no block is open.
pub open spec fn with_description(buffer: Option<BlockView>, description: Seq<char>) -> Option<
    BlockView,
> {
    match buffer {
        Some(b) => Some(BlockView { description: Some(description), ..b }),
        None => None,
    }
}

/// Whether a line in this state of the parser is handed to the classifier.
pub open spec fn is_variable_line(expecting: Expecting, cleaned: Seq<char>) -> bool {
    cleaned.len() > 0 && match expecting {
        Expecting::Title => false,
        Expecting::DescriptionOrVariables => cleaned[0] != '#',
        Expecting::Variables => true,
    }
}

/// The parser after a variable line, with the flag or the error that taking
/// the line returns.
pub open spec fn variable_accepted(p: ParserView, pos: int, cleaned: Seq<char>, draw: Seq<char>) -> (
    ParserView,
    Result<bool, ErrorView>,
) {
    match variable_of(cleaned, pos, p.alphabet, draw) {
        Ok(v) => (
            ParserView {
                buffer: with_variable(p.buffer, v),
                expecting: Expecting::Variables,
                ..p
            },
            Ok(false),
        ),
        Err(e) => (p, Err(e)),
    }
}

/// The parser after line `pos`, with what taking the line returns: `Ok(true)`
/// for a blank line, which closes the open block; `Ok(false)` for a line that
/// was taken into the open block; the error for a line that does not fit.
///
/// A blank line makes the parser expect a title. Where a title is expected,
/// the line must start with `#`, and opens a block with the rest of the line,
/// trimmed, as its title. After the title, a line that starts with `#` is the
/// description. Any other line is a variable line.
pub open spec fn accepted(p: ParserView, pos: int, line: Seq<char>, draw: Seq<char>) -> (
    ParserView,
    Result<bool, ErrorView>,
) {
    let cleaned = trim(line);
    if cleaned.len() == 0 {
        (ParserView { expecting: Expecting::Title, ..p }, Ok(true))
    } else {
        match p.expecting {
            Expecting::Title => {
                if cleaned[0] == '#' {
                    (
                        ParserView {
                            buffer: Some(titled(trim(cleaned.skip(1)))),
                            expecting: Expecting::DescriptionOrVariables,
                            ..p
                        },
                        Ok(false),
                    )
                } else {
                    (p, Err(ErrorView::MalformedTitle { line: pos, text: cleaned }))
                }
            },
            Expecting::DescriptionOrVariables => {
                if cleaned[0] == '#' {
                    (
                        ParserView {
                            buffer: with_description(p.buffer, trim(cleaned.skip(1))),
                            expecting: Expecting::Variables,
                            ..p
                        },
                        Ok(false),
                    )
                } else {
                    variable_accepted(p, pos, cleaned, draw)
                }
            },
            Expecting::Variables => variable_accepted(p, pos, cleaned, draw),
        }
    }
}

/// The parser and the terminal after the open block was resolved and added to
/// the blocks, with the error where the block could not be resolved: the
/// block then stays open, with the inputs that were given. Nothing changes
/// where no block is open.
pub open spec fn flushed(p: ParserView, t: TerminalView) -> (
    ParserView,
    TerminalView,
    Option<ErrorView>,
) {
    match p.buffer {
        None => (p, t, None),
        Some(b) => {
            let resolved = resolution(b.variables, t, p.use_default);
            let block = BlockView { variables: resolved.variables, ..b };
            match resolved.failed {
                Some(name) => (
                    ParserView { buffer: Some(block), ..p },
                    resolved.terminal,
                    Some(ErrorView::UnresolvedRequiredVariable { name }),
                ),
                None => (
                    ParserView { buffer: None, blocks: p.blocks.push(block), ..p },
                    resolved.terminal,
                    None,
                ),
            }
        },
    }
}

/// The error at the end of the input after `count` lines: the input is
/// truncated where a block is open that has no variable. Where no block is
/// open, nothing is left to close.
pub open spec fn truncated(p: ParserView, count: int) -> Option<ErrorView> {
    if p.buffer is Some && p.buffer.unwrap().variables.len() == 0 {
        Some(ErrorView::TruncatedBlock { line: count, expecting: p.expecting })
    } else {
        None
    }
}

/// Reads templates block by block.
#[derive(Clone, Debug)]
pub struct Parser {
    path: String,
    random_chars: String,
    use_default: bool,
    state: Expecting,
    buffer: Option<Block>,
    pub blocks: Vec<Block>,
}

impl View for Parser {
    type V = ParserView;

    closed spec fn view(&self) -> ParserView {
        ParserView {
            path: self.path@,
            alphabet: self.random_chars@,
            use_default: self.use_default,
            expecting: self.state,
            buffer: block_option_view(self.buffer),
            blocks: block_views(self.blocks@),
        }
    }
}

/// The comment that a line which starts with `#` holds: what follows the
/// `#`, trimmed.
fn comment_of(cleaned: &Vec<char>) -> (c: Comment)
    requires
        cleaned.len() > 0,
    ensures
        c@ == trim(cleaned@.skip(1)),
{
    let (a, b) = trim_bounds(cleaned, 1, cleaned.len());
    assert(cleaned@.subrange(1, cleaned.len() as int) == cleaned@.skip(1));
    let text = string_of(cleaned, a, b);
    Comment::new(text.as_str())
}

impl Parser {
    /// A parser that expects a title, with no block open and none read.
    pub fn new(path: &str, random_chars: &str, use_default: &bool) -> (r: Result<Self, Error>)
        ensures
            r matches Ok(p) && p@ == (ParserView {
                path: path@,
                alphabet: random_chars@,
                use_default: *use_default,
                expecting: Expecting::Title,
                buffer: None,
                blocks: Seq::empty(),
            }),
    {
        let p = Parser {
            path: path.to_owned(),
            random_chars: random_chars.to_owned(),
            use_default: *use_default,
            state: Expecting::Title,
            buffer: None,
            blocks: Vec::new(),
        };
        assert(block_views(p.blocks@) =~= Seq::empty());
        Ok(p)
    }

    /// The blocks that were read and resolved, in order.
    pub fn blocks(&self) -> (r: &Vec<Block>)
        ensures
            block_views(r@) == self@.blocks,
    {
        &self.blocks
    }

    /// The name of the template.
    pub fn path(&self) -> (r: &String)
        ensures
            r@ == self@.path,
    {
        &self.path
    }

    /// Whether defaults are taken without asking the operator.
    pub fn use_default(&self) -> (r: bool)
        ensures
            r == self@.use_default,
    {
        self.use_default
    }

    /// A variable named `name` whose value is drawn from the alphabet of the
    /// parser, of the given length or of a random length. Fails where the
    /// alphabet is empty and the value needs a character.
    pub fn parse_random_variable(&self, pos: usize, name: &str, length: Option<usize>) -> (r: Result<
        VariableWithRandomValue,
        Error,
    >)
        ensures
            match r {
                Ok(v) => (self@.alphabet.len() > 0 || length == Some(0usize)) && v@.name == name@
                    && fits_request(v@.value, self@.alphabet, length),
                Err(e) => self@.alphabet.len() == 0 && length != Some(0usize) && e@
                    == (ErrorView::EmptyAlphabet { line: pos as int }),
            },
    {
        match VariableWithRandomValue::with_alphabet(name, self.random_chars.as_str(), length) {
            Some(v) => Ok(v),
            None => Err(Error::EmptyAlphabet { line: pos }),
        }
    }

    /// The variable that `line`, which stands at line `pos`, declares. A
    /// request for a random value is answered by a fresh draw.
    pub fn parse_variable(&self, pos: usize, line: &str) -> (r: Result<VariableType, Error>)
        ensures
            exists|draw: Seq<char>|
                draw_fits(line@, self@.alphabet, draw) && variable_result(r) == #[trigger] variable_of(
                    line@,
                    pos as int,
                    self@.alphabet,
                    draw,
                ),
    {
        match classify(line) {
            Classification::Malformed => {
                let r = Err(Error::MalformedVariableLine { line: pos, text: line.to_owned() });
                assert(variable_result(r) == variable_of(
                    line@,
                    pos as int,
                    self@.alphabet,
                    Seq::empty(),
                ));
                r
            },
            Classification::Simple { name, default, help } => {
                let v = SimpleVariable::new(
                    name.as_str(),
                    match &default {
                        Some(d) => Some(d.as_str()),
                        None => None,
                    },
                    match &help {
                        Some(h) => Some(h.as_str()),
                        None => None,
                    },
                );
                let r = Ok(VariableType::Input(v));
                assert(variable_result(r) == variable_of(
                    line@,
                    pos as int,
                    self@.alphabet,
                    Seq::empty(),
                ));
                r
            },
            Classification::AutoGenerated { name, pattern } => {
                let v = AutoGeneratedVariable::new(name.as_str(), pattern.as_str());
                let r = Ok(VariableType::AutoGenerated(v));
                assert(variable_result(r) == variable_of(
                    line@,
                    pos as int,
                    self@.alphabet,
                    Seq::empty(),
                ));
                r
            },
            Classification::Random { name, length } => {
                match self.parse_random_variable(pos, name.as_str(), length) {
                    Ok(v) => {
                        let r = Ok(VariableType::Random(v));
                        assert(variable_result(r) == variable_of(
                            line@,
                            pos as int,
                            self@.alphabet,
                            v@.value,
                        ));
                        r
                    },
                    Err(e) => {
                        let r = Err(e);
                        assert(variable_result(r) == variable_of(
                            line@,
                            pos as int,
                            self@.alphabet,
                            Seq::empty(),
                        ));
                        r
                    },
                }
            },
        }
    }
}

/// A parse in progress: the parser, the terminal, the error that stopped
/// the parse if one did, and whether each random value used so far fits what
/// its line asked for.
pub struct Session {
    pub parser: ParserView,
    pub terminal: TerminalView,
    pub error: Option<ErrorView>,
    pub draws_fit: bool,
}

/// The session after line `pos` was taken, with `draw` as the random value
/// drawn for it. A blank line has the open block resolved and added to the
/// blocks. The first error stops the session: later lines change nothing.
pub open spec fn fed(s: Session, pos: int, line: Seq<char>, draw: Seq<char>) -> Session {
    if s.error is Some {
        s
    } else {
        let draws_fit = s.draws_fit && (is_variable_line(s.parser.expecting, trim(line))
            ==> draw_fits(trim(line), s.parser.alphabet, draw));
        let (parser, taken) = accepted(s.parser, pos, line, draw);
        match taken {
            Err(e) => Session { parser, terminal: s.terminal, error: Some(e), draws_fit },
            Ok(false) => Session { parser, terminal: s.terminal, error: None, draws_fit },
            Ok(true) => {
                let (parser, terminal, error) = flushed(parser, s.terminal);
                Session { parser, terminal, error, draws_fit }
            },
        }
    }
}

/// The session after all of `lines` were taken, where `draws[i]` is the
/// random value drawn for line `i + 1`.
pub open spec fn ran(p: ParserView, t: TerminalView, lines: Seq<Seq<char>>, draws: Seq<Seq<char>>) -> Session
    decreases lines.len(),
{
    if lines.len() == 0 {
        Session { parser: p, terminal: t, error: None, draws_fit: true }
    } else {
        fed(
            ran(p, t, lines.drop_last(), draws),
            lines.len() as int,
            lines.last(),
            draws[lines.len() - 1],
        )
    }
}

/// The session at the end of the input, after `count` lines: unless an error
/// stopped it before, the input must not be truncated, and the open block is
/// resolved and added to the blocks.
pub open spec fn closed(s: Session, count: int) -> Session {
    if s.error is Some {
        s
    } else {
        match truncated(s.parser, count) {
            Some(e) => Session { error: Some(e), ..s },
            None => {
                let (parser, terminal, error) = flushed(s.parser, s.terminal);
                Session { parser, terminal, error, draws_fit: s.draws_fit }
            },
        }
    }
}

/// The outcome of parsing the template `source` with the operator on `t`,
/// where `draws[i]` is the random value drawn for line `i + 1`.
pub open spec fn parsed(p: ParserView, t: TerminalView, source: Seq<char>, draws: Seq<Seq<char>>) -> Session {
    closed(ran(p, t, split_lines(source), draws), split_lines(source).len() as int)
}

/// A session reads the random values of its own lines only.
pub proof fn lemma_ran_reads_own_draws(
    p: ParserView,
    t: TerminalView,
    lines: Seq<Seq<char>>,
    draws: Seq<Seq<char>>,
    others: Seq<Seq<char>>,
)
    requires
        forall|i: int| 0 <= i < lines.len() ==> draws[i] == others[i],
    ensures
        ran(p, t, lines, draws) == ran(p, t, lines, others),
    decreases lines.len(),
{
    if lines.len() > 0 {
        lemma_ran_reads_own_draws(p, t, lines.drop_last(), draws, others);
    }
}

impl Parser {
    /// Takes line `pos` of the template. Returns `Ok(true)` for a blank line:
    /// the open block, if there is one, is complete and is to be flushed
    /// before the next line is taken. A request for a random value is
    /// answered by a fresh draw.
    pub fn accept(&mut self, pos: usize, line: &str) -> (r: Result<bool, Error>)
        ensures
            exists|draw: Seq<char>|
                (is_variable_line(old(self)@.expecting, trim(line@)) ==> draw_fits(
                    trim(line@),
                    old(self)@.alphabet,
                    draw,
                )) && (final(self)@, flag_result(r)) == #[trigger] accepted(
                    old(self)@,
                    pos as int,
                    line@,
                    draw,
                ),
    {
        let chars = to_chars(line);
        let (a, b) = trim_bounds(&chars, 0, chars.len());
        assert(chars@.subrange(0, chars.len() as int) == chars@);
        let cleaned = slice_of(&chars, a, b);
        let ghost before = self@;
        let ghost none = Seq::<char>::empty();
        if cleaned.len() == 0 {
            self.state = Expecting::Title;
            assert((self@, flag_result(Ok(true))) == accepted(before, pos as int, line@, none));
            return Ok(true);
        }
        let comment = cleaned[0] == '#';
        match self.state {
            Expecting::Title => {
                if comment {
                    self.buffer = Some(Block::new(comment_of(&cleaned), None));
                    self.state = Expecting::DescriptionOrVariables;
                    assert(self.buffer.unwrap()@.variables =~= Seq::empty());
                    assert((self@, flag_result(Ok(false))) == accepted(
                        before,
                        pos as int,
                        line@,
                        none,
                    ));
                    Ok(false)
                } else {
                    let r = Err(Error::MalformedTitle { line: pos, text: text_of(&cleaned) });
                    assert((self@, flag_result(r)) == accepted(before, pos as int, line@, none));
                    r
                }
            },
            Expecting::DescriptionOrVariables => {
                if comment {
                    let description = comment_of(&cleaned);
                    match &mut self.buffer {
                        Some(block) => {
                            block.description = Some(description);
                        },
                        None => {},
                    }
                    self.state = Expecting::Variables;
                    assert((self@, flag_result(Ok(false))) == accepted(
                        before,
                        pos as int,
                        line@,
                        none,
                    ));
                    Ok(false)
                } else {
                    self.accept_variable(pos, &cleaned, Ghost(line@))
                }
            },
            Expecting::Variables => self.accept_variable(pos, &cleaned, Ghost(line@)),
        }
    }

    /// Takes a variable line, whose trimmed form is `cleaned`, into the open block.
    fn accept_variable(&mut self, pos: usize, cleaned: &Vec<char>, Ghost(line): Ghost<Seq<char>>) -> (r:
        Result<bool, Error>)
        requires
            cleaned@ == trim(line),
            is_variable_line(old(self)@.expecting, cleaned@),
        ensures
            exists|draw: Seq<char>|
                draw_fits(cleaned@, old(self)@.alphabet, draw) && (final(self)@, flag_result(r))
                    == #[trigger] accepted(old(self)@, pos as int, line, draw),
    {
        let text = text_of(cleaned);
        let ghost before = self@;
        let declared = self.parse_variable(pos, text.as_str());
        let ghost draw = choose|draw: Seq<char>|
            draw_fits(cleaned@, before.alphabet, draw) && variable_result(declared)
                == #[trigger] variable_of(cleaned@, pos as int, before.alphabet, draw);
        match declared {
            Ok(variable) => {
                match &mut self.buffer {
                    Some(block) => {
                        let ghost variables = block@.variables;
                        block.variables.push(variable);
                        assert(block@.variables =~= variables.push(variable@));
                    },
                    None => {},
                }
                self.state = Expecting::Variables;
                assert((self@, flag_result(Ok(false))) == accepted(before, pos as int, line, draw));
                Ok(false)
            },
            Err(e) => {
                let r = Err(e);
                assert((self@, flag_result(r)) == accepted(before, pos as int, line, draw));
                r
            },
        }
    }

    /// Takes the open block out of the parser, for the caller to resolve.
    pub fn take_block(&mut self) -> (r: Option<Block>)
        ensures
            block_option_view(r) == old(self)@.buffer,
            final(self)@ == (ParserView { buffer: None, ..old(self)@ }),
    {
        self.buffer.take()
    }

    /// Adds a resolved block after the blocks that were read.
    pub fn push_block(&mut self, block: Block)
        ensures
            final(self)@ == (ParserView {
                blocks: old(self)@.blocks.push(block@),
                ..old(self)@
            }),
    {
        self.blocks.push(block);
        assert(block_views(self.blocks@) =~= block_views(old(self).blocks@).push(block@));
    }

    /// Resolves the open block on `terminal` and adds it to the blocks. Where
    /// it cannot be resolved, the block stays open and the error is returned.
    pub fn flush(&mut self, terminal: &mut Terminal) -> (r: Result<(), Error>)
        ensures
            final(self)@ == flushed(old(self)@, old(terminal)@).0,
            final(terminal)@ == flushed(old(self)@, old(terminal)@).1,
            match r {
                Ok(()) => flushed(old(self)@, old(terminal)@).2 is None,
                Err(e) => flushed(old(self)@, old(terminal)@).2 == Some(e@),
            },
    {
        match self.buffer.take() {
            None => Ok(()),
            Some(mut block) => {
                match block.resolve(terminal, self.use_default) {
                    Ok(()) => {
                        self.blocks.push(block);
                        assert(block_views(self.blocks@) =~= block_views(old(self).blocks@).push(
                            block@,
                        ));
                        Ok(())
                    },
                    Err(e) => {
                        self.buffer = Some(block);
                        Err(e)
                    },
                }
            },
        }
    }

    /// Checks the end of the input after `count` lines: the input is
    /// truncated where a block is open that has no variable.
    pub fn end_of_input(&self, count: usize) -> (r: Result<(), Error>)
        ensures
            match r {
                Ok(()) => truncated(self@, count as int) is None,
                Err(e) => truncated(self@, count as int) == Some(e@),
            },
    {
        let empty = match &self.buffer {
            Some(block) => block.variables.len() == 0,
            None => false,
        };
        if empty {
            Err(Error::TruncatedBlock { line: count, expecting: self.state })
        } else {
            Ok(())
        }
    }

    /// Parses the template `source` with the operator on `terminal`: takes
    /// its lines in order, resolves each block when a blank line or the end
    /// of the input closes it, and stops at the first error.
    pub fn parse(&mut self, source: &str, terminal: &mut Terminal) -> (r: Result<(), Error>)
        ensures
            exists|draws: Seq<Seq<char>>|
                {
                    let outcome = #[trigger] parsed(old(self)@, old(terminal)@, source@, draws);
                    &&& outcome.draws_fit
                    &&& final(self)@ == outcome.parser
                    &&& final(terminal)@ == outcome.terminal
                    &&& match r {
                        Ok(()) => outcome.error is None,
                        Err(e) => outcome.error == Some(e@),
                    }
                },
    {
        let template = lines(source);
        let n = template.len();
        let ghost all = split_lines(source@);
        let ghost start = self@;
        let ghost operator = terminal@;
        let ghost mut draws: Seq<Seq<char>> = Seq::empty();
        let mut i: usize = 0;
        assert(all.take(0) == Seq::<Seq<char>>::empty());
        while i < n
            invariant
                i <= n == template.len(),
                all == string_views(template@),
                all == split_lines(source@),
                start == old(self)@,
                operator == old(terminal)@,
                draws.len() == i,
                ran(start, operator, all.take(i as int), draws) == (Session {
                    parser: self@,
                    terminal: terminal@,
                    error: None,
                    draws_fit: true,
                }),
            decreases n - i,
        {
            let line = &template[i];
            let ghost session = ran(start, operator, all.take(i as int), draws);
            let taken = self.accept(i + 1, line.as_str());
            let ghost draw = choose|draw: Seq<char>|
                (is_variable_line(session.parser.expecting, trim(line@)) ==> draw_fits(
                    trim(line@),
                    session.parser.alphabet,
                    draw,
                )) && (self@, flag_result(taken)) == #[trigger] accepted(
                    session.parser,
                    i + 1,
                    line@,
                    draw,
                );
            let ghost longer = draws.push(draw);
            proof {
                let upto = all.take(i + 1);
                assert(upto.drop_last() == all.take(i as int));
                assert(upto.last() == line@);
                lemma_ran_reads_own_draws(start, operator, all.take(i as int), draws, longer);
                assert(ran(start, operator, upto, longer) == fed(session, i + 1, line@, draw));
            }
            let flushing = match taken {
                Ok(blank) => blank,
                Err(e) => {
                    proof {
                        lemma_stopped(start, operator, all, longer, i + 1);
                        let outcome = parsed(start, operator, source@, longer);
                        assert(outcome == fed(session, i + 1, line@, draw));
                        assert(outcome.error == Some(e@));
                    }
                    return Err(e);
                },
            };
            if flushing {
                match self.flush(terminal) {
                    Ok(()) => {},
                    Err(e) => {
                        proof {
                            lemma_stopped(start, operator, all, longer, i + 1);
                            let outcome = parsed(start, operator, source@, longer);
                            assert(outcome == fed(session, i + 1, line@, draw));
                            assert(outcome.error == Some(e@));
                        }
                        return Err(e);
                    },
                }
            }
            proof {
                draws = longer;
            }
            i += 1;
        }
        assert(all.take(n as int) == all);
        match self.end_of_input(n) {
            Ok(()) => {},
            Err(e) => {
                assert(parsed(start, operator, source@, draws).error == Some(e@));
                return Err(e);
            },
        }
        let r = self.flush(terminal);
        assert(parsed(start, operator, source@, draws).parser == self@);
        r
    }
}

/// A session that an error stopped after `k` lines ends as it stood then.
pub proof fn lemma_stopped(
    p: ParserView,
    t: TerminalView,
    lines: Seq<Seq<char>>,
    draws: Seq<Seq<char>>,
    k: int,
)
    requires
        0 <= k <= lines.len(),
        ran(p, t, lines.take(k), draws).error is Some,
    ensures
        ran(p, t, lines, draws) == ran(p, t, lines.take(k), draws),
        closed(ran(p, t, lines, draws), lines.len() as int) == ran(p, t, lines.take(k), draws),
    decreases lines.len() - k,
{
    if k == lines.len() {
        assert(lines.take(k) == lines);
    } else {
        assert(lines.drop_last().take(k) == lines.take(k));
        lemma_stopped(p, t, lines.drop_last(), draws, k);
    }
}

/// Whether `line` is a comment line: its first character that is not
/// whitespace is `#`.
pub open spec fn is_comment_line(line: Seq<char>) -> bool {
    trim(line).len() > 0 && trim(line)[0] == '#'
}

/// The end of the input while a block is open that has no variable is an
/// error: whatever was read before, the parse fails with `TruncatedBlock`, and
/// no block is added.
pub proof fn lemma_block_without_variables_is_truncated(s: Session, count: int)
    requires
        s.error is None,
        s.parser.buffer matches Some(b) && b.variables.len() == 0,
    ensures
        closed(s, count) == (Session {
            error: Some(
                ErrorView::TruncatedBlock { line: count, expecting: s.parser.expecting },
            ),
            ..s
        }),
{
}

/// The end of the input while no block is open is no error: the session ends
/// as it stands. So a template may end in blank lines, and an empty template
/// gives no block.
pub proof fn lemma_nothing_open_at_the_end(s: Session, count: int)
    requires
        s.error is None,
        s.parser.buffer is None,
    ensures
        closed(s, count) == s,
{
}

/// A line closes the open block just where it is blank: made of whitespace
/// alone. A blank line makes the parser expect a title and changes nothing else.
pub proof fn lemma_blank_line_resets(p: ParserView, pos: int, line: Seq<char>, draw: Seq<char>)
    ensures
        accepted(p, pos, line, draw).1 == Ok::<bool, ErrorView>(true) <==> is_blank(line),
        is_blank(line) ==> accepted(p, pos, line, draw).0 == (ParserView {
            expecting: Expecting::Title,
            ..p
        }),
{
    lemma_trim(line);
}

/// A template made of a title and a description alone fails with
/// `TruncatedBlock` at its second line, with no block read and nothing asked
/// of the operator.
pub proof fn lemma_title_and_description_alone(
    p: ParserView,
    t: TerminalView,
    title: Seq<char>,
    description: Seq<char>,
    draws: Seq<Seq<char>>,
)
    requires
        p.expecting == Expecting::Title,
        is_comment_line(title),
        is_comment_line(description),
    ensures
        closed(ran(p, t, seq![title, description], draws), 2).error == Some(
            ErrorView::TruncatedBlock { line: 2, expecting: Expecting::Variables },
        ),
        closed(ran(p, t, seq![title, description], draws), 2).parser.blocks == p.blocks,
        closed(ran(p, t, seq![title, description], draws), 2).terminal == t,
{
    let lines = seq![title, description];
    let first = lines.drop_last();
    assert(first.drop_last() == Seq::<Seq<char>>::empty());
    assert(first.last() == title);
    assert(lines.last() == description);
    let s0 = ran(p, t, first.drop_last(), draws);
    let s1 = ran(p, t, first, draws);
    assert(s1 == fed(s0, 1, title, draws[0]));
    let s2 = ran(p, t, lines, draws);
    assert(s2 == fed(s1, 2, description, draws[1]));
}

/// A template made of a title alone fails with `TruncatedBlock` at its first line.
pub proof fn lemma_title_alone(p: ParserView, t: TerminalView, title: Seq<char>, draws: Seq<Seq<char>>)
    requires
        p.expecting == Expecting::Title,
        is_comment_line(title),
    ensures
        closed(ran(p, t, seq![title], draws), 1).error == Some(
            ErrorView::TruncatedBlock { line: 1, expecting: Expecting::DescriptionOrVariables },
        ),
        closed(ran(p, t, seq![title], draws), 1).parser.blocks == p.blocks,
        closed(ran(p, t, seq![title], draws), 1).terminal == t,
{
    let lines = seq![title];
    assert(lines.drop_last() == Seq::<Seq<char>>::empty());
    assert(lines.last() == title);
    let s0 = ran(p, t, lines.drop_last(), draws);
    assert(ran(p, t, lines, draws) == fed(s0, 1, title, draws[0]));
}

/// The output for one block: its lines, each ended by a line feed.
pub open spec fn block_output(b: BlockView) -> Seq<char> {
    block_text(b) + seq!['\n']
}

/// The output for a sequence of blocks: the output for each block, with one
/// blank line between two blocks.
pub open spec fn rendered(blocks: Seq<BlockView>) -> Seq<char>
    decreases blocks.len(),
{
    if blocks.len() == 0 {
        Seq::empty()
    } else if blocks.len() == 1 {
        block_output(blocks[0])
    } else {
        rendered(blocks.drop_last()) + seq!['\n'] + block_output(blocks.last())
    }
}

/// Whether every variable of every block has a value.
pub open spec fn all_blocks_resolved(blocks: Seq<BlockView>) -> bool {
    forall|i: int| 0 <= i < blocks.len() ==> all_resolved((#[trigger] blocks[i]).variables)
}

impl Parser {
    /// The resolved configuration: the text of the blocks that were read. An
    /// error names the first variable without a value.
    pub fn to_string(&self) -> (r: Result<String, Error>)
        ensures
            match r {
                Ok(text) => all_blocks_resolved(self@.blocks) && text@ == rendered(self@.blocks),
                Err(e) => exists|i: int, j: int|
                    0 <= i < self@.blocks.len() && all_blocks_resolved(self@.blocks.take(i))
                        && #[trigger] first_unresolved(self@.blocks[i].variables, j) && e@
                        == (ErrorView::UnresolvedRequiredVariable {
                        name: variable_key(self@.blocks[i].variables[j]),
                    }),
            },
    {
        proof {
            reveal_strlit("\n");
        }
        let ghost blocks = self@.blocks;
        let mut text = String::new();
        let mut i: usize = 0;
        assert(blocks.take(0) == Seq::<BlockView>::empty());
        while i < self.blocks.len()
            invariant
                i <= self.blocks.len(),
                blocks == self@.blocks,
                "\n"@ == seq!['\n'],
                all_blocks_resolved(blocks.take(i as int)),
                text@ == rendered(blocks.take(i as int)),
            decreases self.blocks.len() - i,
        {
            let ghost before = text@;
            proof {
                let upto = blocks.take(i + 1);
                assert(upto.drop_last() == blocks.take(i as int));
                assert(upto.last() == blocks[i as int]);
                assert(upto[0] == blocks[0]);
            }
            match self.blocks[i].as_text() {
                Ok(block) => {
                    if i > 0 {
                        text.append("\n");
                    }
                    text.append(block.as_str());
                    text.append("\n");
                    proof {
                        assert forall|k: int| 0 <= k < i + 1 implies all_resolved(
                            (#[trigger] blocks.take(i + 1)[k]).variables,
                        ) by {
                            if k < i {
                                assert(blocks.take(i as int)[k] == blocks[k]);
                            }
                        }
                        if i > 0 {
                            assert(text@ == before + seq!['\n'] + block_output(blocks[i as int]));
                        } else {
                            assert(before == Seq::<char>::empty());
                            assert(text@ == block_output(blocks[i as int]));
                        }
                    }
                },
                Err(e) => {
                    let ghost j = choose|j: int|
                        first_unresolved(blocks[i as int].variables, j) && e@
                            == (ErrorView::UnresolvedRequiredVariable {
                            name: variable_key(blocks[i as int].variables[j]),
                        });
                    assert(first_unresolved(self@.blocks[i as int].variables, j));
                    return Err(e);
                },
            }
            i += 1;
        }
        assert(blocks.take(i as int) == blocks);
        Ok(text)
    }
}

/// Flushing adds none but resolved blocks.
pub proof fn lemma_flushed_blocks_resolved(p: ParserView, t: TerminalView)
    requires
        all_blocks_resolved(p.blocks),
    ensures
        all_blocks_resolved(flushed(p, t).0.blocks),
{
    match p.buffer {
        Some(b) => {
            let resolved = resolution(b.variables, t, p.use_default);
            if resolved.failed is None {
                lemma_resolution_resolved(b.variables, t, p.use_default);
                let block = BlockView { variables: resolved.variables, ..b };
                let blocks = p.blocks.push(block);
                assert forall|i: int| 0 <= i < blocks.len() implies all_resolved(
                    (#[trigger] blocks[i]).variables,
                ) by {
                    if i < p.blocks.len() {
                        assert(blocks[i] == p.blocks[i]);
                    }
                }
            }
        },
        None => {},
    }
}

/// Every block that a parse adds is resolved: where the blocks of the parser
/// could be rendered before, they can be rendered after.
pub proof fn lemma_parsed_blocks_resolved(
    p: ParserView,
    t: TerminalView,
    lines: Seq<Seq<char>>,
    draws: Seq<Seq<char>>,
)
    requires
        all_blocks_resolved(p.blocks),
    ensures
        all_blocks_resolved(ran(p, t, lines, draws).parser.blocks),
        all_blocks_resolved(closed(ran(p, t, lines, draws), lines.len() as int).parser.blocks),
    decreases lines.len(),
{
    if lines.len() > 0 {
        lemma_parsed_blocks_resolved(p, t, lines.drop_last(), draws);
        let s = ran(p, t, lines.drop_last(), draws);
        if s.error is None {
            let taken = accepted(s.parser, lines.len() as int, lines.last(), draws[lines.len() - 1]);
            assert(taken.0.blocks == s.parser.blocks);
            lemma_flushed_blocks_resolved(taken.0, s.terminal);
        }
    }
    let end = ran(p, t, lines, draws);
    lemma_flushed_blocks_resolved(end.parser, end.terminal);
}

/// Whether `line` asks for a random value.
pub open spec fn asks_random(line: Seq<char>) -> bool {
    classified(trim(line)) is Random
}

/// A template without a request for a random value is parsed in one way
/// only: the outcome does not depend on the random values, and every choice
/// of them fits.
pub proof fn lemma_parse_without_random(
    p: ParserView,
    t: TerminalView,
    lines: Seq<Seq<char>>,
    draws: Seq<Seq<char>>,
    others: Seq<Seq<char>>,
)
    requires
        forall|i: int| 0 <= i < lines.len() ==> !asks_random(#[trigger] lines[i]),
    ensures
        ran(p, t, lines, draws) == ran(p, t, lines, others),
        ran(p, t, lines, draws).draws_fit,
        closed(ran(p, t, lines, draws), lines.len() as int) == closed(
            ran(p, t, lines, others),
            lines.len() as int,
        ),
    decreases lines.len(),
{
    if lines.len() > 0 {
        let shorter = lines.drop_last();
        assert forall|i: int| 0 <= i < shorter.len() implies !asks_random(#[trigger] shorter[i]) by {
            assert(shorter[i] == lines[i]);
        }
        lemma_parse_without_random(p, t, shorter, draws, others);
        assert(!asks_random(lines[lines.len() - 1]));
    }
}

} // verus!
