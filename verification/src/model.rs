//! The data model of a template: comments, the three kinds of variables, and
//! blocks; how a block is resolved and how it is rendered.
use crate::context::{expansion, substitute, Context};
use crate::error::{Error, ErrorView};
use crate::random::{
    drawn_from, random_length, random_string, MAX_RANDOM_LENGTH, MIN_RANDOM_LENGTH,
};
use crate::terminal::{Terminal, TerminalView};
use crate::text::{string_of, to_chars, trim, trim_bounds};
use vstd::prelude::*;
use vstd::string::StringExecFns;

verus! {

/// The alphabet of random values where none is configured.
pub const DEFAULT_RANDOM_CHARS: &'static str =
    "abcdefghijklmnopqrstuvwxyzABCDEFGHIJKLMNOPQRSTUVWXYZ0123456789!@#$%^&*(-_=+)";

/// The line that renders a comment: `# ` and its contents.
pub open spec fn comment_line(contents: Seq<char>) -> Seq<char> {
    seq!['#', ' '] + contents
}

/// A title or a description of a block.
#[derive(Clone, Debug)]
pub struct Comment {
    contents: String,
}

impl View for Comment {
    type V = Seq<char>;

    closed spec fn view(&self) -> Seq<char> {
        self.contents@
    }
}

impl Comment {
    /// A comment with the given contents.
    pub fn new(contents: &str) -> (c: Self)
        ensures
            c@ == contents@,
    {
        Comment { contents: contents.to_owned() }
    }

    /// The line that renders this comment.
    pub fn to_string(&self) -> (s: String)
        ensures
            s@ == comment_line(self@),
    {
        proof {
            reveal_strlit("# ");
        }
        let mut s = "# ".to_owned();
        assert(s@ == seq!['#', ' ']);
        s.append(self.contents.as_str());
        s
    }

}

/// The mathematical content of a [`SimpleVariable`].
pub struct SimpleVariableView {
    pub name: Seq<char>,
    pub default: Option<Seq<char>>,
    pub help: Option<Seq<char>>,
    pub input: Option<Seq<char>>,
}

/// The value of a simple variable: its input, else its default.
pub open spec fn simple_value(v: SimpleVariableView) -> Option<Seq<char>> {
    if v.input is Some {
        v.input
    } else {
        v.default
    }
}

/// The prompt for a simple variable: its help, or its name where it has no
/// help; then its default in square brackets, where it has one; then `: `.
pub open spec fn prompt_text(v: SimpleVariableView) -> Seq<char> {
    let label = match v.help {
        Some(help) => help,
        None => v.name,
    };
    match v.default {
        Some(default) => label + seq![' ', '['] + default + seq![']', ':', ' '],
        None => label + seq![':', ' '],
    }
}

/// Whether the operator is asked for this variable: it has no input yet, and
/// either it has no default or defaults are not taken without asking.
pub open spec fn needs_input(v: SimpleVariableView, use_default: bool) -> bool {
    v.input is None && (v.default is None || !use_default)
}

/// What one answer does to a variable that the operator was asked for.
pub enum Answer {
    /// The variable is settled, with this content.
    Settled(SimpleVariableView),
    /// The answer was blank and there is no default: the operator is asked again.
    AskAgain,
    /// The input ended and there is no default.
    Missing,
}

/// The effect of the operator's answer on `v`; `None` stands for the end of
/// the input. A line that is not blank becomes the input, trimmed. A blank
/// line, or the end of the input, keeps the default where there is one.
pub open spec fn answer_effect(v: SimpleVariableView, answer: Option<Seq<char>>) -> Answer {
    match answer {
        Some(line) => {
            if trim(line).len() > 0 {
                Answer::Settled(SimpleVariableView { input: Some(trim(line)), ..v })
            } else if v.default is Some {
                Answer::Settled(v)
            } else {
                Answer::AskAgain
            }
        },
        None => {
            if v.default is Some {
                Answer::Settled(v)
            } else {
                Answer::Missing
            }
        },
    }
}

/// The terminal after one more prompt was written to it.
pub open spec fn prompted(t: TerminalView, prompt: Seq<char>) -> TerminalView {
    TerminalView { pending: t.pending, written: t.written.push(prompt) }
}

/// The terminal after its next line was read (or its end was seen).
pub open spec fn line_read(t: TerminalView) -> TerminalView {
    if t.pending.len() > 0 {
        TerminalView { pending: t.pending.drop_first(), written: t.written }
    } else {
        t
    }
}

/// The operator's next line, or `None` at the end of the input.
pub open spec fn next_line(t: TerminalView) -> Option<Seq<char>> {
    if t.pending.len() > 0 {
        Some(t.pending[0])
    } else {
        None
    }
}

/// Asking the operator for `v` on terminal `t`: the prompt is written and one
/// line is read, again and again until the variable is settled or the input
/// has ended. The result is the variable, the terminal, and whether the
/// variable was settled.
pub open spec fn asked(v: SimpleVariableView, t: TerminalView) -> (
    SimpleVariableView,
    TerminalView,
    bool,
)
    decreases t.pending.len(),
{
    let after = line_read(prompted(t, prompt_text(v)));
    match answer_effect(v, next_line(t)) {
        Answer::Settled(settled) => (settled, after, true),
        Answer::Missing => (v, after, false),
        Answer::AskAgain => asked(v, after),
    }
}

/// A variable with an optional default, an optional help text, and the
/// operator's input once it was given.
#[derive(Clone, Debug)]
pub struct SimpleVariable {
    name: String,
    default: Option<String>,
    help: Option<String>,
    input: Option<String>,
}

/// The content of an optional string.
pub open spec fn option_view(s: Option<String>) -> Option<Seq<char>> {
    match s {
        Some(s) => Some(s@),
        None => None,
    }
}

impl View for SimpleVariable {
    type V = SimpleVariableView;

    closed spec fn view(&self) -> SimpleVariableView {
        SimpleVariableView {
            name: self.name@,
            default: option_view(self.default),
            help: option_view(self.help),
            input: option_view(self.input),
        }
    }
}

/// An owned copy of an optional text.
fn owned(s: Option<&str>) -> (r: Option<String>)
    ensures
        match s {
            Some(s) => r matches Some(t) && t@ == s@,
            None => r is None,
        },
{
    match s {
        Some(s) => Some(s.to_owned()),
        None => None,
    }
}

impl SimpleVariable {
    /// A variable without input.
    pub fn new(name: &str, default: Option<&str>, help: Option<&str>) -> (v: Self)
        ensures
            v@.name == name@,
            v@.default == (match default {
                Some(d) => Some(d@),
                None => None,
            }),
            v@.help == (match help {
                Some(h) => Some(h@),
                None => None,
            }),
            v@.input is None,
    {
        SimpleVariable {
            name: name.to_owned(),
            default: owned(default),
            help: owned(help),
            input: None,
        }
    }


    /// The name of the variable.
    pub fn key(&self) -> (r: String)
        ensures
            r@ == self@.name,
    {
        self.name.clone()
    }

    /// The value of the variable: its input, else its default; an error
    /// where it has neither.
    pub fn value(&self) -> (r: Result<String, Error>)
        ensures
            match r {
                Ok(value) => simple_value(self@) == Some(value@),
                Err(e) => simple_value(self@) is None && e@ == (ErrorView::UnresolvedRequiredVariable {
                    name: self@.name,
                }),
            },
    {
        match &self.input {
            Some(input) => Ok(input.clone()),
            None => match &self.default {
                Some(default) => Ok(default.clone()),
                None => Err(Error::UnresolvedRequiredVariable { name: self.name.clone() }),
            },
        }
    }

    /// Whether the operator is to be asked for this variable.
    pub fn needs_input(&self, use_default: bool) -> (r: bool)
        ensures
            r == needs_input(self@, use_default),
    {
        self.input.is_none() && (self.default.is_none() || !use_default)
    }

    /// The prompt to write before the operator's answer is read.
    pub fn prompt(&self) -> (r: String)
        ensures
            r@ == prompt_text(self@),
    {
        proof {
            reveal_strlit(" [");
            reveal_strlit("]: ");
            reveal_strlit(": ");
        }
        let mut r = match &self.help {
            Some(help) => help.clone(),
            None => self.name.clone(),
        };
        match &self.default {
            Some(default) => {
                r.append(" [");
                r.append(default.as_str());
                r.append("]: ");
                assert(" ["@ == seq![' ', '[']);
                assert("]: "@ == seq![']', ':', ' ']);
            },
            None => {
                r.append(": ");
                assert(": "@ == seq![':', ' ']);
            },
        }
        r
    }

    /// Takes the operator's answer to the prompt; `None` stands for the end
    /// of the input. Returns whether the variable is settled: `false` asks
    /// for the prompt to be repeated.
    pub fn answer(&mut self, line: Option<&str>) -> (r: Result<bool, Error>)
        ensures
            match answer_effect(
                old(self)@,
                match line {
                    Some(l) => Some(l@),
                    None => None,
                },
            ) {
                Answer::Settled(settled) => r == Ok::<bool, Error>(true) && final(self)@
                    == settled,
                Answer::AskAgain => r == Ok::<bool, Error>(false) && final(self)@ == old(self)@,
                Answer::Missing => r matches Err(e) && e@ == (ErrorView::UnresolvedRequiredVariable {
                    name: old(self)@.name,
                }) && final(self)@ == old(self)@,
            },
    {
        match line {
            Some(l) => {
                let chars = to_chars(l);
                let (a, b) = trim_bounds(&chars, 0, chars.len());
                assert(chars@.subrange(0, chars.len() as int) == chars@);
                if a < b {
                    self.input = Some(string_of(&chars, a, b));
                    Ok(true)
                } else {
                    Ok(self.default.is_some())
                }
            },
            None => {
                if self.default.is_some() {
                    Ok(true)
                } else {
                    Err(Error::UnresolvedRequiredVariable { name: self.name.clone() })
                }
            },
        }
    }

    /// Asks the operator for this variable on `terminal`, until it is settled
    /// or the input has ended.
    pub fn ask_for_input(&mut self, terminal: &mut Terminal) -> (r: Result<(), Error>)
        ensures
            final(self)@ == asked(old(self)@, old(terminal)@).0,
            final(terminal)@ == asked(old(self)@, old(terminal)@).1,
            r is Ok <==> asked(old(self)@, old(terminal)@).2,
            r matches Err(e) ==> e@ == (ErrorView::UnresolvedRequiredVariable {
                name: old(self)@.name,
            }),
    {
        loop
            invariant
                self@ == old(self)@,
                asked(self@, terminal@) == asked(old(self)@, old(terminal)@),
            decreases terminal@.pending.len(),
        {
            let prompt = self.prompt();
            terminal.write(prompt.as_str());
            let line = terminal.read_line();
            let settled = match &line {
                Some(l) => self.answer(Some(l.as_str())),
                None => self.answer(None),
            };
            match settled {
                Ok(done) => {
                    if done {
                        return Ok(());
                    }
                },
                Err(e) => {
                    return Err(e);
                },
            }
        }
    }

    /// The line that renders the variable: `NAME=value`.
    pub fn as_text(&self) -> (r: Result<String, Error>)
        ensures
            match r {
                Ok(text) => simple_value(self@) matches Some(value) && text@ == assignment(
                    self@.name,
                    value,
                ),
                Err(e) => simple_value(self@) is None && e@ == (ErrorView::UnresolvedRequiredVariable {
                    name: self@.name,
                }),
            },
    {
        match self.value() {
            Ok(value) => Ok(assign(&self.name, &value)),
            Err(e) => Err(e),
        }
    }
}

/// The line `NAME=value`.
pub open spec fn assignment(name: Seq<char>, value: Seq<char>) -> Seq<char> {
    name + seq!['='] + value
}

/// Builds the line `NAME=value`.
fn assign(name: &String, value: &String) -> (r: String)
    ensures
        r@ == assignment(name@, value@),
{
    proof {
        reveal_strlit("=");
    }
    let mut r = name.clone();
    r.append("=");
    assert("="@ == seq!['=']);
    r.append(value.as_str());
    r
}

/// The mathematical content of an [`AutoGeneratedVariable`].
pub struct AutoGeneratedVariableView {
    pub name: Seq<char>,
    pub pattern: Seq<char>,
    pub context: Map<Seq<char>, Seq<char>>,
}

/// A variable whose value is a pattern with the placeholders that its context
/// binds replaced.
#[derive(Clone, Debug)]
pub struct AutoGeneratedVariable {
    name: String,
    pattern: String,
    context: Context,
}

impl View for AutoGeneratedVariable {
    type V = AutoGeneratedVariableView;

    closed spec fn view(&self) -> AutoGeneratedVariableView {
        AutoGeneratedVariableView {
            name: self.name@,
            pattern: self.pattern@,
            context: self.context@,
        }
    }
}

impl AutoGeneratedVariable {
    /// A variable with the given pattern and an empty context.
    pub fn new(name: &str, pattern: &str) -> (v: Self)
        ensures
            v@.name == name@,
            v@.pattern == pattern@,
            v@.context == Map::<Seq<char>, Seq<char>>::empty(),
    {
        AutoGeneratedVariable {
            name: name.to_owned(),
            pattern: pattern.to_owned(),
            context: Context::new(),
        }
    }

    /// Adds the bindings of `ctx` to the context, in place of what their
    /// names were bound to before.
    pub fn load_context(&mut self, ctx: &Context)
        ensures
            final(self)@.name == old(self)@.name,
            final(self)@.pattern == old(self)@.pattern,
            final(self)@.context == old(self)@.context.union_prefer_right(ctx@),
    {
        self.context.extend(ctx);
    }

    /// The name of the variable.
    pub fn key(&self) -> (r: String)
        ensures
            r@ == self@.name,
    {
        self.name.clone()
    }

    /// The pattern with the placeholders that the context binds replaced.
    pub fn value(&self) -> (r: Result<String, Error>)
        ensures
            r matches Ok(value) && value@ == expansion(self@.pattern, self@.context),
    {
        Ok(substitute(self.pattern.as_str(), &self.context))
    }

    /// The line that renders the variable: `NAME=value`.
    pub fn as_text(&self) -> (r: Result<String, Error>)
        ensures
            r matches Ok(text) && text@ == assignment(
                self@.name,
                expansion(self@.pattern, self@.context),
            ),
    {
        let value = substitute(self.pattern.as_str(), &self.context);
        Ok(assign(&self.name, &value))
    }
}

/// The mathematical content of a [`VariableWithRandomValue`].
pub struct VariableWithRandomValueView {
    pub name: Seq<char>,
    pub value: Seq<char>,
}

/// A variable whose value was generated when the variable was made.
#[derive(Clone, Debug)]
pub struct VariableWithRandomValue {
    name: String,
    value: String,
}

impl View for VariableWithRandomValue {
    type V = VariableWithRandomValueView;

    closed spec fn view(&self) -> VariableWithRandomValueView {
        VariableWithRandomValueView { name: self.name@, value: self.value@ }
    }
}

/// Whether `value` answers a request for a random value of `length`
/// characters of `alphabet`; a request without a length takes any length from
/// `MIN_RANDOM_LENGTH` to `MAX_RANDOM_LENGTH`.
pub open spec fn fits_request(value: Seq<char>, alphabet: Seq<char>, length: Option<usize>) -> bool {
    &&& drawn_from(value, alphabet)
    &&& match length {
        Some(n) => value.len() == n,
        None => MIN_RANDOM_LENGTH <= value.len() <= MAX_RANDOM_LENGTH,
    }
}

impl VariableWithRandomValue {
    /// A variable with a fresh random value over the default alphabet, of the
    /// given length (none where it is negative) or of a random length.
    pub fn new(name: &str, length: Option<i32>) -> (v: Self)
        ensures
            v@.name == name@,
            fits_request(
                v@.value,
                DEFAULT_RANDOM_CHARS@,
                match length {
                    Some(n) => Some(
                        if n < 0 {
                            0usize
                        } else {
                            n as usize
                        },
                    ),
                    None => None,
                },
            ),
    {
        let length = match length {
            Some(n) => Some(
                if n < 0 {
                    0usize
                } else {
                    n as usize
                },
            ),
            None => None,
        };
        proof {
            reveal_strlit(
                "abcdefghijklmnopqrstuvwxyzABCDEFGHIJKLMNOPQRSTUVWXYZ0123456789!@#$%^&*(-_=+)",
            );
        }
        match Self::with_alphabet(name, DEFAULT_RANDOM_CHARS, length) {
            Some(v) => v,
            None => {
                assert(false);
                VariableWithRandomValue { name: name.to_owned(), value: String::new() }
            },
        }
    }

    /// A variable with a fresh random value over `alphabet`, of the given
    /// length or of a random length; `None` where the alphabet is empty and
    /// the value needs a character.
    pub fn with_alphabet(name: &str, alphabet: &str, length: Option<usize>) -> (r: Option<Self>)
        ensures
            r is None <==> alphabet@.len() == 0 && length != Some(0usize),
            r matches Some(v) ==> v@.name == name@ && fits_request(v@.value, alphabet@, length),
    {
        let n = match length {
            Some(n) => n,
            None => random_length(),
        };
        match random_string(alphabet, n) {
            Some(value) => Some(VariableWithRandomValue { name: name.to_owned(), value }),
            None => None,
        }
    }

    /// A variable with the given value.
    pub fn with_value(name: &str, value: &str) -> (v: Self)
        ensures
            v@.name == name@,
            v@.value == value@,
    {
        VariableWithRandomValue { name: name.to_owned(), value: value.to_owned() }
    }

    /// The name of the variable.
    pub fn key(&self) -> (r: String)
        ensures
            r@ == self@.name,
    {
        self.name.clone()
    }

    /// The generated value.
    pub fn value(&self) -> (r: Result<String, Error>)
        ensures
            r matches Ok(value) && value@ == self@.value,
    {
        Ok(self.value.clone())
    }

    /// The line that renders the variable: `NAME=value`.
    pub fn as_text(&self) -> (r: Result<String, Error>)
        ensures
            r matches Ok(text) && text@ == assignment(self@.name, self@.value),
    {
        Ok(assign(&self.name, &self.value))
    }
}

/// A variable of one of the three kinds.
#[derive(Clone, Debug)]
pub enum VariableType {
    Input(SimpleVariable),
    AutoGenerated(AutoGeneratedVariable),
    Random(VariableWithRandomValue),
}

/// The mathematical content of a [`VariableType`].
pub enum VariableView {
    Input(SimpleVariableView),
    AutoGenerated(AutoGeneratedVariableView),
    Random(VariableWithRandomValueView),
}

impl View for VariableType {
    type V = VariableView;

    open spec fn view(&self) -> VariableView {
        match *self {
            VariableType::Input(v) => VariableView::Input(v@),
            VariableType::AutoGenerated(v) => VariableView::AutoGenerated(v@),
            VariableType::Random(v) => VariableView::Random(v@),
        }
    }
}

/// The name of a variable.
pub open spec fn variable_key(v: VariableView) -> Seq<char> {
    match v {
        VariableView::Input(v) => v.name,
        VariableView::AutoGenerated(v) => v.name,
        VariableView::Random(v) => v.name,
    }
}

/// The value of a variable; `None` for a simple variable without input and
/// without default.
pub open spec fn variable_value(v: VariableView) -> Option<Seq<char>> {
    match v {
        VariableView::Input(v) => simple_value(v),
        VariableView::AutoGenerated(v) => Some(expansion(v.pattern, v.context)),
        VariableView::Random(v) => Some(v.value),
    }
}

/// The line that renders a variable that has a value: `NAME=value`.
pub open spec fn variable_line(v: VariableView) -> Seq<char> {
    assignment(variable_key(v), variable_value(v).unwrap())
}

impl VariableType {
    /// The name of the variable.
    pub fn key(&self) -> (r: String)
        ensures
            r@ == variable_key(self@),
    {
        match self {
            VariableType::Input(v) => v.key(),
            VariableType::AutoGenerated(v) => v.key(),
            VariableType::Random(v) => v.key(),
        }
    }

    /// The value of the variable; an error for a simple variable without
    /// input and without default.
    pub fn value(&self) -> (r: Result<String, Error>)
        ensures
            match r {
                Ok(value) => variable_value(self@) == Some(value@),
                Err(e) => variable_value(self@) is None && e@ == (ErrorView::UnresolvedRequiredVariable {
                    name: variable_key(self@),
                }),
            },
    {
        match self {
            VariableType::Input(v) => v.value(),
            VariableType::AutoGenerated(v) => v.value(),
            VariableType::Random(v) => v.value(),
        }
    }

    /// The line that renders the variable: `NAME=value`.
    pub fn as_text(&self) -> (r: Result<String, Error>)
        ensures
            match r {
                Ok(text) => variable_value(self@) is Some && text@ == variable_line(self@),
                Err(e) => variable_value(self@) is None && e@ == (ErrorView::UnresolvedRequiredVariable {
                    name: variable_key(self@),
                }),
            },
    {
        match self {
            VariableType::Input(v) => v.as_text(),
            VariableType::AutoGenerated(v) => v.as_text(),
            VariableType::Random(v) => v.as_text(),
        }
    }
}

/// The mathematical content of a [`Block`].
pub struct BlockView {
    pub title: Seq<char>,
    pub description: Option<Seq<char>>,
    pub variables: Seq<VariableView>,
}

/// The contents of a sequence of variables.
pub open spec fn variable_views(variables: Seq<VariableType>) -> Seq<VariableView> {
    Seq::new(variables.len(), |i: int| variables[i]@)
}

/// A title, an optional description and the variables under them, in order.
#[derive(Clone, Debug)]
pub struct Block {
    pub title: Comment,
    pub description: Option<Comment>,
    pub variables: Vec<VariableType>,
}

impl View for Block {
    type V = BlockView;

    open spec fn view(&self) -> BlockView {
        BlockView {
            title: self.title@,
            description: match self.description {
                Some(d) => Some(d@),
                None => None,
            },
            variables: variable_views(self.variables@),
        }
    }
}

/// Whether every variable has a value.
pub open spec fn all_resolved(variables: Seq<VariableView>) -> bool {
    forall|i: int| 0 <= i < variables.len() ==> (#[trigger] variable_value(variables[i])) is Some
}

/// Whether `i` is the first variable without a value.
pub open spec fn first_unresolved(variables: Seq<VariableView>, i: int) -> bool {
    &&& 0 <= i < variables.len()
    &&& variable_value(variables[i]) is None
    &&& all_resolved(variables.take(i))
}

/// Whether one of the variables is auto-generated.
pub open spec fn has_auto_generated(variables: Seq<VariableView>) -> bool {
    exists|i: int| 0 <= i < variables.len() && (#[trigger] variables[i]) is AutoGenerated
}

/// The lines that render a block whose variables all have values: the title,
/// the description where there is one, then one line for each variable.
pub open spec fn block_lines(b: BlockView) -> Seq<Seq<char>> {
    seq![comment_line(b.title)] + (match b.description {
        Some(d) => seq![comment_line(d)],
        None => Seq::empty(),
    }) + Seq::new(b.variables.len(), |i: int| variable_line(b.variables[i]))
}

/// The lines joined by line feeds, with none after the last.
pub open spec fn joined(lines: Seq<Seq<char>>) -> Seq<char>
    decreases lines.len(),
{
    if lines.len() == 0 {
        Seq::empty()
    } else if lines.len() == 1 {
        lines[0]
    } else {
        joined(lines.drop_last()) + seq!['\n'] + lines.last()
    }
}

/// The text of a block whose variables all have values.
pub open spec fn block_text(b: BlockView) -> Seq<char> {
    joined(block_lines(b))
}

impl Block {
    /// A block without variables.
    pub fn new(title: Comment, description: Option<Comment>) -> (b: Self)
        ensures
            b.title == title,
            b.description == description,
            b.variables@.len() == 0,
    {
        Block { title, description, variables: Vec::new() }
    }

    /// Whether one of the variables is auto-generated.
    pub fn has_auto_generated_variables(&self) -> (r: bool)
        ensures
            r == has_auto_generated(self@.variables),
    {
        let mut i: usize = 0;
        while i < self.variables.len()
            invariant
                i <= self.variables.len(),
                forall|j: int| 0 <= j < i ==> !((#[trigger] self@.variables[j]) is AutoGenerated),
            decreases self.variables.len() - i,
        {
            match &self.variables[i] {
                VariableType::AutoGenerated(_) => {
                    assert(self@.variables[i as int] is AutoGenerated);
                    return true;
                },
                _ => {},
            }
            i += 1;
        }
        false
    }

    /// Adds a variable after those that the block holds.
    pub fn push(&mut self, variable: VariableType) -> (r: Result<(), Error>)
        ensures
            r is Ok,
            final(self).title == old(self).title,
            final(self).description == old(self).description,
            final(self).variables@ == old(self).variables@.push(variable),
            final(self)@.variables == old(self)@.variables.push(variable@),
    {
        self.variables.push(variable);
        assert(variable_views(self.variables@) =~= variable_views(old(self).variables@).push(
            variable@,
        ));
        Ok(())
    }

    /// The text of the block: its lines joined by line feeds. An error names
    /// the first variable without a value.
    pub fn as_text(&self) -> (r: Result<String, Error>)
        ensures
            match r {
                Ok(text) => all_resolved(self@.variables) && text@ == block_text(self@),
                Err(e) => exists|i: int|
                    first_unresolved(self@.variables, i) && e@
                        == (ErrorView::UnresolvedRequiredVariable {
                        name: variable_key(self@.variables[i]),
                    }),
            },
    {
        proof {
            reveal_strlit("\n");
        }
        let mut text = self.title.to_string();
        let ghost mut lines = seq![comment_line(self@.title)];
        assert(text@ == joined(lines));
        match &self.description {
            Some(d) => {
                let line = d.to_string();
                text.append("\n");
                text.append(line.as_str());
                proof {
                    assert("\n"@ == seq!['\n']);
                    let longer = lines.push(line@);
                    assert(longer.drop_last() == lines);
                    assert(longer == lines + seq![comment_line(d@)]);
                    lines = longer;
                }
            },
            None => {
                assert(lines + Seq::<Seq<char>>::empty() == lines);
            },
        }
        let ghost head = lines;
        let mut i: usize = 0;
        while i < self.variables.len()
            invariant
                i <= self.variables.len(),
                "\n"@ == seq!['\n'],
                head.len() > 0,
                head == seq![comment_line(self@.title)] + (match self@.description {
                    Some(d) => seq![comment_line(d)],
                    None => Seq::empty(),
                }),
                lines == head + Seq::new(i as nat, |j: int| variable_line(self@.variables[j])),
                text@ == joined(lines),
                all_resolved(self@.variables.take(i as int)),
            decreases self.variables.len() - i,
        {
            match self.variables[i].as_text() {
                Ok(line) => {
                    text.append("\n");
                    text.append(line.as_str());
                    proof {
                        let longer = lines.push(line@);
                        assert(longer.drop_last() == lines);
                        assert(longer == head + Seq::new(
                            (i + 1) as nat,
                            |j: int| variable_line(self@.variables[j]),
                        ));
                        lines = longer;
                        assert forall|j: int| 0 <= j < i + 1 implies (#[trigger] variable_value(
                            self@.variables.take(i + 1)[j],
                        )) is Some by {
                            if j < i {
                                assert(self@.variables.take(i as int)[j] == self@.variables[j]);
                            }
                        }
                    }
                },
                Err(e) => {
                    assert(first_unresolved(self@.variables, i as int));
                    return Err(e);
                },
            }
            i += 1;
        }
        assert(self@.variables.take(i as int) == self@.variables);
        Ok(text)
    }
}

} // verus!
