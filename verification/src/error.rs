//! The ways in which parsing and resolving a template can fail.
use crate::text::{decimal_text, number_text};
use vstd::prelude::*;
use vstd::string::StringExecFns;

verus! {

/// The hint for a line that should be a title.
pub const HELP_TITLE: &'static str =
    "This is the first line of a block. A block is a group of lines separated from others \
    by one (or more) empty line(s). The first line of a block is expected to be a title, \
    that is to say, to start with `# `, the remaining text is considered the title of \
    this block. This line does not match this pattern.";

/// The hint for a line that should be a description or a variable line.
pub const HELP_DESCRIPTION: &'static str =
    "This is the second line of a block. A block is a group of lines separated from \
    others by one (or more) empty line(s). The second line of a block is expected to be \
    a description of that block or a variable line. The description line should start `# \
    `, and the remaining text is considered the description of this block. A config \
    variable line should start with a name in uppercase, no spaces, followed by an equal \
    sign. No spaces before the equal sign. This line does not match these expected \
    patterns.";

/// The hint for a line that should be a variable line.
pub const HELP_VARIABLE: &'static str =
    "This line was expected to be a variable line. The format should be a name using \
    capital ASCII letters, digits or underscore, followed by an equal sign. No spaces \
    before the equal sign. This line does not match this expected pattern.";

/// What the block parser expects of the next non-blank line.
#[derive(Clone, Copy, Debug, PartialEq, Eq, Structural)]
pub enum Expecting {
    Title,
    DescriptionOrVariables,
    Variables,
}

/// A fatal error: the first one ends the run.
#[derive(Clone, Debug, PartialEq, Eq)]
pub enum Error {
    /// The first non-blank line of a block does not start with `#`.
    MalformedTitle { line: usize, text: String },
    /// A variable line has no `=`, or the name before it is not a valid name.
    MalformedVariableLine { line: usize, text: String },
    /// The input ended while a block without variables was open.
    TruncatedBlock { line: usize, expecting: Expecting },
    /// A variable has no default and the operator's input ended before it got a value.
    UnresolvedRequiredVariable { name: String },
    /// A random value of one character or more was asked of an empty alphabet.
    EmptyAlphabet { line: usize },
}

/// The mathematical content of an [`Error`].
pub enum ErrorView {
    MalformedTitle { line: int, text: Seq<char> },
    MalformedVariableLine { line: int, text: Seq<char> },
    TruncatedBlock { line: int, expecting: Expecting },
    UnresolvedRequiredVariable { name: Seq<char> },
    EmptyAlphabet { line: int },
}

impl View for Error {
    type V = ErrorView;

    open spec fn view(&self) -> ErrorView {
        match *self {
            Error::MalformedTitle { line, text } => ErrorView::MalformedTitle {
                line: line as int,
                text: text@,
            },
            Error::MalformedVariableLine { line, text } => ErrorView::MalformedVariableLine {
                line: line as int,
                text: text@,
            },
            Error::TruncatedBlock { line, expecting } => ErrorView::TruncatedBlock {
                line: line as int,
                expecting,
            },
            Error::UnresolvedRequiredVariable { name } => ErrorView::UnresolvedRequiredVariable {
                name: name@,
            },
            Error::EmptyAlphabet { line } => ErrorView::EmptyAlphabet { line: line as int },
        }
    }
}

/// The words that say what the parser expected.
pub open spec fn expectation(expecting: Expecting) -> Seq<char> {
    match expecting {
        Expecting::Title => "expecting a block title"@,
        Expecting::DescriptionOrVariables => "expecting a block description or a variable line"@,
        Expecting::Variables => "expecting a variable line"@,
    }
}

/// The hint that goes with what the parser expected.
pub open spec fn hint(expecting: Expecting) -> Seq<char> {
    match expecting {
        Expecting::Title => HELP_TITLE@,
        Expecting::DescriptionOrVariables => HELP_DESCRIPTION@,
        Expecting::Variables => HELP_VARIABLE@,
    }
}

/// The message of an error: what went wrong and on which line, then a hint
/// on what was expected there.
pub open spec fn message(e: ErrorView) -> Seq<char> {
    match e {
        ErrorView::MalformedTitle { line, text } => "Unexpected title on line "@ + decimal_text(
            line as nat,
        ) + ": "@ + text + "\nHint: "@ + HELP_TITLE@,
        ErrorView::MalformedVariableLine { line, text } => "Invalid variable line on line "@
            + decimal_text(line as nat) + ": "@ + text + "\nHint: "@ + HELP_VARIABLE@,
        ErrorView::TruncatedBlock { line, expecting } => "Unexpected EOF while "@ + expectation(
            expecting,
        ) + " at line "@ + decimal_text(line as nat)
            + ": the last block has no variables\nHint: "@ + hint(expecting),
        ErrorView::UnresolvedRequiredVariable { name } => "Variable "@ + name + " has no value"@,
        ErrorView::EmptyAlphabet { line } => "Random value on line "@ + decimal_text(line as nat)
            + " cannot be drawn from an empty set of characters"@,
    }
}

impl Expecting {
    /// The words that say what the parser expected.
    pub fn to_string(&self) -> (s: String)
        ensures
            s@ == expectation(*self),
    {
        match self {
            Expecting::Title => "expecting a block title".to_owned(),
            Expecting::DescriptionOrVariables => "expecting a block description or a variable line".to_owned(),
            Expecting::Variables => "expecting a variable line".to_owned(),
        }
    }

    /// The hint that goes with what the parser expected.
    pub fn hint(&self) -> (s: &'static str)
        ensures
            s@ == hint(*self),
    {
        match self {
            Expecting::Title => HELP_TITLE,
            Expecting::DescriptionOrVariables => HELP_DESCRIPTION,
            Expecting::Variables => HELP_VARIABLE,
        }
    }
}

impl Error {
    /// The message of the error.
    pub fn to_string(&self) -> (s: String)
        ensures
            s@ == message(self@),
    {
        match self {
            Error::MalformedTitle { line, text } => {
                let mut s = "Unexpected title on line ".to_owned();
                s.append(number_text(*line).as_str());
                s.append(": ");
                s.append(text.as_str());
                s.append("\nHint: ");
                s.append(HELP_TITLE);
                s
            },
            Error::MalformedVariableLine { line, text } => {
                let mut s = "Invalid variable line on line ".to_owned();
                s.append(number_text(*line).as_str());
                s.append(": ");
                s.append(text.as_str());
                s.append("\nHint: ");
                s.append(HELP_VARIABLE);
                s
            },
            Error::TruncatedBlock { line, expecting } => {
                let mut s = "Unexpected EOF while ".to_owned();
                s.append(expecting.to_string().as_str());
                s.append(" at line ");
                s.append(number_text(*line).as_str());
                s.append(": the last block has no variables\nHint: ");
                s.append(expecting.hint());
                s
            },
            Error::UnresolvedRequiredVariable { name } => {
                let mut s = "Variable ".to_owned();
                s.append(name.as_str());
                s.append(" has no value");
                s
            },
            Error::EmptyAlphabet { line } => {
                let mut s = "Random value on line ".to_owned();
                s.append(number_text(*line).as_str());
                s.append(" cannot be drawn from an empty set of characters");
                s
            },
        }
    }
}

} // verus!
