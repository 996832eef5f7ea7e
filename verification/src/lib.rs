//! Turns a configuration template into a resolved configuration file.
//!
//! A template is a sequence of blocks separated by blank lines. Each block has a
//! title comment, an optional description comment and a list of `NAME=value`
//! variable lines. Values are literal defaults, prompts for the operator,
//! patterns over sibling variables, or requests for a random string.
//!
//! - [`reader`] hands out the characters of a template with their line and column;
//! - [`tokenizer`] turns them into positioned tokens;
//! - [`classifier`] decides what a variable line declares;
//! - [`parser`] assembles lines into blocks;
//! - [`model`] holds the blocks and their variables and renders them;
//! - [`resolver`] asks the operator and fills in the patterns;
//! - [`terminal`] is the operator's side of a session, held in memory.
//!
//! Contracts are stated over the views of the types: sequences of characters
//! and plain records of them.
pub mod classifier;
pub mod confirm;
pub mod context;
pub mod error;
pub mod model;
pub mod parser;
pub mod random;
pub mod reader;
pub mod resolver;
pub mod terminal;
pub mod text;
pub mod tokenizer;

use crate::error::{Error, ErrorView, Expecting};
use crate::model::{
    block_text, fits_request, AutoGeneratedVariable, AutoGeneratedVariableView, Block, BlockView,
    Comment, SimpleVariable, SimpleVariableView, VariableType, VariableView,
    VariableWithRandomValue, VariableWithRandomValueView, DEFAULT_RANDOM_CHARS,
};
use crate::parser::{lemma_parsed_blocks_resolved, parsed, rendered, Parser, ParserView};
use crate::resolver::{lemma_resolution_resolved, resolution};
use crate::terminal::Terminal;
use crate::text::split_lines;
use vstd::prelude::*;
use vstd::string::StringExecFns;

verus! {

/// The template that is read where none is named.
pub const DEFAULT_ENV_SAMPLE: &'static str = ".env.sample";

/// The file that is written where none is named.
pub const DEFAULT_ENV: &'static str = ".env";

/// The parser that `parser` starts from: the default alphabet, every
/// variable without input asked for, no block read.
pub open spec fn default_parser() -> ParserView {
    ParserView {
        path: DEFAULT_ENV_SAMPLE@,
        alphabet: DEFAULT_RANDOM_CHARS@,
        use_default: false,
        expecting: Expecting::Title,
        buffer: None,
        blocks: Seq::empty(),
    }
}

/// Resolves the template `source` with the operator on `terminal` and gives
/// the text of the resolved configuration.
pub fn parser(source: &str, terminal: &mut Terminal) -> (r: Result<String, Error>)
    ensures
        exists|draws: Seq<Seq<char>>|
            {
                let outcome = #[trigger] parsed(default_parser(), old(terminal)@, source@, draws);
                &&& outcome.draws_fit
                &&& final(terminal)@ == outcome.terminal
                &&& match r {
                    Ok(text) => outcome.error is None && text@ == rendered(outcome.parser.blocks),
                    Err(e) => outcome.error == Some(e@),
                }
            },
{
    let ghost operator = terminal@;
    let mut reader = match Parser::new(DEFAULT_ENV_SAMPLE, DEFAULT_RANDOM_CHARS, &false) {
        Ok(reader) => reader,
        Err(e) => {
            assert(false);
            return Err(e);
        },
    };
    let parsing = reader.parse(source, terminal);
    let ghost draws = choose|draws: Seq<Seq<char>>|
        {
            let outcome = #[trigger] parsed(default_parser(), operator, source@, draws);
            &&& outcome.draws_fit
            &&& reader@ == outcome.parser
            &&& terminal@ == outcome.terminal
            &&& match parsing {
                Ok(()) => outcome.error is None,
                Err(e) => outcome.error == Some(e@),
            }
        };
    match parsing {
        Ok(()) => {},
        Err(e) => {
            return Err(e);
        },
    }
    proof {
        lemma_parsed_blocks_resolved(default_parser(), operator, split_lines(source@), draws);
    }
    match reader.to_string() {
        Ok(text) => Ok(text),
        Err(e) => {
            assert(false);
            Err(e)
        },
    }
}

/// The title of the sample block.
pub const SAMPLE_TITLE: &'static str = "Here comes a new block!";

/// The description of the sample block.
pub const SAMPLE_DESCRIPTION: &'static str = "And here comes a description about it.";

/// The variables of the sample block, where `secret` is the random value
/// drawn for its last variable: one variable of each kind, with and without
/// default and help.
pub open spec fn sample_variables(secret: Seq<char>) -> Seq<VariableView> {
    seq![
        VariableView::AutoGenerated(
            AutoGeneratedVariableView {
                name: "AUTO_GENERATED"@,
                pattern: "{ANSWER}-{DEFAULT_VALUE_ONE}"@,
                context: Map::empty(),
            },
        ),
        VariableView::Input(
            SimpleVariableView {
                name: "ANSWER"@,
                default: None,
                help: Some("If you read that book, you know!"@),
                input: None,
            },
        ),
        VariableView::Input(
            SimpleVariableView { name: "AS_TEXT"@, default: None, help: None, input: None },
        ),
        VariableView::Input(
            SimpleVariableView {
                name: "DEFAULT_VALUE_ONE"@,
                default: Some("default value"@),
                help: None,
                input: None,
            },
        ),
        VariableView::Input(
            SimpleVariableView {
                name: "DEFAULT_VALUE_TWO"@,
                default: Some("default"@),
                help: None,
                input: None,
            },
        ),
        VariableView::Random(VariableWithRandomValueView { name: "SECRET_KEY"@, value: secret }),
    ]
}

/// The announcement of the text that would be written to the default file.
pub open spec fn announced(text: Seq<char>) -> Seq<char> {
    "\nThis would be written to "@ + DEFAULT_ENV@ + ":\n\n"@ + text
}

/// Builds the sample block, resolves it with the operator on `terminal`,
/// asking for every variable without input, and gives the announcement of
/// its text.
pub fn model_to_text(terminal: &mut Terminal) -> (r: Result<String, Error>)
    ensures
        exists|secret: Seq<char>|
            {
                let outcome = #[trigger] resolution(
                    sample_variables(secret),
                    old(terminal)@,
                    false,
                );
                &&& fits_request(secret, DEFAULT_RANDOM_CHARS@, Some(16usize))
                &&& final(terminal)@ == outcome.terminal
                &&& match r {
                    Ok(text) => outcome.failed is None && text@ == announced(
                        block_text(
                            BlockView {
                                title: SAMPLE_TITLE@,
                                description: Some(SAMPLE_DESCRIPTION@),
                                variables: outcome.variables,
                            },
                        ),
                    ),
                    Err(e) => outcome.failed matches Some(name) && e@
                        == (ErrorView::UnresolvedRequiredVariable { name }),
                }
            },
{
    let variable1 = AutoGeneratedVariable::new("AUTO_GENERATED", "{ANSWER}-{DEFAULT_VALUE_ONE}");
    let variable2 = SimpleVariable::new("ANSWER", None, Some("If you read that book, you know!"));
    let variable3 = SimpleVariable::new("AS_TEXT", None, None);
    let variable4 = SimpleVariable::new("DEFAULT_VALUE_ONE", Some("default value"), None);
    let variable5 = SimpleVariable::new("DEFAULT_VALUE_TWO", Some("default"), None);
    let variable6 = VariableWithRandomValue::new("SECRET_KEY", Some(16));
    let ghost secret = variable6@.value;
    let ghost operator = terminal@;

    let mut block = Block::new(Comment::new(SAMPLE_TITLE), Some(Comment::new(SAMPLE_DESCRIPTION)));
    let _ = block.push(VariableType::AutoGenerated(variable1));
    let _ = block.push(VariableType::Input(variable2));
    let _ = block.push(VariableType::Input(variable3));
    let _ = block.push(VariableType::Input(variable4));
    let _ = block.push(VariableType::Input(variable5));
    let _ = block.push(VariableType::Random(variable6));
    assert(block@.variables =~= sample_variables(secret));
    match block.resolve(terminal, false) {
        Ok(()) => {},
        Err(e) => {
            assert(resolution(sample_variables(secret), operator, false).failed is Some);
            return Err(e);
        },
    }
    proof {
        lemma_resolution_resolved(sample_variables(secret), operator, false);
    }
    let text = match block.as_text() {
        Ok(text) => text,
        Err(e) => {
            assert(false);
            return Err(e);
        },
    };
    let mut r = "\nThis would be written to ".to_owned();
    r.append(DEFAULT_ENV);
    r.append(":\n\n");
    r.append(text.as_str());
    assert(resolution(sample_variables(secret), operator, false).failed is None);
    Ok(r)
}

} // verus!
