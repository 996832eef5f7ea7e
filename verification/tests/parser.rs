use createnv::classifier::{is_auto_generated_variable, is_random_variable, is_valid_name};
use createnv::error::{Error, Expecting, HELP_DESCRIPTION, HELP_TITLE, HELP_VARIABLE};
use createnv::model::{VariableType, DEFAULT_RANDOM_CHARS};
use createnv::parser;
use createnv::parser::Parser;
use createnv::terminal::Terminal;

const SAMPLE: &str = "# Createnv
# This is a simple example of how Createnv works
NAME=  # What's your name?
GREETING=Hello, {NAME}!
DO_YOU_LIKE_OPEN_SOURCE=True  # Do you like open-source?
PASSWORD=<random:16>
";

#[test]
fn test_is_valid_name() {
    assert!(is_valid_name("HELLO_WORLD"));
    assert!(is_valid_name("HELLO_WORLD_42"));
    assert!(!is_valid_name("42HELLO"));
    assert!(!is_valid_name("Hello World"));
    assert!(!is_valid_name("HELLO-WORLD"));
}

#[test]
fn test_is_auto_generated_variable() {
    assert!(!is_auto_generated_variable("42"));
    assert!(!is_auto_generated_variable("Hello, world!"));
    assert!(!is_auto_generated_variable("Hello, {world}!"));
    assert!(is_auto_generated_variable("Hello, {WORLD}!"));
}

#[test]
fn test_is_random_variable() {
    assert!(!is_random_variable("random:42").0);
    assert_eq!(is_random_variable("random:42").1, None);
    assert!(is_random_variable("<random:42>").0);
    assert_eq!(is_random_variable("<random:42>").1, Some(42));
    assert!(is_random_variable("<random>").0);
    assert_eq!(is_random_variable("<random>").1, None);
}

#[test]
fn test_parser() {
    let mut parser = Parser::new(".env.sample", DEFAULT_RANDOM_CHARS, &false).unwrap();
    parser.parse(SAMPLE, &mut Terminal::new("World")).unwrap();
    assert_eq!(parser.blocks.len(), 1);
    assert_eq!(parser.blocks[0].variables.len(), 4);
    let names: [&str; 4] = ["NAME", "GREETING", "DO_YOU_LIKE_OPEN_SOURCE", "PASSWORD"];
    for (variable, expected) in parser.blocks[0].variables.iter().zip(names) {
        assert_eq!(variable.key(), expected);
    }
    for (idx, variable) in parser.blocks[0].variables.iter().enumerate() {
        if idx == 0 || idx == 2 {
            assert!(
                matches!(variable, VariableType::Input(_)),
                "Expected variable number {} to be Input, got {:?}",
                idx + 1,
                variable
            );
        }
        if idx == 1 {
            assert!(
                matches!(variable, VariableType::AutoGenerated(_)),
                "Expected variable 2 to be AutoGenerated, got {:?}",
                variable
            );
        }
        if idx == 3 {
            assert!(
                matches!(variable, VariableType::Random(_)),
                "Expected variable 4 to be Random, got {:?}",
                variable
            );
        }
    }
}

fn parse(source: &str, answers: &str) -> (Parser, Terminal, Result<(), Error>) {
    let mut parser = Parser::new(".env.sample", DEFAULT_RANDOM_CHARS, &false).unwrap();
    let mut terminal = Terminal::new(answers);
    let result = parser.parse(source, &mut terminal);
    (parser, terminal, result)
}

#[test]
fn sample_resolves_the_greeting_and_the_password() {
    let (parser, terminal, result) = parse(SAMPLE, "World");
    result.unwrap();
    let variables = &parser.blocks[0].variables;
    assert_eq!(variables[0].value().unwrap(), "World");
    assert_eq!(variables[1].value().unwrap(), "Hello, World!");
    assert_eq!(variables[2].value().unwrap(), "True");
    let password = variables[3].value().unwrap();
    assert_eq!(password.chars().count(), 16);
    assert!(password.chars().all(|c| DEFAULT_RANDOM_CHARS.contains(c)));
    assert_eq!(
        terminal.written(),
        &vec![
            "What's your name?: ".to_string(),
            "Do you like open-source? [True]: ".to_string(),
        ]
    );
    let text = parser.to_string().unwrap();
    let head = "# Createnv\n# This is a simple example of how Createnv works\nNAME=World\nGREETING=Hello, World!\nDO_YOU_LIKE_OPEN_SOURCE=True\nPASSWORD=";
    let tail = text.strip_prefix(head).unwrap();
    assert_eq!(tail, format!("{}\n", password));
}

#[test]
fn title_and_description_without_variables_are_a_truncated_block() {
    let (parser, terminal, result) = parse("# Title\n# Description\n", "");
    assert_eq!(
        result,
        Err(Error::TruncatedBlock {
            line: 2,
            expecting: Expecting::Variables
        })
    );
    assert_eq!(parser.blocks.len(), 0);
    assert_eq!(terminal.written().len(), 0);
    let (_, _, title_only) = parse("# Title", "");
    assert_eq!(
        title_only,
        Err(Error::TruncatedBlock {
            line: 1,
            expecting: Expecting::DescriptionOrVariables
        })
    );
}

#[test]
fn template_may_end_in_blank_lines() {
    let (parser, terminal, result) = parse("# T\nA=1\n\n", "");
    assert_eq!(result, Ok(()));
    assert_eq!(parser.blocks.len(), 1);
    assert_eq!(parser.blocks[0].variables.len(), 1);
    assert_eq!(parser.blocks[0].variables[0].key(), "A");
    assert_eq!(parser.blocks[0].variables[0].value().unwrap(), "1");
    assert_eq!(terminal.written(), &vec!["A [1]: ".to_string()]);
    assert_eq!(parser.to_string().unwrap(), "# T\nA=1\n");

    let (more, _, blanks) = parse("\n# T\nA=1\n\n  \n\n# U\nB=2\n \n\n", "");
    assert_eq!(blanks, Ok(()));
    assert_eq!(more.to_string().unwrap(), "# T\nA=1\n\n# U\nB=2\n");
}

#[test]
fn template_without_a_block_gives_no_block() {
    let (parser, terminal, empty) = parse("", "");
    assert_eq!(empty, Ok(()));
    assert_eq!(parser.blocks.len(), 0);
    assert_eq!(parser.to_string().unwrap(), "");
    assert_eq!(terminal.written().len(), 0);
    let (blank, _, only_blanks) = parse("\n  \n\t\n", "");
    assert_eq!(only_blanks, Ok(()));
    assert_eq!(blank.blocks.len(), 0);
}

#[test]
fn block_that_a_blank_line_closes_may_be_empty_but_the_last_may_not() {
    let (parser, _, result) = parse("# T\n\n# U\n# D\n", "");
    assert_eq!(
        result,
        Err(Error::TruncatedBlock {
            line: 4,
            expecting: Expecting::Variables
        })
    );
    assert_eq!(parser.blocks.len(), 1);
    assert_eq!(parser.blocks[0].variables.len(), 0);
}

#[test]
fn first_line_of_a_block_must_be_a_title() {
    let (_, _, result) = parse("  NAME=value  \n", "");
    assert_eq!(
        result,
        Err(Error::MalformedTitle {
            line: 1,
            text: "NAME=value".to_string()
        })
    );
    let (parser, _, second) = parse("# T\nA=1\n\n\nB=2\n", "");
    assert_eq!(
        second,
        Err(Error::MalformedTitle {
            line: 5,
            text: "B=2".to_string()
        })
    );
    assert_eq!(parser.blocks.len(), 1);
}

#[test]
fn variable_line_needs_an_equal_sign_and_a_valid_name() {
    let (_, _, no_equal) = parse("# T\nNAME\n", "");
    assert_eq!(
        no_equal,
        Err(Error::MalformedVariableLine {
            line: 2,
            text: "NAME".to_string()
        })
    );
    let (_, _, bad_name) = parse("# T\n# D\nname=1\n", "");
    assert_eq!(
        bad_name,
        Err(Error::MalformedVariableLine {
            line: 3,
            text: "name=1".to_string()
        })
    );
    let (_, _, late_comment) = parse("# T\nA=1\n# not a description\n", "");
    assert_eq!(
        late_comment,
        Err(Error::MalformedVariableLine {
            line: 3,
            text: "# not a description".to_string()
        })
    );
}

#[test]
fn required_variable_without_input_is_unresolved() {
    let (parser, terminal, result) = parse("# T\nA=\nB=\n", "a\n");
    assert_eq!(
        result,
        Err(Error::UnresolvedRequiredVariable {
            name: "B".to_string()
        })
    );
    assert_eq!(parser.blocks.len(), 0);
    assert_eq!(terminal.written(), &vec!["A: ".to_string(), "B: ".to_string()]);
}

#[test]
fn random_value_cannot_be_drawn_from_an_empty_alphabet() {
    let mut parser = Parser::new("x", "", &true).unwrap();
    let mut terminal = Terminal::new("");
    assert_eq!(
        parser.parse("# T\nA=1\nB=<random:0>\nC=<random>\n", &mut terminal),
        Err(Error::EmptyAlphabet { line: 4 })
    );
    let mut fine = Parser::new("x", "", &true).unwrap();
    fine.parse("# T\nB=<random:0>\n", &mut terminal).unwrap();
    assert_eq!(fine.to_string().unwrap(), "# T\nB=\n");
}

#[test]
fn blocks_are_separated_by_one_blank_line() {
    let source = "\n\n# One\nA=1\n\n\n   \n# Two\n# Second block\nB={A}{C}\nC=<random:3>  # ignored\n";
    let mut parser = Parser::new("x", "z", &true).unwrap();
    let mut terminal = Terminal::new("");
    parser.parse(source, &mut terminal).unwrap();
    assert_eq!(parser.blocks.len(), 2);
    assert_eq!(parser.blocks().len(), 2);
    assert_eq!(
        parser.to_string().unwrap(),
        "# One\nA=1\n\n# Two\n# Second block\nB={A}zzz\nC=zzz\n"
    );
    assert_eq!(terminal.written().len(), 0);
    assert_eq!(Parser::new("x", "z", &true).unwrap().to_string().unwrap(), "");
}

#[test]
fn carriage_returns_and_indentation_are_trimmed() {
    let (parser, _, result) = parse("#   Title  \r\n  A=1\r\n", "");
    result.unwrap();
    assert_eq!(parser.to_string().unwrap(), "# Title\nA=1\n");
}

#[test]
fn lines_can_be_fed_one_by_one() {
    let mut parser = Parser::new("x", "ab", &false).unwrap();
    assert_eq!(parser.path(), "x");
    assert!(!parser.use_default());
    assert_eq!(parser.accept(1, "# T"), Ok(false));
    assert_eq!(parser.accept(2, "A=<random:4>"), Ok(false));
    assert_eq!(parser.accept(3, "B=b"), Ok(false));
    assert_eq!(parser.end_of_input(3), Ok(()));
    assert_eq!(parser.accept(4, " \t "), Ok(true));
    let mut block = parser.take_block().unwrap();
    assert!(parser.take_block().is_none());
    assert_eq!(parser.end_of_input(4), Ok(()));
    assert_eq!(block.variables.len(), 2);
    for variable in block.variables.iter_mut() {
        if let VariableType::Input(var) = variable {
            assert!(var.needs_input(false));
            assert_eq!(var.prompt(), "B [b]: ");
            assert_eq!(var.answer(Some("c\n")), Ok(true));
        }
    }
    block.load_contexts().unwrap();
    parser.push_block(block);
    let text = parser.to_string().unwrap();
    assert!(text.starts_with("# T\nA="));
    assert!(text.ends_with("\nB=c\n"));
    parser.flush(&mut Terminal::new("")).unwrap();
    assert_eq!(parser.blocks.len(), 1);
}

#[test]
fn parse_variable_classifies_and_draws() {
    let parser = Parser::new("x", "q", &false).unwrap();
    let random = parser.parse_variable(7, "KEY=<random:5>").unwrap();
    assert!(matches!(random, VariableType::Random(_)));
    assert_eq!(random.as_text().unwrap(), "KEY=qqqqq");
    let auto = parser.parse_variable(7, "A={B}").unwrap();
    assert!(matches!(auto, VariableType::AutoGenerated(_)));
    let simple = parser.parse_variable(7, "A=b  # c").unwrap();
    assert!(matches!(simple, VariableType::Input(_)));
    assert_eq!(simple.as_text().unwrap(), "A=b");
    assert_eq!(
        parser.parse_variable(7, "=b").unwrap_err(),
        Error::MalformedVariableLine {
            line: 7,
            text: "=b".to_string()
        }
    );
    assert_eq!(
        parser
            .parse_random_variable(9, "K", None)
            .unwrap()
            .key(),
        "K"
    );
}

#[test]
fn whole_run_gives_the_text_of_the_configuration() {
    let mut terminal = Terminal::new("World\nFalse\n");
    let text = parser(SAMPLE, &mut terminal).unwrap();
    assert!(text.starts_with(
        "# Createnv\n# This is a simple example of how Createnv works\nNAME=World\nGREETING=Hello, World!\nDO_YOU_LIKE_OPEN_SOURCE=False\nPASSWORD="
    ));
    assert_eq!(
        parser("NAME=1", &mut terminal),
        Err(Error::MalformedTitle {
            line: 1,
            text: "NAME=1".to_string()
        })
    );
}

#[test]
fn messages_name_the_line_and_give_a_hint() {
    let title = Error::MalformedTitle {
        line: 12,
        text: "oops".to_string(),
    };
    assert_eq!(
        title.to_string(),
        format!("Unexpected title on line 12: oops\nHint: {}", HELP_TITLE)
    );
    let variable = Error::MalformedVariableLine {
        line: 3,
        text: "a=b".to_string(),
    };
    assert_eq!(
        variable.to_string(),
        format!("Invalid variable line on line 3: a=b\nHint: {}", HELP_VARIABLE)
    );
    let truncated = Error::TruncatedBlock {
        line: 100,
        expecting: Expecting::DescriptionOrVariables,
    };
    assert_eq!(
        truncated.to_string(),
        format!(
            "Unexpected EOF while expecting a block description or a variable line at line 100: the last block has no variables\nHint: {}",
            HELP_DESCRIPTION
        )
    );
    assert_eq!(Expecting::Title.to_string(), "expecting a block title");
    assert_eq!(Expecting::Variables.to_string(), "expecting a variable line");
    assert_eq!(Expecting::Title.hint(), HELP_TITLE);
    assert_eq!(Expecting::Variables.hint(), HELP_VARIABLE);
    assert_eq!(
        Error::EmptyAlphabet { line: 0 }.to_string(),
        "Random value on line 0 cannot be drawn from an empty set of characters"
    );
}
