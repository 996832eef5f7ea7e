use createnv::context::{substitute, Context};
use createnv::error::Error;
use createnv::model::{
    AutoGeneratedVariable, Block, Comment, SimpleVariable, VariableType, VariableWithRandomValue,
    DEFAULT_RANDOM_CHARS,
};
use createnv::model_to_text;
use createnv::random::{random_length, random_string, MAX_RANDOM_LENGTH, MIN_RANDOM_LENGTH};
use createnv::terminal::Terminal;

#[test]
fn test_title() {
    let line = Comment::new("Forty-two");
    assert_eq!(line.to_string(), "# Forty-two")
}

#[test]
fn test_variable() {
    let mut var = SimpleVariable::new("ANSWER", None, None);
    var.ask_for_input(&mut Terminal::new("42")).unwrap();
    assert_eq!(var.as_text().unwrap(), "ANSWER=42")
}

#[test]
fn test_empty_variable_with_default_value() {
    let var = SimpleVariable::new("ANSWER", Some("42"), None);
    assert_eq!(var.as_text().unwrap(), "ANSWER=42")
}

#[test]
fn test_variable_with_default_value_and_input() {
    let mut var = SimpleVariable::new("ANSWER", Some("42"), None);
    var.ask_for_input(&mut Terminal::new("forty two")).unwrap();
    assert_eq!(var.as_text().unwrap(), "ANSWER=forty two")
}

#[test]
fn test_auto_generated_variable() {
    let mut var = AutoGeneratedVariable::new("ANSWER", "{FIRST} {SECOND}");
    let mut ctx = Context::new();
    ctx.insert("FIRST".to_string(), "Forty".to_string());
    ctx.insert("SECOND".to_string(), "two".to_string());
    var.load_context(&ctx);
    assert_eq!(var.as_text().unwrap(), "ANSWER=Forty two")
}

#[test]
fn test_variable_with_random_value() {
    let var = VariableWithRandomValue::new("ANSWER", None);
    let got = var.as_text().unwrap();
    let suffix = got.strip_prefix("ANSWER=").unwrap();
    assert!(suffix.chars().count() >= 64);
    assert!(suffix.chars().count() <= 128);
    let prefix = got.strip_suffix(suffix).unwrap();
    assert_eq!(prefix, "ANSWER=")
}

#[test]
fn test_variable_with_random_value_of_fixed_length() {
    let var = VariableWithRandomValue::new("ANSWER", Some(42));
    let got = var.as_text().unwrap();
    let suffix = got.strip_prefix("ANSWER=").unwrap();
    assert_eq!(suffix.chars().count(), 42);
    let prefix = got.strip_suffix(suffix).unwrap();
    assert_eq!(prefix, "ANSWER=")
}

#[test]
fn test_block_with_description() {
    let title = Comment::new("42");
    let description = Some(Comment::new("Forty-two"));
    let mut variable1 = SimpleVariable::new("ANSWER", None, None);
    variable1.ask_for_input(&mut Terminal::new("42")).unwrap();
    let variable2 = SimpleVariable::new("AS_TEXT", Some("forty two"), None);
    let mut block = Block::new(title, description);
    block.push(VariableType::Input(variable1)).unwrap();
    block.push(VariableType::Input(variable2)).unwrap();
    let got = block.as_text().unwrap();
    assert_eq!(got, "# 42\n# Forty-two\nANSWER=42\nAS_TEXT=forty two")
}

#[test]
fn comment_renders_with_a_hash_and_a_space() {
    assert_eq!(Comment::new("").to_string(), "# ");
    assert_eq!(Comment::new("a # b").to_string(), "# a # b");
}

#[test]
fn prompt_shows_help_or_name_and_the_default() {
    assert_eq!(SimpleVariable::new("A", None, None).prompt(), "A: ");
    assert_eq!(SimpleVariable::new("A", Some("x"), None).prompt(), "A [x]: ");
    assert_eq!(
        SimpleVariable::new("A", None, Some("Which?")).prompt(),
        "Which?: "
    );
    assert_eq!(
        SimpleVariable::new("A", Some("x"), Some("Which?")).prompt(),
        "Which? [x]: "
    );
}

#[test]
fn input_wins_over_default() {
    let mut var = SimpleVariable::new("A", Some("x"), None);
    assert_eq!(var.value().unwrap(), "x");
    assert_eq!(var.answer(Some("  y \n")), Ok(true));
    assert_eq!(var.value().unwrap(), "y");
    assert_eq!(var.key(), "A");
}

#[test]
fn variable_without_value_is_an_error() {
    let var = SimpleVariable::new("A", None, Some("help"));
    let expected = Error::UnresolvedRequiredVariable {
        name: "A".to_string(),
    };
    assert_eq!(var.value(), Err(expected.clone()));
    assert_eq!(var.as_text(), Err(expected.clone()));
    assert_eq!(expected.to_string(), "Variable A has no value");
}

#[test]
fn blank_answer_keeps_the_default_or_asks_again() {
    let mut with_default = SimpleVariable::new("A", Some("x"), None);
    assert_eq!(with_default.answer(Some("   \n")), Ok(true));
    assert_eq!(with_default.value().unwrap(), "x");
    assert_eq!(with_default.answer(None), Ok(true));

    let mut without = SimpleVariable::new("A", None, None);
    assert_eq!(without.answer(Some("\n")), Ok(false));
    assert_eq!(
        without.answer(None),
        Err(Error::UnresolvedRequiredVariable {
            name: "A".to_string()
        })
    );
}

#[test]
fn asking_repeats_the_prompt_until_an_answer_comes() {
    let mut var = SimpleVariable::new("A", None, None);
    let mut terminal = Terminal::new("\n  \nlast\nnot read\n");
    var.ask_for_input(&mut terminal).unwrap();
    assert_eq!(var.value().unwrap(), "last");
    assert_eq!(
        terminal.written(),
        &vec!["A: ".to_string(), "A: ".to_string(), "A: ".to_string()]
    );
    assert_eq!(terminal.read_line(), Some("not read".to_string()));
    assert_eq!(terminal.read_line(), None);
}

#[test]
fn asking_fails_when_the_input_ends_without_default() {
    let mut var = SimpleVariable::new("A", None, None);
    let mut terminal = Terminal::new("\n");
    assert_eq!(
        var.ask_for_input(&mut terminal),
        Err(Error::UnresolvedRequiredVariable {
            name: "A".to_string()
        })
    );
    assert_eq!(terminal.written().len(), 2);
}

#[test]
fn needs_input_depends_on_default_and_flag() {
    let mut bare = SimpleVariable::new("A", None, None);
    let with_default = SimpleVariable::new("A", Some("x"), None);
    assert!(bare.needs_input(false));
    assert!(bare.needs_input(true));
    assert!(with_default.needs_input(false));
    assert!(!with_default.needs_input(true));
    bare.answer(Some("v")).unwrap();
    assert!(!bare.needs_input(false));
    assert!(!bare.needs_input(true));
}

#[test]
fn absent_name_leaves_the_placeholder_untouched() {
    let mut var = AutoGeneratedVariable::new("ANSWER", "{FIRST} {THIRD}{");
    let mut ctx = Context::new();
    ctx.insert("FIRST".to_string(), "Forty".to_string());
    ctx.insert("SECOND".to_string(), "two".to_string());
    var.load_context(&ctx);
    assert_eq!(var.value().unwrap(), "Forty {THIRD}{");
    assert_eq!(var.key(), "ANSWER");
}

#[test]
fn substitution_is_one_pass_from_left_to_right() {
    let mut ctx = Context::new();
    ctx.insert("A".to_string(), "{B}".to_string());
    ctx.insert("B".to_string(), "x".to_string());
    assert_eq!(substitute("{A}{B}", &ctx), "{B}x");
    assert_eq!(substitute("{{A}}", &ctx), "{{B}}");
    assert_eq!(substitute("{A", &ctx), "{A");
    assert_eq!(substitute("A}", &ctx), "A}");
    assert_eq!(substitute("{}", &ctx), "{}");
    assert_eq!(substitute("", &ctx), "");
    assert_eq!(substitute("{C}", &Context::new()), "{C}");
}

#[test]
fn later_binding_replaces_an_earlier_one() {
    let mut ctx = Context::new();
    ctx.insert("A".to_string(), "1".to_string());
    ctx.insert("A".to_string(), "2".to_string());
    assert_eq!(ctx.get(&"A".to_string()), Some(&"2".to_string()));
    assert_eq!(ctx.get(&"B".to_string()), None);
    let mut other = Context::new();
    other.insert("A".to_string(), "3".to_string());
    other.insert("B".to_string(), "4".to_string());
    ctx.extend(&other);
    assert_eq!(substitute("{A}{B}", &ctx), "34");
}

#[test]
fn random_value_is_made_of_the_alphabet() {
    let var = VariableWithRandomValue::with_alphabet("K", "ab", Some(256)).unwrap();
    let value = var.value().unwrap();
    assert_eq!(value.chars().count(), 256);
    assert!(value.chars().all(|c| c == 'a' || c == 'b'));
    assert!(value.contains('a'));
    assert!(value.contains('b'));
    let default = VariableWithRandomValue::new("K", Some(300)).value().unwrap();
    assert!(default.chars().all(|c| DEFAULT_RANDOM_CHARS.contains(c)));
}

#[test]
fn random_value_of_an_empty_alphabet() {
    assert!(VariableWithRandomValue::with_alphabet("K", "", Some(1)).is_none());
    assert!(VariableWithRandomValue::with_alphabet("K", "", None).is_none());
    let empty = VariableWithRandomValue::with_alphabet("K", "", Some(0)).unwrap();
    assert_eq!(empty.as_text().unwrap(), "K=");
    assert_eq!(
        VariableWithRandomValue::new("K", Some(-3)).as_text().unwrap(),
        "K="
    );
}

#[test]
fn random_length_lies_between_the_bounds() {
    for _ in 0..200 {
        let n = random_length();
        assert!((MIN_RANDOM_LENGTH..=MAX_RANDOM_LENGTH).contains(&n));
    }
    assert_eq!(random_string("x", 5), Some("xxxxx".to_string()));
    assert_eq!(random_string("", 0), Some(String::new()));
    assert_eq!(random_string("", 2), None);
}

#[test]
fn given_value_is_kept() {
    let var = VariableWithRandomValue::with_value("K", "s3cr3t");
    assert_eq!(var.as_text().unwrap(), "K=s3cr3t");
}

#[test]
fn block_without_description() {
    let mut block = Block::new(Comment::new("T"), None);
    assert!(!block.has_auto_generated_variables());
    assert_eq!(block.as_text().unwrap(), "# T");
    block
        .push(VariableType::AutoGenerated(AutoGeneratedVariable::new(
            "A", "{B}!",
        )))
        .unwrap();
    block
        .push(VariableType::Input(SimpleVariable::new("B", None, None)))
        .unwrap();
    assert!(block.has_auto_generated_variables());
    assert_eq!(
        block.as_text(),
        Err(Error::UnresolvedRequiredVariable {
            name: "B".to_string()
        })
    );
    block.resolve(&mut Terminal::new("b\n"), false).unwrap();
    assert_eq!(block.as_text().unwrap(), "# T\nA=b!\nB=b");
}

#[test]
fn resolving_asks_in_order_and_reads_forward_and_backward() {
    let mut block = Block::new(Comment::new("T"), None);
    for variable in [
        VariableType::AutoGenerated(AutoGeneratedVariable::new("FIRST", "{SECOND}-{FOURTH}-{FIRST}")),
        VariableType::Input(SimpleVariable::new("SECOND", None, Some("Second"))),
        VariableType::Input(SimpleVariable::new("THIRD", Some("three"), None)),
        VariableType::Random(VariableWithRandomValue::with_value("FOURTH", "4444")),
        VariableType::AutoGenerated(AutoGeneratedVariable::new("FIFTH", "{THIRD}{SECOND}")),
    ] {
        block.push(variable).unwrap();
    }
    let mut terminal = Terminal::new("two\n\nextra\n");
    block.resolve(&mut terminal, false).unwrap();
    assert_eq!(
        terminal.written(),
        &vec!["Second: ".to_string(), "THIRD [three]: ".to_string()]
    );
    assert_eq!(terminal.read_line(), Some("extra".to_string()));
    assert_eq!(
        block.as_text().unwrap(),
        "# T\nFIRST=two-4444-{FIRST}\nSECOND=two\nTHIRD=three\nFOURTH=4444\nFIFTH=threetwo"
    );
}

#[test]
fn defaults_are_taken_without_asking_when_told_so() {
    let mut block = Block::new(Comment::new("T"), None);
    block
        .push(VariableType::Input(SimpleVariable::new("A", Some("a"), None)))
        .unwrap();
    block
        .push(VariableType::Input(SimpleVariable::new("B", None, None)))
        .unwrap();
    let mut terminal = Terminal::new("b\n");
    block.resolve(&mut terminal, true).unwrap();
    assert_eq!(terminal.written(), &vec!["B: ".to_string()]);
    assert_eq!(block.as_text().unwrap(), "# T\nA=a\nB=b");
}

#[test]
fn resolving_fails_at_the_first_variable_that_cannot_be_settled() {
    let mut block = Block::new(Comment::new("T"), None);
    for name in ["A", "B", "C"] {
        block
            .push(VariableType::Input(SimpleVariable::new(name, None, None)))
            .unwrap();
    }
    let mut terminal = Terminal::new("a\n");
    assert_eq!(
        block.resolve(&mut terminal, false),
        Err(Error::UnresolvedRequiredVariable {
            name: "B".to_string()
        })
    );
    assert_eq!(block.variables[0].value().unwrap(), "a");
    assert!(block.variables[2].value().is_err());
    assert_eq!(terminal.written().len(), 2);
}

#[test]
fn resolving_with_every_input_given_asks_nothing() {
    let build = || {
        let mut block = Block::new(Comment::new("T"), Some(Comment::new("D")));
        let mut a = SimpleVariable::new("A", None, None);
        a.answer(Some("1")).unwrap();
        let mut b = SimpleVariable::new("B", Some("x"), Some("help"));
        b.answer(Some("2")).unwrap();
        block.push(VariableType::Input(a)).unwrap();
        block.push(VariableType::Input(b)).unwrap();
        block
            .push(VariableType::AutoGenerated(AutoGeneratedVariable::new(
                "C", "{A}{B}",
            )))
            .unwrap();
        block
    };
    let mut silent = Terminal::new("");
    let mut talkative = Terminal::new("x\ny\nz\n");
    let mut first = build();
    let mut second = build();
    first.resolve(&mut silent, false).unwrap();
    second.resolve(&mut talkative, true).unwrap();
    assert_eq!(silent.written().len(), 0);
    assert_eq!(talkative.written().len(), 0);
    assert_eq!(talkative.read_line(), Some("x".to_string()));
    assert_eq!(first.as_text().unwrap(), "# T\n# D\nA=1\nB=2\nC=12");
    assert_eq!(first.as_text().unwrap(), second.as_text().unwrap());
}

#[test]
fn loading_contexts_needs_a_value_for_every_other_variable() {
    let mut block = Block::new(Comment::new("T"), None);
    block
        .push(VariableType::Input(SimpleVariable::new("A", None, None)))
        .unwrap();
    assert_eq!(block.load_contexts(), Ok(()));
    block
        .push(VariableType::AutoGenerated(AutoGeneratedVariable::new(
            "B", "{A}",
        )))
        .unwrap();
    assert_eq!(
        block.load_contexts(),
        Err(Error::UnresolvedRequiredVariable {
            name: "A".to_string()
        })
    );
    assert!(block.context().is_err());
}

#[test]
fn terminal_splits_its_input_into_lines() {
    let mut terminal = Terminal::new("a\n\nb");
    assert_eq!(terminal.read_line(), Some("a".to_string()));
    assert_eq!(terminal.read_line(), Some("".to_string()));
    assert_eq!(terminal.read_line(), Some("b".to_string()));
    assert_eq!(terminal.read_line(), None);
    assert_eq!(terminal.read_line(), None);
    terminal.write("p");
    assert_eq!(terminal.written(), &vec!["p".to_string()]);
}

#[test]
fn sample_block_is_resolved_and_announced() {
    let mut terminal = Terminal::new("42\ntext\n\n\n");
    let text = model_to_text(&mut terminal).unwrap();
    let head = "\nThis would be written to .env:\n\n# Here comes a new block!\n# And here comes a description about it.\nAUTO_GENERATED=42-default value\nANSWER=42\nAS_TEXT=text\nDEFAULT_VALUE_ONE=default value\nDEFAULT_VALUE_TWO=default\nSECRET_KEY=";
    let secret = text.strip_prefix(head).unwrap();
    assert_eq!(secret.chars().count(), 16);
    assert!(secret.chars().all(|c| DEFAULT_RANDOM_CHARS.contains(c)));
    assert_eq!(
        terminal.written(),
        &vec![
            "If you read that book, you know!: ".to_string(),
            "AS_TEXT: ".to_string(),
            "DEFAULT_VALUE_ONE [default value]: ".to_string(),
            "DEFAULT_VALUE_TWO [default]: ".to_string(),
        ]
    );
    assert!(model_to_text(&mut Terminal::new("42\n")).is_err());
}
