use createnv::reader::{CharReader, CharType};
use createnv::tokenizer::{tokenize, Token, Tokenizer};

const SAMPLE: &str = "# Createnv
# This is a simple example of how Createnv works
NAME=  # What's your name?
GREETING=Hello, {NAME}!
DO_YOU_LIKE_OPEN_SOURCE=True  # Do you like open-source?
PASSWORD=<random:16>
";

#[test]
fn test_tokenizer() {
    let mut tokenizer = Tokenizer::new(SAMPLE);
    let mut tokens: Vec<Token> = Vec::new();
    while let Some(token) = tokenizer.next() {
        tokens.push(token);
    }
    assert_eq!(tokens.len(), 19);

    // line 1
    assert_eq!(tokens[0], Token::CommentMark(1, 1));
    assert_eq!(tokens[1], Token::Text(1, 2, "Createnv".to_string()));
    assert_eq!(tokens[2], Token::CommentMark(2, 1));

    // line 2
    assert_eq!(
        tokens[3],
        Token::Text(
            2,
            2,
            "This is a simple example of how Createnv works".to_string()
        )
    );

    // line 3
    assert_eq!(tokens[4], Token::Text(3, 1, "NAME".to_string()));
    assert_eq!(tokens[5], Token::EqualSign(3, 5));
    assert_eq!(tokens[6], Token::HelpMark(3, 6));
    assert_eq!(
        tokens[7],
        Token::Text(3, 9, "What's your name?".to_string())
    );

    // line 4
    assert_eq!(tokens[8], Token::Text(4, 1, "GREETING".to_string()));
    assert_eq!(tokens[9], Token::EqualSign(4, 9));
    assert_eq!(tokens[10], Token::Text(4, 10, "Hello, {NAME}!".to_string()));

    // line 5
    assert_eq!(
        tokens[11],
        Token::Text(5, 1, "DO_YOU_LIKE_OPEN_SOURCE".to_string())
    );
    assert_eq!(tokens[12], Token::EqualSign(5, 24));
    assert_eq!(tokens[13], Token::Text(5, 25, "True".to_string()));
    assert_eq!(tokens[14], Token::HelpMark(5, 29));
    assert_eq!(
        tokens[15],
        Token::Text(5, 32, "Do you like open-source?".to_string())
    );

    // line 6
    assert_eq!(tokens[16], Token::Text(6, 1, "PASSWORD".to_string()));
    assert_eq!(tokens[17], Token::EqualSign(6, 9));
    assert_eq!(tokens[18], Token::Text(6, 10, "<random:16>".to_string()));
}

#[test]
fn tokenize_gives_the_tokens_that_next_hands_out() {
    let all = tokenize(SAMPLE);
    let mut tokenizer = Tokenizer::new(SAMPLE);
    for expected in all.iter() {
        assert_eq!(tokenizer.next().as_ref(), Some(expected));
    }
    assert_eq!(tokenizer.next(), None);
    assert_eq!(tokenizer.next(), None);
}

#[test]
fn help_mark_stands_at_the_first_stripped_space() {
    let tokens = tokenize("NAME=  # What's your name?");
    assert_eq!(
        tokens,
        vec![
            Token::Text(1, 1, "NAME".to_string()),
            Token::EqualSign(1, 5),
            Token::HelpMark(1, 6),
            Token::Text(1, 9, "What's your name?".to_string()),
        ]
    );
}

#[test]
fn text_column_counts_characters_not_bytes() {
    let tokens = tokenize("é=ü  # ñ");
    assert_eq!(
        tokens,
        vec![
            Token::Text(1, 1, "é".to_string()),
            Token::EqualSign(1, 2),
            Token::Text(1, 3, "ü".to_string()),
            Token::HelpMark(1, 4),
            Token::Text(1, 7, "ñ".to_string()),
        ]
    );
}

#[test]
fn hash_without_two_spaces_is_text() {
    let tokens = tokenize("A=b #c");
    assert_eq!(
        tokens,
        vec![
            Token::Text(1, 1, "A".to_string()),
            Token::EqualSign(1, 2),
            Token::Text(1, 3, "b #c".to_string()),
        ]
    );
}

#[test]
fn blank_lines_give_no_token() {
    assert_eq!(tokenize(""), vec![]);
    assert_eq!(tokenize("\n\n\n"), vec![]);
    assert_eq!(
        tokenize("\n\n#\n\n"),
        vec![Token::CommentMark(3, 1)]
    );
}

#[test]
fn reader_hands_out_characters_lines_and_the_end() {
    let mut reader = CharReader::new("ab\n\nc");
    assert_eq!((reader.line(), reader.column()), (0, 0));
    assert_eq!(reader.next(), CharType::Char('a'));
    assert_eq!((reader.line(), reader.column()), (1, 1));
    assert_eq!(reader.next(), CharType::Char('b'));
    assert_eq!((reader.line(), reader.column()), (1, 2));
    assert_eq!(reader.next(), CharType::Eol);
    assert_eq!((reader.line(), reader.column()), (1, 2));
    assert_eq!(reader.next(), CharType::Eol);
    assert_eq!((reader.line(), reader.column()), (2, 0));
    assert_eq!(reader.next(), CharType::Char('c'));
    assert_eq!((reader.line(), reader.column()), (3, 1));
    assert_eq!(reader.next(), CharType::Eol);
    assert_eq!(reader.next(), CharType::Eof);
    assert_eq!(reader.next(), CharType::Eof);
    assert_eq!((reader.line(), reader.column()), (3, 1));
}

#[test]
fn reader_counts_a_multibyte_character_as_one_column() {
    let mut reader = CharReader::new("é√");
    assert_eq!(reader.next(), CharType::Char('é'));
    assert_eq!(reader.column(), 1);
    assert_eq!(reader.next(), CharType::Char('√'));
    assert_eq!(reader.column(), 2);
}

#[test]
fn error_prefix_names_the_place_of_the_token() {
    let tokens = tokenize(SAMPLE);
    let path = "dir/.env.sample".to_string();
    assert_eq!(tokens[0].error_prefix(&path), "dir/.env.sample:1:1");
    assert_eq!(tokens[15].error_prefix(&path), "dir/.env.sample:5:32");
    assert_eq!((tokens[14].line(), tokens[14].column()), (5, 29));
    assert_eq!((tokens[12].line(), tokens[12].column()), (5, 24));
}

#[test]
fn text_of_blanks_is_an_empty_text() {
    assert_eq!(
        tokenize("A= \n"),
        vec![
            Token::Text(1, 1, "A".to_string()),
            Token::EqualSign(1, 2),
            Token::Text(1, 3, "".to_string()),
        ]
    );
    assert_eq!(
        tokenize("  #h"),
        vec![Token::HelpMark(1, 1), Token::Text(1, 4, "h".to_string())]
    );
    assert_eq!(
        tokenize("a  #=#"),
        vec![
            Token::Text(1, 1, "a".to_string()),
            Token::HelpMark(1, 2),
            Token::EqualSign(1, 5),
            Token::Text(1, 6, "#".to_string()),
        ]
    );
}

#[test]
fn text_comes_before_the_mark_that_closed_it() {
    let mut tokenizer = Tokenizer::new("A=b\n\n\n");
    assert_eq!(tokenizer.next(), Some(Token::Text(1, 1, "A".to_string())));
    assert_eq!(tokenizer.next(), Some(Token::EqualSign(1, 2)));
    assert_eq!(tokenizer.next(), Some(Token::Text(1, 3, "b".to_string())));
    assert_eq!(tokenizer.next(), None);
    assert_eq!(tokenizer.next(), None);
}
