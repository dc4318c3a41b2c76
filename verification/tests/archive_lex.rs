use bobtools::boblc::archive::lex::{lex, LexError, Token};

fn into_strings(tokens: Vec<Token>) -> Vec<String> {
    tokens
        .into_iter()
        .map(|Token { val, line }| format!("{line}: {val}"))
        .collect()
}

#[test]
fn basic_tokens() {
    assert_eq!(
        into_strings(lex("func main\n    \"foo bar\" puts // prints foo bar\nend").unwrap()),
        vec!["1: func", "1: main", "2: \"foo bar\"", "2: puts", "3: end"]
    );
}

#[test]
fn string_with_extra_internal_whitespace_is_preserved_exactly() {
    assert_eq!(
        into_strings(lex(r#""foo  bar" puts"#).unwrap()),
        vec!["1: \"foo  bar\"", "1: puts"]
    );
}

#[test]
fn slashes_inside_a_string_are_not_a_comment() {
    assert_eq!(
        into_strings(lex(r#""http://example.com" puts"#).unwrap()),
        vec!["1: \"http://example.com\"", "1: puts"]
    );
}

#[test]
fn comment_after_a_string_is_still_stripped() {
    assert_eq!(
        into_strings(lex(r#""foo" puts // this // has slashes too"#).unwrap()),
        vec!["1: \"foo\"", "1: puts"]
    );
}

#[test]
fn unterminated_string_is_an_error() {
    assert!(matches!(
        lex("\"never closed"),
        Err(LexError::UnterminatedString { line: 1 })
    ));
}

#[test]
fn escaped_quote_inside_string() {
    assert_eq!(
        into_strings(lex(r#""say \"hi\"" puts"#).unwrap()),
        vec!["1: \"say \"hi\"\"", "1: puts"]
    );
}

#[test]
fn single_slash_is_part_of_a_word() {
    assert_eq!(into_strings(lex("a/b 1 /").unwrap()), vec!["1: a/b", "1: 1", "1: /"]);
}

#[test]
fn string_ends_the_word_before_it() {
    assert_eq!(into_strings(lex("ab\"c\"d").unwrap()), vec!["1: ab", "1: \"c\"", "1: d"]);
}

#[test]
fn newline_inside_string_is_an_error_on_its_line() {
    assert!(matches!(
        lex("x\n\"open\nclose\""),
        Err(LexError::UnterminatedString { line: 2 })
    ));
}
