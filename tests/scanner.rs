use lsbasi::{detect_char_type, ErrorKind, Interpreter, Token, Type};

fn check(c: char, expected: Type) {
    assert_eq!(detect_char_type(&c), Some(expected));
}

#[test]
fn parse_zero() {
    check('0', Type::Integer);
}

#[test]
fn parse_one() {
    check('1', Type::Integer);
}

#[test]
fn parse_two() {
    check('2', Type::Integer);
}

#[test]
fn parse_three() {
    check('3', Type::Integer);
}

#[test]
fn parse_four() {
    check('4', Type::Integer);
}

#[test]
fn parse_five() {
    check('5', Type::Integer);
}

#[test]
fn parse_six() {
    check('6', Type::Integer);
}

#[test]
fn parse_seven() {
    check('7', Type::Integer);
}

#[test]
fn parse_eight() {
    check('8', Type::Integer);
}

#[test]
fn parse_nine() {
    check('9', Type::Integer);
}

#[test]
fn parse_minus() {
    check('-', Type::Minus);
}

#[test]
fn parse_plus() {
    check('+', Type::Plus);
}

#[test]
fn parse_star() {
    check('*', Type::Mul);
}

#[test]
fn parse_slash() {
    check('/', Type::Div);
}

#[test]
fn parse_newline() {
    check('\n', Type::Eof);
}

#[test]
fn parse_space() {
    check(' ', Type::Whitespace);
}

#[test]
fn unknown_character_is_not_classified() {
    assert_eq!(detect_char_type(&'a'), None);
    assert_eq!(detect_char_type(&'\t'), None);
    assert_eq!(detect_char_type(&'\u{e9}'), None);
}

fn texts(tokens: &[Token]) -> Vec<String> {
    tokens.iter().map(|t| t.value.clone().unwrap()).collect()
}

#[test]
fn tokens_of_a_line() {
    let tokens = Interpreter::tokenize(" 12 +3*\n").unwrap();
    let kinds: Vec<Type> = tokens.iter().map(|t| t.kind).collect();
    assert_eq!(kinds, vec![Type::Integer, Type::Plus, Type::Integer, Type::Mul, Type::Eof]);
    assert_eq!(texts(&tokens), vec!["12", "+", "3", "*", "\n"]);
}

#[test]
fn adjacent_operators_are_separate_tokens() {
    let tokens = Interpreter::tokenize("1++").unwrap();
    assert_eq!(texts(&tokens), vec!["1", "+", "+"]);
}

#[test]
fn spaces_split_digit_runs() {
    let tokens = Interpreter::tokenize("1 2").unwrap();
    assert_eq!(texts(&tokens), vec!["1", "2"]);
}

#[test]
fn scanning_stops_at_line_end() {
    let tokens = Interpreter::tokenize("7\n\n").unwrap();
    assert_eq!(texts(&tokens), vec!["7", "\n"]);
    let tokens = Interpreter::tokenize("1\na").unwrap();
    assert_eq!(texts(&tokens), vec!["1", "\n"]);
    assert_eq!(tokens[1].kind, Type::Eof);
}

#[test]
fn empty_and_blank_lines_have_no_tokens() {
    assert_eq!(Interpreter::tokenize("").unwrap().len(), 0);
    assert_eq!(Interpreter::tokenize("   ").unwrap().len(), 0);
}

#[test]
fn invalid_character_fails_the_scan() {
    let err = Interpreter::tokenize("1 + x").err().unwrap();
    assert_eq!(err.kind(), ErrorKind::InvalidCharacter);
}

#[test]
fn scan_round_trip() {
    for line in [" 12 + 3 *4 \n", "4/2*5+5-3", "1 1 +", "  ", "7\n"] {
        let tokens = Interpreter::tokenize(line).unwrap();
        let joined: String = texts(&tokens).concat();
        let expected: String = line.chars().filter(|c| *c != ' ').collect();
        assert_eq!(joined, expected);
    }
}
