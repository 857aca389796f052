use sexpr_eval::tokens::Token;
use sexpr_eval::tokens::tokenize;

#[test]
fn simple_tokenizing_works() {
    let tokens = tokenize("(+ 1 1)");
    assert_eq!(tokens.len(), 7);
    assert_eq!(tokens.get(0).unwrap(), &Token::OpenParen);
    assert_eq!(tokens.get(1).unwrap(), &Token::Atom(String::from("+")));
    assert_eq!(tokens.get(2).unwrap(), &Token::Whitespace);
    assert_eq!(tokens.get(3).unwrap(), &Token::Atom(String::from("1")));
    assert_eq!(tokens.get(4).unwrap(), &Token::Whitespace);
    assert_eq!(tokens.get(5).unwrap(), &Token::Atom(String::from("1")));
    assert_eq!(tokens.get(6).unwrap(), &Token::CloseParen);
}

#[test]
fn complex_tokenizing_works() {
    let tokens = tokenize("(+ 1 (- 5 2))");
    assert_eq!(tokens.len(), 13);
    assert_eq!(tokens.get(0).unwrap(), &Token::OpenParen);
    assert_eq!(tokens.get(1).unwrap(), &Token::Atom(String::from("+")));
    assert_eq!(tokens.get(2).unwrap(), &Token::Whitespace);
    assert_eq!(tokens.get(3).unwrap(), &Token::Atom(String::from("1")));
    assert_eq!(tokens.get(4).unwrap(), &Token::Whitespace);

    assert_eq!(tokens.get(5).unwrap(), &Token::OpenParen);
    assert_eq!(tokens.get(6).unwrap(), &Token::Atom(String::from("-")));
    assert_eq!(tokens.get(7).unwrap(), &Token::Whitespace);
    assert_eq!(tokens.get(8).unwrap(), &Token::Atom(String::from("5")));
    assert_eq!(tokens.get(9).unwrap(), &Token::Whitespace);
    assert_eq!(tokens.get(10).unwrap(), &Token::Atom(String::from("2")));
    assert_eq!(tokens.get(11).unwrap(), &Token::CloseParen);

    assert_eq!(tokens.get(12).unwrap(), &Token::CloseParen);
}

#[test]
fn tokenizing_the_empty_text_yields_nothing() {
    let tokens = tokenize("");
    assert_eq!(tokens.len(), 0);
}

#[test]
fn contiguous_characters_batch_into_one_atom() {
    let tokens = tokenize("ab*");
    assert_eq!(tokens.len(), 1);
    assert_eq!(tokens.get(0).unwrap(), &Token::Atom(String::from("ab*")));
}

#[test]
fn a_multi_digit_number_is_one_atom() {
    let tokens = tokenize("(- 10 1)");
    assert_eq!(tokens.len(), 7);
    assert_eq!(tokens.get(0).unwrap(), &Token::OpenParen);
    assert_eq!(tokens.get(1).unwrap(), &Token::Atom(String::from("-")));
    assert_eq!(tokens.get(2).unwrap(), &Token::Whitespace);
    assert_eq!(tokens.get(3).unwrap(), &Token::Atom(String::from("10")));
    assert_eq!(tokens.get(4).unwrap(), &Token::Whitespace);
    assert_eq!(tokens.get(5).unwrap(), &Token::Atom(String::from("1")));
    assert_eq!(tokens.get(6).unwrap(), &Token::CloseParen);
}
