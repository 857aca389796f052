//! Lexical scanning: raw text becomes a flat sequence of tokens.
//!
//! The scanner is total and processes the input left to right, one character
//! at a time: `(` and `)` become the structural parenthesis tokens and a
//! single space becomes `Whitespace`. Contiguous runs of all other
//! characters are batched into one `Atom`, so that a multi-digit number is
//! one operand. (The alternative policy, one atom per character, would read
//! `10` as two operands.)

use vstd::prelude::*;
use vstd::string::StrSliceExecFns;

verus! {

/// A lexical token: a structural parenthesis, a single space, or an atom
/// holding a maximal run of other characters as its text.
#[derive(Debug, PartialEq, Eq)]
pub enum Token {
    OpenParen,
    CloseParen,
    Whitespace,
    Atom(String),
}

/// The mathematical shape of a [`Token`]: atom text is abstracted to its
/// character sequence.
#[verifier::ext_equal]
pub enum TokenModel {
    OpenParen,
    CloseParen,
    Whitespace,
    Atom(Seq<char>),
}

impl View for Token {
    type V = TokenModel;

    open spec fn view(&self) -> TokenModel {
        match self {
            Token::OpenParen => TokenModel::OpenParen,
            Token::CloseParen => TokenModel::CloseParen,
            Token::Whitespace => TokenModel::Whitespace,
            Token::Atom(text) => TokenModel::Atom(text@),
        }
    }
}

impl DeepView for Token {
    type V = TokenModel;

    open spec fn deep_view(&self) -> TokenModel {
        self.view()
    }
}

impl Clone for Token {
    fn clone(&self) -> (other: Token)
        ensures
            other@ == self@,
    {
        match self {
            Token::OpenParen => Token::OpenParen,
            Token::CloseParen => Token::CloseParen,
            Token::Whitespace => Token::Whitespace,
            Token::Atom(text) => Token::Atom(text.clone()),
        }
    }
}

/// The text of an atom token; other tokens have none.
pub open spec fn atom_text(token: TokenModel) -> Seq<char> {
    match token {
        TokenModel::Atom(text) => text,
        _ => Seq::empty(),
    }
}

/// One pass of the scanner from character position `i` onward, the tokens
/// scanned so far in hand. A parenthesis or a space appends its structural
/// token; any other character extends the atom that ends the token sequence,
/// or starts a new atom when none does.
pub open spec fn scan_from(text: Seq<char>, i: int, tokens: Seq<TokenModel>) -> Seq<TokenModel>
    decreases text.len() - i,
{
    if i < 0 || i >= text.len() {
        tokens
    } else {
        let c = text[i];
        if c == '(' {
            scan_from(text, i + 1, tokens.push(TokenModel::OpenParen))
        } else if c == ')' {
            scan_from(text, i + 1, tokens.push(TokenModel::CloseParen))
        } else if c == ' ' {
            scan_from(text, i + 1, tokens.push(TokenModel::Whitespace))
        } else if tokens.len() > 0 && tokens.last() matches TokenModel::Atom(_) {
            scan_from(
                text,
                i + 1,
                tokens.drop_last().push(TokenModel::Atom(atom_text(tokens.last()).push(c))),
            )
        } else {
            scan_from(text, i + 1, tokens.push(TokenModel::Atom(seq![c])))
        }
    }
}

/// What scanning a whole text yields.
pub open spec fn scan_spec(text: Seq<char>) -> Seq<TokenModel> {
    scan_from(text, 0, Seq::empty())
}

/// Relies on char::to_string: the returned string holds exactly this
/// one character.
#[verifier::external_body]
fn char_to_string(c: char) -> (text: String)
    ensures
        text@ == seq![c],
{
    c.to_string()
}

/// Relies on String::push: appends the character to the end of the string.
#[verifier::external_body]
fn push_char(text: &mut String, c: char)
    ensures
        final(text)@ == old(text)@.push(c),
{
    text.push(c)
}

/// Scans the input left to right. Total: every input yields a token
/// sequence.
pub fn tokenize(input: &str) -> (tokens: Vec<Token>)
    ensures
        tokens.deep_view() == scan_spec(input@),
{
    let length = input.unicode_len();
    let mut tokens: Vec<Token> = Vec::new();
    let mut i: usize = 0;
    proof {
        assert(tokens.deep_view() =~= Seq::<TokenModel>::empty());
    }
    while i < length
        invariant
            i <= length,
            length == input@.len(),
            scan_from(input@, i as int, tokens.deep_view()) == scan_spec(input@),
        decreases length - i,
    {
        let ghost prev_tokens = tokens.deep_view();
        let c = input.get_char(i);
        if c == '(' {
            tokens.push(Token::OpenParen);
            proof {
                assert(tokens.deep_view() =~= prev_tokens.push(TokenModel::OpenParen));
            }
        } else if c == ')' {
            tokens.push(Token::CloseParen);
            proof {
                assert(tokens.deep_view() =~= prev_tokens.push(TokenModel::CloseParen));
            }
        } else if c == ' ' {
            tokens.push(Token::Whitespace);
            proof {
                assert(tokens.deep_view() =~= prev_tokens.push(TokenModel::Whitespace));
            }
        } else {
            let pending_atom = tokens.len() > 0 && (match &tokens[tokens.len() - 1] {
                Token::Atom(_) => true,
                _ => false,
            });
            if pending_atom {
                let last = tokens.pop().unwrap();
                match last {
                    Token::Atom(mut text) => {
                        push_char(&mut text, c);
                        tokens.push(Token::Atom(text));
                        proof {
                            assert(tokens.deep_view() =~= prev_tokens.drop_last().push(
                                TokenModel::Atom(atom_text(prev_tokens.last()).push(c)),
                            ));
                        }
                    },
                    _ => {
                        // the sequence ends in an atom on this path
                        proof {
                            assert(false);
                        }
                    },
                }
            } else {
                tokens.push(Token::Atom(char_to_string(c)));
                proof {
                    assert(tokens.deep_view() =~= prev_tokens.push(TokenModel::Atom(seq![c])));
                }
            }
        }
        i = i + 1;
    }
    tokens
}

} // verus!
