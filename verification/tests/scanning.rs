use char_lex::error::{Error, OutOfBounds};
use char_lex::prelude::LexErr;
use char_lex::utils::Context;
use char_lex::{Lexer, TokenMatch, TokenTrait, TokenWrapper};

#[derive(Debug, Clone, Copy, PartialEq)]
enum Token {
    Whitespace,
    Digit(Digit),
}

impl TokenTrait for Token {
    fn matched(c: char) -> Option<Self> {
        Self::match_char(c)
    }

    fn eq_is_structural(_a: &Self, _b: &Self) {}

    fn match_char(c: char) -> Option<Self> {
        match c {
            ' ' | '\t' | '\r' | '\n' => Some(Self::Whitespace),
            _ => {
                if let Some(field) = Digit::match_char(c) {
                    Some(Self::Digit(field))
                } else {
                    None
                }
            }
        }
    }
}

#[derive(Debug, Clone, Copy, PartialEq)]
enum Digit {
    Zero,
    One,
    Two,
    Three,
    Four,
    Five,
    Six,
    Seven,
    Eight,
    Nine,
}

impl TokenTrait for Digit {
    fn matched(c: char) -> Option<Self> {
        Self::match_char(c)
    }

    fn eq_is_structural(_a: &Self, _b: &Self) {}

    fn match_char(c: char) -> Option<Self> {
        match c {
            '0' => Some(Self::Zero),
            '1' => Some(Self::One),
            '2' => Some(Self::Two),
            '3' => Some(Self::Three),
            '4' => Some(Self::Four),
            '5' => Some(Self::Five),
            '6' => Some(Self::Six),
            '7' => Some(Self::Seven),
            '8' => Some(Self::Eight),
            '9' => Some(Self::Nine),
            _ => None,
        }
    }
}

#[derive(Debug, Clone, Copy, PartialEq)]
struct Placed {
    token: Token,
    context: Context,
}

impl TokenWrapper<Token> for Placed {
    fn wrapped(token: Token, context: Context) -> Self {
        Self::wrap(token, context)
    }

    fn wrap(token: Token, context: Context) -> Self {
        Self { token, context }
    }
}

fn placed(token: Token, character: char, line: usize, column: usize) -> Placed {
    Placed {
        token,
        context: Context::new(character, (line, column)),
    }
}

#[test]
fn digits_are_pulled_one_per_character() {
    let mut lexer: Lexer<Digit, Digit> = Lexer::new("189");
    assert!(lexer.has_room());
    assert_eq!(Some(Digit::One), lexer.next());
    assert_eq!(Some(Digit::Eight), lexer.next());
    assert_eq!(Some(Digit::Nine), lexer.next());
    assert_eq!(None, lexer.get_error());
    assert_eq!(3, lexer.get_cursor());
    assert_eq!(None, lexer.next());
    assert_eq!(Some(&Error::EndOfFile), lexer.get_error());
    assert_eq!(4, lexer.get_cursor());
}

#[test]
fn collect_yields_length_tokens_then_end_of_file() {
    let text = "0123456789";
    let mut lexer: Lexer<Digit, Digit> = Lexer::new(text);
    let tokens = lexer.collect();
    assert_eq!(text.len(), tokens.len());
    assert_eq!(
        vec![
            Digit::Zero,
            Digit::One,
            Digit::Two,
            Digit::Three,
            Digit::Four,
            Digit::Five,
            Digit::Six,
            Digit::Seven,
            Digit::Eight,
            Digit::Nine
        ],
        tokens
    );
    assert_eq!(Some(&LexErr::EndOfFile), lexer.get_error());
}

#[test]
fn empty_text_ends_at_once() {
    let mut lexer: Lexer<Digit, Digit> = Lexer::new("");
    assert_eq!(None, lexer.next());
    assert_eq!(Some(&Error::EndOfFile), lexer.get_error());
    assert_eq!(1, lexer.get_cursor());
    assert_eq!(Vec::<Digit>::new(), lexer.collect());
}

#[test]
fn unexpected_character_is_latched() {
    let mut lexer: Lexer<Digit, Digit> = Lexer::new("12#4");
    assert_eq!(Some(Digit::One), lexer.next());
    assert_eq!(Some(Digit::Two), lexer.next());
    assert_eq!(None, lexer.next());
    let unexpected = Error::Unexpected(Context::new('#', (1, 3)));
    assert_eq!(Some(&unexpected), lexer.get_error());
    let cursor = lexer.get_cursor();
    assert_eq!(3, cursor);
    assert_eq!(None, lexer.next());
    assert_eq!(None, lexer.next_ignored(Digit::Four));
    assert_eq!(Some(&unexpected), lexer.get_error());
    assert_eq!(cursor, lexer.get_cursor());
    assert_eq!(Err(unexpected), lexer.poll(&Digit::Four));
    assert_eq!(Vec::<Digit>::new(), lexer.collect());
}

#[test]
fn unexpected_character_after_line_feed_has_its_position() {
    let mut lexer: Lexer<Token, Token> = Lexer::new("1\n2 #");
    let tokens = lexer.collect();
    assert_eq!(
        vec![
            Token::Digit(Digit::One),
            Token::Whitespace,
            Token::Digit(Digit::Two),
            Token::Whitespace
        ],
        tokens
    );
    assert_eq!(
        Some(&Error::Unexpected(Context {
            character: '#',
            position: (2, 3)
        })),
        lexer.get_error()
    );
}

#[test]
fn latched_error_survives_a_cursor_reset() {
    let mut lexer: Lexer<Digit, Digit> = Lexer::new("1");
    assert_eq!(Some(Digit::One), lexer.next());
    assert_eq!(None, lexer.next());
    lexer.set_cursor(0);
    assert_eq!(0, lexer.get_cursor());
    assert_eq!(None, lexer.next());
    assert_eq!(Some(&Error::EndOfFile), lexer.get_error());
    assert_eq!(0, lexer.get_cursor());
}

#[test]
fn whitespace_is_ignored() {
    let mut lexer: Lexer<Token, Token> = Lexer::new("1 \r\n 8 9");
    let mut tokens = Vec::new();
    while let Some(token) = lexer.next_ignored(Token::Whitespace) {
        tokens.push(token);
    }
    assert_eq!(
        vec![
            Token::Digit(Digit::One),
            Token::Digit(Digit::Eight),
            Token::Digit(Digit::Nine)
        ],
        tokens
    );
    assert_eq!(Some(&Error::EndOfFile), lexer.get_error());
}

#[test]
fn ignoring_is_filtering_the_plain_stream() {
    let text = " 1  2\n\n3 ";
    let mut plain: Lexer<Token, Placed> = Lexer::new(text);
    let all = plain.collect();
    assert_eq!(text.len(), all.len());
    let kept: Vec<Placed> = all
        .into_iter()
        .filter(|item| item.token != Token::Whitespace)
        .collect();

    let mut ignoring: Lexer<Token, Placed> = Lexer::new(text);
    let mut pulled = Vec::new();
    while let Some(item) = ignoring.next_ignored(Token::Whitespace) {
        pulled.push(item);
    }
    assert_eq!(kept, pulled);
    assert_eq!(
        vec![
            placed(Token::Digit(Digit::One), '1', 1, 2),
            placed(Token::Digit(Digit::Two), '2', 1, 5),
            placed(Token::Digit(Digit::Three), '3', 3, 1)
        ],
        pulled
    );
    assert_eq!(plain.get_error(), ignoring.get_error());
    assert_eq!(plain.get_cursor(), ignoring.get_cursor());
}

#[test]
fn a_vector_of_tokens_is_ignored() {
    let ignore = vec![Token::Whitespace, Token::Digit(Digit::Zero)];
    let mut lexer: Lexer<Token, Token> = Lexer::new("0 1 00 2 0");
    assert_eq!(
        Some(Token::Digit(Digit::One)),
        lexer.next_ignored(ignore.clone())
    );
    assert_eq!(
        Some(Token::Digit(Digit::Two)),
        lexer.next_ignored(ignore.clone())
    );
    assert_eq!(None, lexer.next_ignored(ignore));
    assert_eq!(Some(&Error::EndOfFile), lexer.get_error());
}

#[test]
fn nothing_is_ignored_by_an_empty_vector() {
    let mut lexer: Lexer<Token, Token> = Lexer::new(" 1");
    assert_eq!(Some(Token::Whitespace), lexer.next_ignored(Vec::new()));
    assert_eq!(Some(Token::Digit(Digit::One)), lexer.next_ignored(Vec::new()));
}

#[test]
fn matches_token_of_a_token_and_of_a_vector() {
    assert!(Digit::One.matches_token(&Digit::One));
    assert!(!Digit::One.matches_token(&Digit::Two));
    let several = vec![Digit::One, Digit::Three];
    assert!(several.matches_token(&Digit::Three));
    assert!(!several.matches_token(&Digit::Two));
    assert!(!Vec::<Digit>::new().matches_token(&Digit::Two));
    assert!(Token::Digit(Digit::One).matches_token(&Token::Digit(Digit::One)));
    assert!(!Token::Digit(Digit::One).matches_token(&Token::Digit(Digit::Two)));
}

#[test]
fn a_token_wraps_itself() {
    let context = Context::new('1', (1, 1));
    assert_eq!(Digit::One, <Digit as TokenWrapper<Digit>>::wrap(Digit::One, context));
}

#[test]
fn context_holds_character_and_position() {
    let context = Context::new('x', (3, 7));
    assert_eq!('x', context.character);
    assert_eq!((3, 7), context.position);
}

#[test]
fn positions_count_lines_and_columns() {
    let mut lexer: Lexer<Token, Placed> = Lexer::new("1\n23\r\n4");
    assert_eq!(
        vec![
            placed(Token::Digit(Digit::One), '1', 1, 1),
            placed(Token::Whitespace, '\n', 2, 0),
            placed(Token::Digit(Digit::Two), '2', 2, 1),
            placed(Token::Digit(Digit::Three), '3', 2, 2),
            placed(Token::Whitespace, '\r', 2, 3),
            placed(Token::Whitespace, '\n', 3, 0),
            placed(Token::Digit(Digit::Four), '4', 3, 1)
        ],
        lexer.collect()
    );
}

#[test]
fn peek_changes_nothing() {
    let mut lexer: Lexer<Token, Placed> = Lexer::new("  7 8");
    let first = lexer.peek(&Token::Whitespace);
    assert_eq!(Ok(placed(Token::Digit(Digit::Seven), '7', 1, 3)), first);
    assert_eq!(first, lexer.peek(&Token::Whitespace));
    assert_eq!(first, lexer.peek(&Token::Whitespace));
    assert_eq!(0, lexer.get_cursor());
    assert_eq!(None, lexer.get_error());
    assert_eq!(first, lexer.poll(&Token::Whitespace));
    assert_eq!(3, lexer.get_cursor());

    let second = lexer.peek(&Token::Whitespace);
    assert_eq!(Ok(placed(Token::Digit(Digit::Eight), '8', 1, 5)), second);
    assert_eq!(
        Some(placed(Token::Digit(Digit::Eight), '8', 1, 5)),
        lexer.next_ignored(Token::Whitespace)
    );
}

#[test]
fn peek_reports_the_end_without_latching_it() {
    let mut lexer: Lexer<Digit, Digit> = Lexer::new("5");
    assert_eq!(Ok(Digit::Five), lexer.poll(&Vec::new()));
    assert_eq!(Err(Error::EndOfFile), lexer.peek(&Vec::new()));
    assert_eq!(None, lexer.get_error());
    assert_eq!(1, lexer.get_cursor());
    assert_eq!(Err(Error::EndOfFile), lexer.poll(&Vec::new()));
    assert_eq!(Some(&Error::EndOfFile), lexer.get_error());
    assert_eq!(2, lexer.get_cursor());
    assert_eq!(Err(Error::EndOfFile), lexer.peek(&Vec::new()));
}

#[test]
fn peek_reports_an_unexpected_character() {
    let lexer: Lexer<Token, Token> = Lexer::new(" \n x");
    assert_eq!(
        Err(Error::Unexpected(Context::new('x', (2, 2)))),
        lexer.peek(&Token::Whitespace)
    );
    assert_eq!(None, lexer.get_error());
    assert_eq!(0, lexer.get_cursor());
}

#[test]
fn restored_cursor_repeats_the_token() {
    let mut lexer: Lexer<Token, Token> = Lexer::new("12 34");
    assert_eq!(Some(Token::Digit(Digit::One)), lexer.next());
    let saved = lexer.get_cursor();
    let expected = lexer.peek(&Token::Whitespace).ok();
    assert_eq!(Some(Token::Digit(Digit::Two)), expected);
    assert_eq!(expected, lexer.next());
    assert_eq!(Some(Token::Digit(Digit::Three)), lexer.next_ignored(Token::Whitespace));
    lexer.set_cursor(saved);
    assert_eq!(saved, lexer.get_cursor());
    assert_eq!(expected, lexer.next());
}

#[test]
fn position_is_not_restored_with_the_cursor() {
    let mut lexer: Lexer<Token, Placed> = Lexer::new("1\n2");
    assert_eq!(Some(placed(Token::Digit(Digit::One), '1', 1, 1)), lexer.next());
    assert_eq!(Some(placed(Token::Whitespace, '\n', 2, 0)), lexer.next());
    lexer.set_cursor(0);
    assert_eq!(Some(placed(Token::Digit(Digit::One), '1', 2, 1)), lexer.next());
    assert_eq!(Some(placed(Token::Whitespace, '\n', 3, 0)), lexer.next());
}

#[test]
fn cursor_beyond_the_text_ends_the_scan() {
    let mut lexer: Lexer<Digit, Digit> = Lexer::new("123");
    lexer.set_cursor(10);
    assert_eq!(10, lexer.get_cursor());
    assert!(lexer.has_room());
    assert_eq!(None, lexer.next());
    assert_eq!(Some(&Error::EndOfFile), lexer.get_error());
    assert_eq!(11, lexer.get_cursor());
}

#[test]
fn cursor_at_the_limit_leaves_no_room() {
    let mut lexer: Lexer<Digit, Digit> = Lexer::new("123");
    lexer.set_cursor(usize::MAX);
    assert!(!lexer.has_room());
    lexer.set_cursor(usize::MAX - 1);
    assert!(lexer.has_room());
}

#[test]
fn checked_cursor_stays_within_the_text() {
    let mut lexer: Lexer<Digit, Digit> = Lexer::new("123");
    assert_eq!(Ok(()), lexer.try_set_cursor(3));
    assert_eq!(3, lexer.get_cursor());
    assert_eq!(
        Err(OutOfBounds {
            cursor: 4,
            length: 3
        }),
        lexer.try_set_cursor(4)
    );
    assert_eq!(3, lexer.get_cursor());
    assert_eq!(Ok(()), lexer.try_set_cursor(2));
    assert_eq!(Some(Digit::Three), lexer.next());
}

#[test]
fn cursor_counts_characters_not_bytes() {
    #[derive(Debug, PartialEq)]
    struct Letter(char);

    impl TokenTrait for Letter {
        fn matched(c: char) -> Option<Self> {
            Self::match_char(c)
        }

        fn eq_is_structural(_a: &Self, _b: &Self) {}

        fn match_char(c: char) -> Option<Self> {
            if c.is_alphabetic() {
                Some(Letter(c))
            } else {
                None
            }
        }
    }

    let mut lexer: Lexer<Letter, Letter> = Lexer::new("déjà");
    assert_eq!(Some(Letter('d')), lexer.next());
    assert_eq!(Some(Letter('é')), lexer.next());
    assert_eq!(2, lexer.get_cursor());
    assert_eq!(Some(Letter('j')), lexer.next());
    assert_eq!(Some(Letter('à')), lexer.next());
    assert_eq!(4, lexer.get_cursor());
    assert_eq!(None, lexer.next());
    assert_eq!(Some(&Error::EndOfFile), lexer.get_error());
    assert_eq!(Ok(()), lexer.try_set_cursor(4));
    assert!(lexer.try_set_cursor(5).is_err());
}

#[test]
fn a_copy_scans_on_its_own() {
    let mut lexer: Lexer<Digit, Digit> = Lexer::new("12");
    assert_eq!(Some(Digit::One), lexer.next());
    let mut copy = lexer.clone();
    assert_eq!(Some(Digit::Two), copy.next());
    assert_eq!(None, copy.next());
    assert_eq!(1, lexer.get_cursor());
    assert_eq!(None, lexer.get_error());
    assert_eq!(Some(Digit::Two), lexer.next());
}
