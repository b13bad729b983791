use work_tock_lib::gob;
use work_tock_lib::parse::{Peeker, Token, Tokeniser};
use work_tock_lib::STime;

use work_tock_lib::parse::Token::{Break, Num, Str};

#[test]
pub fn test_peeker() {
    let s = "123456789";
    let p = Peeker::from_str(s);
    let c: String = p.collect();
    assert_eq!(&c, "123456789");

    let mut p2 = Peeker::from_str(s);

    assert_eq!(p2.next(), Some('1'));
    assert_eq!(p2.peek(), Some('2'));

    assert_eq!(p2.next(), Some('2'));
    assert_eq!(p2.peek(), Some('3'));
    assert_eq!(p2.peek(), Some('3'));
    assert_eq!(p2.peek(), Some('3'));
    assert_eq!(p2.next(), Some('3'));
}

#[test]
pub fn test_tokens() {
    let s = "hello, #poop ,every body,34ghosts";
    let c: Vec<Token> = Tokeniser::new(s).collect();
    assert_eq!(
        c,
        vec![
            Str("hello".to_string()),
            Break,
            Break,
            Str("every body".to_string()),
            Break,
            Num(34),
            Str("ghosts".to_string()),
        ]
    );
}

#[test]
pub fn str_val_parses_dashes() {
    assert_eq!(gob::str_val("hello "), Ok("hello".to_string()));
    assert_eq!(gob::str_val("hel_p_me@52"), Ok("hel_p_me".to_string()));
    assert_eq!(
        gob::str_val(r#""hello\tworld"poo "#),
        Ok("hello\tworld".to_string())
    );
    assert!(gob::str_val("_hello").is_err());
}

#[test]
pub fn test_stime_parse() {
    assert!("243430343090349309309430334390:54"
        .parse::<STime>()
        .is_err());
    assert_eq!("24:54".parse(), Ok(STime::new(24, 54)));
}

#[test]
fn peeker_from_iter_walks_all_items() {
    let mut p = Peeker::from_iter(vec![10u32, 20, 30]);
    assert_eq!(p.peek(), Some(10));
    assert_eq!(p.next(), Some(10));
    assert_eq!(p.next(), Some(20));
    assert_eq!(p.next(), Some(30));
    assert_eq!(p.next(), None);
    assert_eq!(p.peek(), None);
}

#[test]
fn peeker_find_before_leaves_match_unread() {
    let mut p = Peeker::from_str("work, rest");
    assert_eq!(p.find_before(|c| c == ','), Some(','));
    assert_eq!(p.next(), Some(','));
    assert_eq!(p.next(), Some(' '));
}

#[test]
fn peeker_find_before_misses() {
    let mut p = Peeker::from_str("abc");
    assert_eq!(p.find_before(|c| c == 'z'), None);
    assert_eq!(p.next(), None);
}

#[test]
fn token_as_num_and_as_str() {
    assert_eq!(Num(7).as_num(), Ok(7));
    assert_eq!(Str("a".to_string()).as_str(), Ok("a".to_string()));
    assert!(matches!(
        Break.as_num(),
        Err(work_tock_lib::TokErr::NotNum(Break))
    ));
    assert!(matches!(
        Num(7).as_str(),
        Err(work_tock_lib::TokErr::NotString(Num(7)))
    ));
}

#[test]
fn tokeniser_saturates_long_numbers() {
    let c: Vec<Token> = Tokeniser::new("99999999999999999999999").collect();
    assert_eq!(c, vec![Num(i64::MAX)]);
}

#[test]
fn tokeniser_underscores_and_sigils() {
    let c: Vec<Token> = Tokeniser::new("_a __-/=:").collect();
    assert_eq!(
        c,
        vec![
            Token::UScore,
            Str("a ".to_string()),
            Token::DUScore,
            Token::Dash,
            Token::Slash,
            Token::Equals,
            Token::Colon,
        ]
    );
}
