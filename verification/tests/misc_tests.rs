use coordination::coins::{plus_one, value_in_cents, Coin, UsState};
use coordination::guess::{judge, parse_guess, Game, Turn};
use coordination::ownership::{gives_ownership, takes_and_gives_back};

#[test]
fn gives_ownership_hands_out_its_greeting() {
    assert_eq!(gives_ownership(), "hello for s1");
}

#[test]
fn takes_and_gives_back_returns_what_it_got() {
    assert_eq!(takes_and_gives_back(String::from("hello for s2")), "hello for s2");
    assert_eq!(takes_and_gives_back(String::new()), "");
}

#[test]
fn each_coin_has_its_worth() {
    assert_eq!(value_in_cents(Coin::Penny), 1);
    assert_eq!(value_in_cents(Coin::Nickel), 5);
    assert_eq!(value_in_cents(Coin::Dime), 10);
    assert_eq!(value_in_cents(Coin::Quarter(UsState::Alaska)), 25);
    assert_eq!(value_in_cents(Coin::Quarter(UsState::Alabama)), 25);
}

#[test]
fn plus_one_adds_one_where_there_is_a_number() {
    assert_eq!(plus_one(Some(5)), Some(6));
    assert_eq!(plus_one(Some(-1)), Some(0));
    assert_eq!(plus_one(Some(i32::MAX - 1)), Some(i32::MAX));
    assert_eq!(plus_one(None), None);
}

#[test]
fn a_line_with_a_number_is_a_guess() {
    assert_eq!(parse_guess("42"), Some(42));
    assert_eq!(parse_guess("42\n"), Some(42));
    assert_eq!(parse_guess("  \t7 \r\n"), Some(7));
    assert_eq!(parse_guess("+7"), Some(7));
    assert_eq!(parse_guess("007"), Some(7));
    assert_eq!(parse_guess("0"), Some(0));
    assert_eq!(parse_guess("\u{3000}5\u{a0}"), Some(5));
    assert_eq!(parse_guess("4294967295"), Some(u32::MAX));
}

#[test]
fn a_line_without_a_number_is_no_guess() {
    assert_eq!(parse_guess(""), None);
    assert_eq!(parse_guess("   \n"), None);
    assert_eq!(parse_guess("abc"), None);
    assert_eq!(parse_guess("-1"), None);
    assert_eq!(parse_guess("+"), None);
    assert_eq!(parse_guess("++1"), None);
    assert_eq!(parse_guess("1 2"), None);
    assert_eq!(parse_guess("12a"), None);
    assert_eq!(parse_guess("1.5"), None);
    assert_eq!(parse_guess("4294967296"), None);
    assert_eq!(parse_guess("99999999999999999999999"), None);
    assert_eq!(parse_guess("٣"), None);
}

#[test]
fn parse_guess_agrees_with_the_standard_parser() {
    let lines = [
        "", " ", "1", " 1", "1 ", "+1", "-1", "+", "-", "+-1", "1+", "0x10", "١", "100", "101",
        "4294967295", "4294967296", "04294967295", "\t50\n", "5 0", "\u{85}9\u{2028}",
    ];
    for line in lines {
        assert_eq!(parse_guess(line), line.trim().parse::<u32>().ok());
    }
}

#[test]
fn judge_compares_the_guess_with_the_secret() {
    assert_eq!(judge(3, 50), Turn::TooSmall);
    assert_eq!(judge(77, 50), Turn::TooBig);
    assert_eq!(judge(50, 50), Turn::Correct);
    assert_eq!(judge(0, 1), Turn::TooSmall);
    assert_eq!(judge(u32::MAX, 100), Turn::TooBig);
}

#[test]
fn a_game_takes_a_secret_between_1_and_100_only() {
    assert!(Game::with_secret(0).is_none());
    assert!(Game::with_secret(101).is_none());
    assert_eq!(Game::with_secret(1).unwrap().secret(), 1);
    assert_eq!(Game::with_secret(100).unwrap().secret(), 100);
}

#[test]
fn a_game_answers_each_line() {
    let game = Game::with_secret(50).unwrap();
    assert_eq!(game.guess("25\n"), Turn::TooSmall);
    assert_eq!(game.guess("75\n"), Turn::TooBig);
    assert_eq!(game.guess("fifty\n"), Turn::Invalid);
    assert_eq!(game.guess("\n"), Turn::Invalid);
    assert_eq!(game.guess(" 50 \n"), Turn::Correct);
}

#[test]
fn chance_picks_a_secret_between_1_and_100() {
    let mut seen = std::collections::HashSet::new();
    for _ in 0..2000 {
        let secret = Game::start().secret();
        assert!(1 <= secret && secret <= 100);
        seen.insert(secret);
    }
    assert!(seen.len() > 1);
}
