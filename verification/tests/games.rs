use lottery_core::cards::poker_deck;
use lottery_core::dice::{parse_dice, roll, DiceError};
use lottery_core::guess::{
    evaluate_guess, is_magic_pair, is_within, last_digit, magic_number_for, rule_reward, GuessRule,
};

#[test]
fn deck_size() {
    assert_eq!(poker_deck().len(), 52);
}

#[test]
fn deck_contains_ace_of_spades() {
    let deck = poker_deck();
    assert!(deck
        .iter()
        .any(|c| c.starts_with("A") && c.contains('\u{2660}')));
}

#[test]
fn parse_valid_dice() {
    let d = parse_dice("3d6").unwrap();
    assert_eq!(d.count, 3);
    assert_eq!(d.size, 6);
}

#[test]
fn parse_single_die() {
    let d = parse_dice("1d20").unwrap();
    assert_eq!(d.count, 1);
    assert_eq!(d.size, 20);
}

#[test]
fn parse_invalid_format() {
    assert!(parse_dice("abc").is_err());
    assert!(parse_dice("d6").is_err());
    assert!(parse_dice("3d").is_err());
}

#[test]
fn parse_zero_size() {
    assert!(matches!(parse_dice("1d0"), Err(DiceError::ZeroSize)));
}

#[test]
fn roll_produces_correct_count() {
    let results = roll("4d6").unwrap();
    assert_eq!(results.len(), 4);
    for r in &results {
        assert!(*r >= 1 && *r <= 6);
    }
}

#[test]
fn roll_empty_input() {
    assert!(matches!(roll(""), Err(DiceError::MissingInput)));
}

#[test]
fn parse_dice_overflow_is_invalid_format() {
    assert!(matches!(
        parse_dice("99999999999d6"),
        Err(DiceError::InvalidFormat)
    ));
}

#[test]
fn guess_rules_in_precedence_order() {
    assert_eq!(evaluate_guess(42, 42), Some(GuessRule::Exact));
    assert_eq!(evaluate_guess(42, 59), Some(GuessRule::MagicPair));
    assert_eq!(evaluate_guess(42, 44), Some(GuessRule::NearMatch));
    assert_eq!(evaluate_guess(42, 2), Some(GuessRule::LastDigit));
    assert_eq!(evaluate_guess(42, 17), None);
    // The exact match outranks the pair rule when both would fire.
    assert_eq!(evaluate_guess(50, 50), Some(GuessRule::Exact));
}

#[test]
fn guess_rewards() {
    assert_eq!(rule_reward(GuessRule::Exact), 1000);
    assert_eq!(rule_reward(GuessRule::MagicPair), 250);
    assert_eq!(rule_reward(GuessRule::NearMatch), 30);
    assert_eq!(rule_reward(GuessRule::LastDigit), 10);
}

#[test]
fn guess_primitives() {
    assert!(is_within(5, 3, 3));
    assert!(!is_within(7, 3, 3));
    assert_eq!(last_digit(37), 7);
    assert!(is_magic_pair(1, 100));
    assert!(!is_magic_pair(2, 100));
}

#[test]
fn magic_number_is_deterministic_and_in_range() {
    let a = magic_number_for("alice", "2024-05-01", "seed");
    let b = magic_number_for("alice", "2024-05-01", "seed");
    assert_eq!(a, b);
    assert!((1..=100).contains(&a));
}
