use crypto_portfolio::text::{push_amount, push_exact, push_money, push_percent, push_signed_change};

#[test]
fn amounts_have_two_places_rounded_half_up() {
    let mut out = String::new();
    push_amount(&mut out, 7_500_000);
    assert_eq!(out, "7.50");
    let mut out = String::new();
    push_amount(&mut out, 1_234_999);
    assert_eq!(out, "1.23");
    let mut out = String::new();
    push_amount(&mut out, 1_235_000);
    assert_eq!(out, "1.24");
    let mut out = String::new();
    push_amount(&mut out, 0);
    assert_eq!(out, "0.00");
}

#[test]
fn money_is_shown_in_whole_currency() {
    let mut out = String::from("$");
    push_money(&mut out, 750_000_000_000_000);
    assert_eq!(out, "$750.00");
    let mut out = String::new();
    push_money(&mut out, u128::MAX);
    assert_eq!(out, "340282366920938463463374607.43");
}

#[test]
fn quantities_are_shown_in_full() {
    let mut out = String::new();
    push_exact(&mut out, 250_000_000);
    assert_eq!(out, "250");
    let mut out = String::new();
    push_exact(&mut out, 12_500_000);
    assert_eq!(out, "12.5");
    let mut out = String::new();
    push_exact(&mut out, 1);
    assert_eq!(out, "0.000001");
    let mut out = String::new();
    push_exact(&mut out, 1_050_000);
    assert_eq!(out, "1.05");
}

#[test]
fn percentages_carry_their_sign() {
    let mut out = String::new();
    push_percent(&mut out, 1000, 1100);
    assert_eq!(out, "10.00");
    let mut out = String::new();
    push_percent(&mut out, 1000, 950);
    assert_eq!(out, "-5.00");
    let mut out = String::new();
    push_percent(&mut out, 3, 4);
    assert_eq!(out, "33.33");
    let mut out = String::new();
    push_percent(&mut out, 3, 5);
    assert_eq!(out, "66.67");
    let mut out = String::new();
    push_percent(&mut out, 0, 5);
    assert_eq!(out, "inf");
    let mut out = String::new();
    push_percent(&mut out, 1, u128::MAX);
    assert_eq!(out, "3402823669209384634633746074317682114.55");
}

#[test]
fn a_change_of_score_carries_its_sign() {
    let mut out = String::new();
    push_signed_change(&mut out, 800_000, 550_000);
    assert_eq!(out, "-0.25");
    let mut out = String::new();
    push_signed_change(&mut out, 550_000, 800_000);
    assert_eq!(out, "0.25");
}
