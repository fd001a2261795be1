use amm_quotes::{get_amount_in, get_amount_out, quote, QuoteError};

#[test]
fn quote_is_proportional() {
    // floor(100 * 1000 / 400) = 250
    assert_eq!(quote(100, 400, 1000), Ok(250));
    // floor(7 * 2 / 3) = 4: the division truncates toward zero
    assert_eq!(quote(7, 3, 2), Ok(4));
    // equal reserves quote the amount unchanged
    assert_eq!(quote(123, 555, 555), Ok(123));
}

#[test]
fn quote_round_trips_within_truncation() {
    let forward = quote(100, 400, 1000).unwrap();
    assert_eq!(forward, 250);
    let back = quote(forward, 1000, 400).unwrap();
    assert_eq!(back, 100);
    // with truncation on the way out, the round trip falls at or below the start
    let forward = quote(7, 3, 2).unwrap();
    assert_eq!(forward, 4);
    let back = quote(forward, 2, 3).unwrap();
    assert!(back <= 7);
    assert_eq!(back, 6);
}

#[test]
fn quote_rejects_bad_amounts_and_reserves() {
    assert_eq!(quote(0, 1000, 1000), Err(QuoteError::InsufficientAmount));
    assert_eq!(quote(-5, 1000, 1000), Err(QuoteError::InsufficientAmount));
    assert_eq!(quote(10, 0, 1000), Err(QuoteError::InsufficientLiquidity));
    assert_eq!(quote(10, 1000, 0), Err(QuoteError::InsufficientLiquidity));
    assert_eq!(quote(10, -1, 1000), Err(QuoteError::InsufficientLiquidity));
    assert_eq!(quote(10, 1000, -1), Err(QuoteError::InsufficientLiquidity));
}

#[test]
fn quote_faults_on_overflow() {
    assert_eq!(quote(i128::MAX, 1, 2), Err(QuoteError::ArithmeticFault));
    // the largest product that still fits is accepted
    assert_eq!(quote(i128::MAX, i128::MAX, 1), Ok(1));
}

#[test]
fn amount_out_charges_the_fee() {
    // floor(100 * 997 * 1000 / (1000 * 1000 + 100 * 997)) = 90
    assert_eq!(get_amount_out(100, 1000, 1000), Ok(90));
    // the fee keeps the output below the proportional quote
    assert!(get_amount_out(100, 1000, 1000).unwrap() < quote(100, 1000, 1000).unwrap());
}

#[test]
fn amount_out_of_one_unit_rounds_to_zero() {
    // floor(997 * 1000 / (1000 * 1000 + 997)) = 0
    assert_eq!(get_amount_out(1, 1000, 1000), Ok(0));
}

#[test]
fn amount_out_grows_with_input() {
    let small = get_amount_out(100, 1000, 1000).unwrap();
    let large = get_amount_out(200, 1000, 1000).unwrap();
    assert_eq!(small, 90);
    assert_eq!(large, 166);
    assert!(small <= large);
}

#[test]
fn amount_out_rejects_bad_amounts_and_reserves() {
    assert_eq!(get_amount_out(0, 1000, 1000), Err(QuoteError::InsufficientAmount));
    assert_eq!(get_amount_out(-1, 1000, 1000), Err(QuoteError::InsufficientAmount));
    assert_eq!(get_amount_out(10, 0, 1000), Err(QuoteError::InsufficientLiquidity));
    assert_eq!(get_amount_out(10, 1000, -2), Err(QuoteError::InsufficientLiquidity));
}

#[test]
fn amount_out_faults_on_overflow() {
    // amount_in * 997 overflows
    assert_eq!(get_amount_out(i128::MAX, 1, 1), Err(QuoteError::ArithmeticFault));
    // reserve_in * 1000 overflows
    assert_eq!(get_amount_out(1, i128::MAX / 2, 1), Err(QuoteError::ArithmeticFault));
}

#[test]
fn amount_in_covers_the_requested_output() {
    // floor(1000 * 90 * 1000 / ((1000 - 90) * 997)) + 1 = 100
    assert_eq!(get_amount_in(90, 1000, 1000), Ok(100));
    // charging that input buys at least the requested output
    assert_eq!(get_amount_out(100, 1000, 1000), Ok(90));
}

#[test]
fn amount_in_grows_with_output() {
    let small = get_amount_in(50, 1000, 1000).unwrap();
    let large = get_amount_in(90, 1000, 1000).unwrap();
    assert_eq!(small, 53);
    assert_eq!(large, 100);
    assert!(small <= large);
}

#[test]
fn amount_in_rejects_output_meeting_reserve() {
    assert_eq!(get_amount_in(1000, 1000, 1000), Err(QuoteError::InsufficientLiquidity));
    assert_eq!(get_amount_in(1001, 1000, 1000), Err(QuoteError::InsufficientLiquidity));
}

#[test]
fn amount_in_rejects_bad_amounts_and_reserves() {
    assert_eq!(get_amount_in(0, 1000, 1000), Err(QuoteError::InsufficientAmount));
    assert_eq!(get_amount_in(-7, 1000, 1000), Err(QuoteError::InsufficientAmount));
    assert_eq!(get_amount_in(10, 0, 1000), Err(QuoteError::InsufficientLiquidity));
    assert_eq!(get_amount_in(10, 1000, 0), Err(QuoteError::InsufficientLiquidity));
    assert_eq!(get_amount_in(10, -3, 1000), Err(QuoteError::InsufficientLiquidity));
}

#[test]
fn amount_in_faults_on_overflow() {
    // reserve_in * amount_out overflows
    assert_eq!(get_amount_in(2, i128::MAX, 3), Err(QuoteError::ArithmeticFault));
    // (reserve_out - amount_out) * 997 overflows
    assert_eq!(get_amount_in(1, 1, i128::MAX), Err(QuoteError::ArithmeticFault));
}
