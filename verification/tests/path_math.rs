use amm_quotes::{get_amounts_in, get_amounts_out, QuoteError};

#[test]
fn forward_quote_threads_two_hops() {
    // pair(A,B) holds (1000, 1000); pair(B,C) holds (1000, 2000)
    let reserves = vec![(1000, 1000), (1000, 2000)];
    let amounts = get_amounts_out(100, &reserves).unwrap();
    assert_eq!(amounts.len(), 3);
    assert_eq!(amounts[0], 100);
    // first hop: floor(100 * 997 * 1000 / (1000 * 1000 + 100 * 997)) = 90
    assert_eq!(amounts[1], 90);
    // second hop: floor(90 * 997 * 2000 / (1000 * 1000 + 90 * 997)) = 164
    assert_eq!(amounts[2], 164);
}

#[test]
fn forward_quote_single_hop() {
    let reserves = vec![(1000, 1000)];
    assert_eq!(get_amounts_out(100, &reserves), Ok(vec![100, 90]));
}

#[test]
fn backward_quote_threads_two_hops() {
    let reserves = vec![(1000, 1000), (1000, 2000)];
    let amounts = get_amounts_in(164, &reserves).unwrap();
    assert_eq!(amounts.len(), 3);
    // last hop target 164: floor(1000 * 164 * 1000 / ((2000 - 164) * 997)) + 1 = 90
    assert_eq!(amounts[2], 164);
    assert_eq!(amounts[1], 90);
    // first hop target 90: floor(1000 * 90 * 1000 / ((1000 - 90) * 997)) + 1 = 100
    assert_eq!(amounts[0], 100);
}

#[test]
fn empty_path_is_invalid() {
    // a path of zero or one asset has no hop, so no reserve pair exists for it
    let no_hops: Vec<(i128, i128)> = Vec::new();
    assert_eq!(get_amounts_out(100, &no_hops), Err(QuoteError::InvalidPath));
    assert_eq!(get_amounts_in(100, &no_hops), Err(QuoteError::InvalidPath));
}

#[test]
fn forward_failure_aborts_whole_path() {
    // the first hop turns 1 unit into 0, which the second hop rejects
    let reserves = vec![(1000, 1000), (1000, 1000)];
    assert_eq!(get_amounts_out(1, &reserves), Err(QuoteError::InsufficientAmount));
}

#[test]
fn backward_failure_aborts_whole_path() {
    // the last hop's target meets its output reserve
    let reserves = vec![(1000, 1000), (1000, 1000)];
    assert_eq!(get_amounts_in(1000, &reserves), Err(QuoteError::InsufficientLiquidity));
}

#[test]
fn forward_rejects_bad_amount_on_first_hop() {
    let reserves = vec![(1000, 1000)];
    assert_eq!(get_amounts_out(0, &reserves), Err(QuoteError::InsufficientAmount));
    assert_eq!(get_amounts_out(-4, &reserves), Err(QuoteError::InsufficientAmount));
}

#[test]
fn backward_rejects_bad_amount_on_last_hop() {
    let reserves = vec![(1000, 1000)];
    assert_eq!(get_amounts_in(0, &reserves), Err(QuoteError::InsufficientAmount));
    assert_eq!(get_amounts_in(-4, &reserves), Err(QuoteError::InsufficientAmount));
}

#[test]
fn forward_reports_bad_reserves_of_a_later_hop() {
    let reserves = vec![(1000, 1000), (0, 2000)];
    assert_eq!(get_amounts_out(100, &reserves), Err(QuoteError::InsufficientLiquidity));
}

#[test]
fn round_trip_across_a_path() {
    // quoting the input needed for an output, then spending it, covers the output
    let reserves = vec![(1000, 1000), (1000, 2000)];
    let needed = get_amounts_in(164, &reserves).unwrap()[0];
    let produced = get_amounts_out(needed, &reserves).unwrap()[2];
    assert!(produced >= 164);
}
