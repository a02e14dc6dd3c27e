//! Exact values of the minimum destination amount calculation.

use ilp_stream::rate::{min_destination_amount, Price};
use ilp_stream::sender::min_dest_from_prices;

#[test]
fn cross_currency_with_slippage() {
    // 25 hundredths of the source asset, rate 0.9, slippage 1%,
    // destination scale 4: ceil(0.25 * 0.9 * 0.99 * 10000) = 2228.
    let r = min_destination_amount(25, 9, 10, 100, 2, 4);
    assert_eq!(r, 2228);
}

#[test]
fn same_asset_no_slippage_is_identity() {
    assert_eq!(min_destination_amount(1000, 1, 1, 0, 9, 9), 1000);
}

#[test]
fn same_asset_default_slippage_rounds_up() {
    // 100 * 0.99 = 99 exactly.
    assert_eq!(min_destination_amount(100, 1, 1, 100, 2, 2), 99);
    // 10 * 0.99 = 9.9, rounded up to 10.
    assert_eq!(min_destination_amount(10, 1, 1, 100, 2, 2), 10);
}

#[test]
fn scale_conversion() {
    // Scale down: 12345 at scale 4 to scale 2 is 123.45, rounded up.
    assert_eq!(min_destination_amount(12345, 1, 1, 0, 4, 2), 124);
    // Scale up: 5 at scale 0 to scale 3.
    assert_eq!(min_destination_amount(5, 1, 1, 0, 0, 3), 5000);
}

#[test]
fn zero_cases() {
    assert_eq!(min_destination_amount(0, 9, 10, 100, 2, 2), 0);
    assert_eq!(min_destination_amount(100, 0, 10, 100, 2, 2), 0, "zero rate");
    assert_eq!(min_destination_amount(100, 1, 1, 10000, 2, 2), 0, "full slippage");
}

#[test]
fn saturates_at_the_top() {
    assert_eq!(min_destination_amount(u64::MAX, u64::MAX, 1, 0, 0, 0), u64::MAX);
    assert_eq!(min_destination_amount(u64::MAX, 1, 1, 0, 0, 30), u64::MAX);
}

#[test]
fn tiny_amounts_still_round_up() {
    // 1 at scale 20 down to scale 0 is far below one unit, but not zero.
    assert_eq!(min_destination_amount(1, 1, 1, 0, 20, 0), 1);
    assert_eq!(min_destination_amount(0, 1, 1, 0, 20, 0), 0);
}

#[test]
fn prices_to_rate() {
    // price[src]=0.9 (9/10), price[dst]=1: rate 0.9.
    let r = min_dest_from_prices(
        25,
        Price { num: 9, den: 10 },
        Price { num: 1, den: 1 },
        100,
        2,
        4,
    );
    assert_eq!(r, 2228);
    // A zero destination price has no finite rate.
    let z = min_dest_from_prices(
        25,
        Price { num: 9, den: 10 },
        Price { num: 0, den: 1 },
        100,
        2,
        4,
    );
    assert_eq!(z, 0);
}

#[test]
fn expiry_timestamps_are_seventeen_digits() {
    let d = ilp_stream::sender::expiry_digits_after(0);
    assert_eq!(d, b"19700101000030000".to_vec());
    let d2 = ilp_stream::sender::expiry_digits_after(1_700_000_000_000);
    assert_eq!(d2, b"20231114221350000".to_vec());
}
