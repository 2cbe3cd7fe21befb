use eonserver::identity::transaction_reference;
use eonserver::{Identity, ReducerContext, Timestamp};

fn context(hi: u128, lo: u128, micros: i64) -> ReducerContext {
    ReducerContext {
        sender: Identity { hi, lo },
        timestamp: Timestamp { micros_since_unix_epoch: micros },
    }
}

#[test]
fn identity_is_written_as_sixty_four_hex_digits() {
    let id = Identity { hi: 0xc200_0000_0000_0000_0000_0000_0000_0001, lo: 0xab };
    assert_eq!(
        id.to_hex(),
        format!("{}{}", "c2000000000000000000000000000001", "000000000000000000000000000000ab")
    );
}

#[test]
fn zero_identity_is_all_zero_digits() {
    let id = Identity { hi: 0, lo: 0 };
    assert_eq!(id.to_hex(), "0".repeat(64));
}

#[test]
fn largest_identity_is_all_f_digits() {
    let id = Identity { hi: u128::MAX, lo: u128::MAX };
    assert_eq!(id.to_hex(), "f".repeat(64));
}

#[test]
fn timestamp_gives_its_microseconds() {
    let stamp = Timestamp { micros_since_unix_epoch: 1_700_000_000_123_456 };
    assert_eq!(stamp.to_micros_since_unix_epoch(), 1_700_000_000_123_456);
}

#[test]
fn reference_joins_tag_microseconds_and_sender() {
    let ctx = context(0, 0x1f, 1_700_000_000_000_000);
    let text = transaction_reference("tx", &ctx);
    assert_eq!(text, format!("tx_1700000000000000_{}1f", "0".repeat(62)));
}

#[test]
fn reference_of_a_time_before_the_epoch_has_a_minus_sign() {
    let ctx = context(1, 2, -42);
    let text = transaction_reference("gift", &ctx);
    assert_eq!(text, format!("gift_-42_{}1{}2", "0".repeat(31), "0".repeat(31)));
}

#[test]
fn reference_of_the_epoch_has_a_single_zero() {
    let ctx = context(0, 0, 0);
    let text = transaction_reference("grant", &ctx);
    assert_eq!(text, format!("grant_0_{}", "0".repeat(64)));
}

#[test]
fn reference_of_the_earliest_time() {
    let ctx = context(0, 0, i64::MIN);
    let text = transaction_reference("tx", &ctx);
    assert_eq!(text, format!("tx_-9223372036854775808_{}", "0".repeat(64)));
}
