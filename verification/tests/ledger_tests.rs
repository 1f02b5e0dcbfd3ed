use lottery_core::errors::CoreError;
use lottery_core::ledger::Ledger;
use lottery_core::member::GuildMember;

fn batch(pairs: &[(&str, i64)]) -> Vec<(String, i64)> {
    pairs.iter().map(|(k, d)| (k.to_string(), *d)).collect()
}

#[test]
fn increment_many_applies_all_deltas() {
    let mut ledger = Ledger::new();
    ledger
        .increment_many(&batch(&[("a", 10), ("b", -4), ("a", 5)]))
        .unwrap();
    assert_eq!(ledger.get_offset("a"), 15);
    assert_eq!(ledger.get_offset("b"), -4);
    assert_eq!(ledger.get_offset("c"), 0);
}

/// Overlapping batches, applied in any serialization order, converge to
/// the exact arithmetic sum of all deltas: both orders match a sequential
/// replay.
#[test]
fn concurrent_batches_converge_to_the_sum() {
    let b1 = batch(&[("a", 7), ("b", 3), ("a", -2)]);
    let b2 = batch(&[("b", 11), ("a", 1)]);
    let b3 = batch(&[("c", -9), ("a", 4), ("c", 9)]);

    let mut one = Ledger::new();
    one.increment_many(&b1).unwrap();
    one.increment_many(&b2).unwrap();
    one.increment_many(&b3).unwrap();

    let mut two = Ledger::new();
    two.increment_many(&b3).unwrap();
    two.increment_many(&b1).unwrap();
    two.increment_many(&b2).unwrap();

    for k in ["a", "b", "c"] {
        assert_eq!(one.get_offset(k), two.get_offset(k));
    }
    assert_eq!(one.get_offset("a"), 7 - 2 + 1 + 4);
    assert_eq!(one.get_offset("b"), 3 + 11);
    assert_eq!(one.get_offset("c"), 0);
}

/// A batch that would overflow an account applies nothing at all.
#[test]
fn overflowing_batch_is_rejected_atomically() {
    let mut ledger = Ledger::new();
    ledger.increment("rich".to_string(), i64::MAX - 1).unwrap();
    let r = ledger.increment_many(&batch(&[("poor", 5), ("rich", 2)]));
    assert_eq!(r, Err(CoreError::Overflow));
    // Neither account moved: all deltas apply or none do.
    assert_eq!(ledger.get_offset("poor"), 0);
    assert_eq!(ledger.get_offset("rich"), i64::MAX - 1);
}

#[test]
fn balance_is_base_plus_offset() {
    let mut ledger = Ledger::new();
    ledger.increment("g.u".to_string(), -30).unwrap();
    assert_eq!(ledger.get_user_rep(100, "g.u"), 70);
    assert_eq!(ledger.get_user_rep(100, "g.other"), 100);
}

fn member(id: &str) -> GuildMember {
    GuildMember {
        id: id.to_string(),
        guild_id: "g".to_string(),
        username: id.to_string(),
        joined_at: None,
    }
}

#[test]
fn transfer_moves_the_amount_atomically() {
    let mut ledger = Ledger::new();
    ledger.transfer(&member("a"), &member("b"), 40).unwrap();
    assert_eq!(ledger.get_offset("g.a"), -40);
    assert_eq!(ledger.get_offset("g.b"), 40);
}

#[test]
fn transfer_rejects_self_and_non_positive_amounts() {
    let mut ledger = Ledger::new();
    assert_eq!(
        ledger.transfer(&member("a"), &member("a"), 5),
        Err(CoreError::SelfSend)
    );
    assert_eq!(
        ledger.transfer(&member("a"), &member("b"), 0),
        Err(CoreError::NonPositiveAmount)
    );
    assert_eq!(
        ledger.transfer(&member("a"), &member("b"), -3),
        Err(CoreError::NonPositiveAmount)
    );
    assert_eq!(ledger.get_offset("g.a"), 0);
    assert_eq!(ledger.get_offset("g.b"), 0);
}
