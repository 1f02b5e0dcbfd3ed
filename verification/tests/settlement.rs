use lottery_core::config::{Config, DiscordConfig, FirebaseConfig};
use lottery_core::errors::CoreError;
use lottery_core::jobs::JobQueue;
use lottery_core::ledger::Ledger;
use lottery_core::lottery::{Lottery, LotteryResult};
use lottery_core::member::{GuildMember, StoredPlayer};
use lottery_core::roulette::{countdown_remaining_seconds, validate_roulette_join, Roulette, RouletteOutcome};
use lottery_core::sardines::{JoinOutcome, Sardines, SardinesOutcome};
use lottery_core::table::Table;

fn test_config() -> Config {
    Config {
        port: 8006,
        job_queue_poll_interval_ms: 5000,
        min_players_before_rejoin: 4,
        sardines_expiry_seconds: 86400,
        random_seed: "test".to_string(),
        discord: DiscordConfig {
            timezone: "America/Los_Angeles".to_string(),
            bot_token: "test".to_string(),
            public_key: "test".to_string(),
            server_id: "test".to_string(),
        },
        firebase: FirebaseConfig {
            project_id: "test".to_string(),
            cert_base64: "test".to_string(),
        },
    }
}

fn member(id: &str) -> GuildMember {
    GuildMember {
        id: id.to_string(),
        guild_id: "g".to_string(),
        username: id.to_string(),
        joined_at: None,
    }
}

fn player(id: &str) -> StoredPlayer {
    StoredPlayer {
        id: id.to_string(),
        guild_id: "g".to_string(),
        username: id.to_string(),
        joined_at: None,
    }
}

#[test]
fn lottery_rejects_non_positive_bet() {
    assert!(matches!(
        Lottery::new(player("a"), 0),
        Err(CoreError::NonPositiveBet)
    ));
    assert!(matches!(
        Lottery::new(player("a"), -5),
        Err(CoreError::NonPositiveBet)
    ));
    let l = Lottery::new(player("a"), 1).unwrap();
    assert_eq!(l.bet, 1);
    assert_eq!(l.id.len(), 21);
    assert!(l.players.is_empty());
}

#[test]
fn lottery_accounting() {
    let l = Lottery::from_parts(
        "game1".to_string(),
        player("a"),
        100,
        vec![player("a"), player("b"), player("c")],
        None,
    );
    assert_eq!(l.buy_in(), 100);
    assert_eq!(l.pot_size(), 300);
    assert!(l.can_finish());
    assert_eq!(l.get_payout(), 200);

    let r: LotteryResult = l.finish_at(1);
    assert_eq!(r.winner.id, "b");
    assert_eq!(r.payouts.len(), 3);
    assert_eq!(r.payouts[0].1, -100);
    assert_eq!(r.payouts[1].1, 200);
    assert_eq!(r.payouts[2].1, -100);
}

#[test]
fn lottery_start_is_idempotent() {
    let mut l = Lottery::from_parts("g1".to_string(), player("a"), 10, vec![player("a")], None);
    let first = l.start(1000);
    assert_eq!(first, 1000);
    let second = l.start(2000);
    assert_eq!(second, 1000);
    assert_eq!(l.start_time, Some(1000));
}

/// Scenario: bet 100, players A, B and C, fixed-duration variant. The pot
/// is 300; the settlement credits exactly one of them 300, the others are
/// unchanged, and the record is deleted.
#[test]
fn roulette_three_player_settlement() {
    let mut games: Table<Lottery> = Table::new();
    let mut jobs = JobQueue::new();
    let mut ledger = Ledger::new();

    let mut game = Roulette::init(&member("A"), 100).unwrap();
    game.start(&mut games, &mut jobs, "token", 1_000_000);
    game.add_player(&mut games, &member("B")).unwrap();
    game.add_player(&mut games, &member("C")).unwrap();
    assert_eq!(game.players().len(), 3);
    assert_eq!(game.lottery.pot_size(), 300);

    let gid = game.id().to_string();
    let outcome = game.finish(&mut games, &mut ledger).unwrap();
    let winner = match outcome {
        RouletteOutcome::Won { winner, payout } => {
            assert_eq!(payout, 300);
            winner
        },
        RouletteOutcome::Cancelled => panic!("three players must settle, not cancel"),
    };
    assert!(["A", "B", "C"].contains(&winner.id.as_str()));

    let mut credited = 0;
    for id in ["A", "B", "C"] {
        let key = format!("g.{id}");
        let off = ledger.get_offset(&key);
        if id == winner.id {
            assert_eq!(off, 300);
            credited += 1;
        } else {
            assert_eq!(off, 0);
        }
    }
    assert_eq!(credited, 1);

    // The record is deleted; a second finish attempt no longer finds it.
    assert!(matches!(
        Roulette::load(&games, &gid),
        Err(CoreError::NotFound)
    ));
}

/// A finish with one player refunds that player exactly the bet, removes
/// the record, and a repeated finish reports the game as gone.
#[test]
fn roulette_single_player_is_cancelled_with_refund() {
    let mut games: Table<Lottery> = Table::new();
    let mut jobs = JobQueue::new();
    let mut ledger = Ledger::new();

    let mut game = Roulette::init(&member("A"), 75).unwrap();
    game.start(&mut games, &mut jobs, "token", 5_000);
    let gid = game.id().to_string();

    let outcome = game.finish(&mut games, &mut ledger).unwrap();
    assert!(matches!(outcome, RouletteOutcome::Cancelled));
    assert_eq!(ledger.get_offset("g.A"), 75);
    assert!(matches!(
        Roulette::load(&games, &gid),
        Err(CoreError::NotFound)
    ));
}

/// The same cancellation path for the probabilistic variant: each player
/// entry is refunded one bet.
#[test]
fn sardines_single_player_is_refunded() {
    let config = test_config();
    let mut games: Table<Lottery> = Table::new();
    let mut ledger = Ledger::new();

    let mut game = Sardines::init(&config, &member("A"), 40).unwrap();
    game.save(&mut games, &mut ledger, 9_000).unwrap();
    assert_eq!(ledger.get_offset("g.A"), -40);
    let gid = game.id().to_string();

    let outcome = game.finish(&mut games, &mut ledger).unwrap();
    assert!(matches!(outcome, SardinesOutcome::Refunded));
    // The stake was debited at save time and refunded at cancellation.
    assert_eq!(ledger.get_offset("g.A"), 0);
    assert!(matches!(
        Sardines::load(&games, &config, &gid),
        Err(CoreError::NotFound)
    ));
}

/// Pot accounting for the probabilistic variant counts the charged
/// triggering joiner: bet times players plus one.
#[test]
fn sardines_pot_counts_the_triggering_joiner() {
    let config = test_config();
    let mut games: Table<Lottery> = Table::new();
    let mut ledger = Ledger::new();

    let mut game = Sardines::init(&config, &member("A"), 100).unwrap();
    game.save(&mut games, &mut ledger, 100).unwrap();
    assert_eq!(game.pot_size(), 200);
    game.add_player(&mut games, &mut ledger, &member("B")).unwrap();
    assert_eq!(game.pot_size(), 300);
    game.add_player(&mut games, &mut ledger, &member("C")).unwrap();
    assert_eq!(game.pot_size(), 400);
}

#[test]
fn sardines_settlement_credits_the_multiplied_pot() {
    let config = test_config();
    let mut games: Table<Lottery> = Table::new();
    let mut ledger = Ledger::new();

    let mut game = Sardines::init(&config, &member("A"), 100).unwrap();
    game.save(&mut games, &mut ledger, 100).unwrap();
    game.add_player(&mut games, &mut ledger, &member("B")).unwrap();
    game.add_player(&mut games, &mut ledger, &member("C")).unwrap();
    // All three stakes are debited up front.
    assert_eq!(ledger.get_offset("g.A"), -100);
    assert_eq!(ledger.get_offset("g.B"), -100);
    assert_eq!(ledger.get_offset("g.C"), -100);

    let pot = game.pot_size();
    assert_eq!(pot, 400);
    let tenths = game.get_multiplier_tenths();
    assert!([12, 15, 18, 20, 25].contains(&tenths));
    // The multiplier is a deterministic function of the game id.
    assert_eq!(tenths, game.get_multiplier_tenths());
    let expected_payout = pot * (tenths as i64) / 10;
    assert_eq!(game.get_payout(), expected_payout);

    let outcome = game.finish(&mut games, &mut ledger).unwrap();
    match outcome {
        SardinesOutcome::Won { winner, payout, multiplier_tenths } => {
            assert_eq!(payout, expected_payout);
            assert_eq!(multiplier_tenths, tenths);
            assert_eq!(ledger.get_offset(&format!("g.{}", winner.id)), -100 + payout);
        },
        SardinesOutcome::Refunded => panic!("three players must settle"),
    }
}

/// A rejoin adds a second entry for the same member, raising their stake
/// and their odds.
#[test]
fn sardines_rejoin_duplicates_the_entry() {
    let config = test_config();
    let mut games: Table<Lottery> = Table::new();
    let mut ledger = Ledger::new();

    let mut game = Sardines::init(&config, &member("A"), 50).unwrap();
    game.save(&mut games, &mut ledger, 100).unwrap();
    game.add_player(&mut games, &mut ledger, &member("B")).unwrap();
    game.add_player(&mut games, &mut ledger, &member("B")).unwrap();
    assert_eq!(game.players().len(), 3);
    assert_eq!(ledger.get_offset("g.B"), -100);
}

#[test]
fn roulette_join_validation() {
    let game = Roulette::init(&member("A"), 100).unwrap();
    assert_eq!(
        validate_roulette_join(&game, &member("A"), 9_999),
        Some(CoreError::AlreadyJoined)
    );
    assert_eq!(
        validate_roulette_join(&game, &member("B"), 50),
        Some(CoreError::InsufficientBalance)
    );
    assert_eq!(validate_roulette_join(&game, &member("B"), 100), None);
}

/// A join attempt always appends and charges the candidate, even when the
/// losing draw ends the game; a losing join settles at once with the
/// joiner in the winner pool.
#[test]
fn sardines_join_attempt_charges_even_when_losing() {
    let config = test_config();
    let mut seen_continued = false;
    let mut seen_ended = false;
    for _ in 0..2_000 {
        let mut games: Table<Lottery> = Table::new();
        let mut ledger = Ledger::new();
        let mut game = Sardines::init(&config, &member("A"), 10).unwrap();
        game.save(&mut games, &mut ledger, 100).unwrap();
        for id in ["B", "C", "D", "E", "F", "G", "H"] {
            game.add_player(&mut games, &mut ledger, &member(id)).unwrap();
        }
        // Eight players in: the join-failure chance is 73/98.
        let pot_before_join = game.pot_size();
        let outcome = game
            .join_attempt(&mut games, &mut ledger, &member("J"))
            .unwrap();
        assert_eq!(game.players().len(), 9);
        match outcome {
            JoinOutcome::Continued => {
                seen_continued = true;
                // Charged, game still stored.
                assert_eq!(ledger.get_offset("g.J"), -10);
                assert!(games.get(game.id()).is_some());
            },
            JoinOutcome::Ended(SardinesOutcome::Won { winner, payout, .. }) => {
                seen_ended = true;
                // Charged even though the join lost; the record is gone and
                // the winner (possibly the joiner) was credited.
                let joiner_offset = ledger.get_offset("g.J");
                if winner.id == "J" {
                    assert_eq!(joiner_offset, -10 + payout);
                } else {
                    assert_eq!(joiner_offset, -10);
                }
                // The pot counts the charged joiner: ten stakes in all.
                assert!(payout >= pot_before_join + 10);
                assert!(games.get(game.id()).is_none());
            },
            JoinOutcome::Ended(SardinesOutcome::Refunded) => {
                panic!("a nine-player game cannot cancel")
            },
        }
        if seen_continued && seen_ended {
            break;
        }
    }
    assert!(seen_continued && seen_ended, "both join outcomes should occur");
}

/// Restoring a record from all its parts, the closed mark included, is
/// lossless.
#[test]
fn from_parts_round_trip_keeps_the_closed_mark() {
    let l = Lottery::from_parts_closed(
        "g9".to_string(),
        player("a"),
        25,
        vec![player("a"), player("b")],
        Some(7_000),
        true,
    );
    assert!(l.closed);
    assert_eq!(l.start_time, Some(7_000));
    let open = Lottery::from_parts(
        "g9".to_string(),
        player("a"),
        25,
        vec![player("a")],
        None,
    );
    assert!(!open.closed);
}

#[test]
fn countdown_clamps_at_zero() {
    assert_eq!(countdown_remaining_seconds(1_000, 1_000), 30);
    assert_eq!(countdown_remaining_seconds(1_000, 16_500), 14);
    assert_eq!(countdown_remaining_seconds(1_000, 31_000), 0);
    assert_eq!(countdown_remaining_seconds(1_000, 99_000), 0);
}
