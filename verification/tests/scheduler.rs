use lottery_core::config::{Config, DiscordConfig, FirebaseConfig};
use lottery_core::engine::Core;
use lottery_core::jobs::{JobPayload, JobQueue, JobStatus, JobType, SardinesJobPayload};
use lottery_core::member::GuildMember;
use lottery_core::roulette::Roulette;
use lottery_core::sardines::Sardines;

fn test_config() -> Config {
    Config {
        port: 8006,
        job_queue_poll_interval_ms: 5000,
        min_players_before_rejoin: 4,
        sardines_expiry_seconds: 86400,
        random_seed: "test".to_string(),
        discord: DiscordConfig {
            timezone: "America/Los_Angeles".to_string(),
            bot_token: "test".to_string(),
            public_key: "test".to_string(),
            server_id: "test".to_string(),
        },
        firebase: FirebaseConfig {
            project_id: "test".to_string(),
            cert_base64: "test".to_string(),
        },
    }
}

fn member(id: &str) -> GuildMember {
    GuildMember {
        id: id.to_string(),
        guild_id: "g".to_string(),
        username: id.to_string(),
        joined_at: None,
    }
}

#[test]
fn enqueue_builds_a_pending_record() {
    let mut jobs = JobQueue::new();
    let id = jobs.enqueue(
        JobType::SardinesFinish,
        JobPayload::Sardines(SardinesJobPayload {
            id: "game1".to_string(),
            channel_id: 7,
            message_id: 8,
        }),
        1000,
        60,
    );
    assert_eq!(id, "sardines:finish-1000");
    let job = jobs.get(&id).unwrap();
    assert_eq!(job.execute_at, 1000 + 60_000);
    assert_eq!(job.status, JobStatus::Pending);
    assert_eq!(job.job_type, JobType::SardinesFinish);
}

#[test]
fn due_selection_takes_exactly_the_expired_pending_jobs() {
    let mut jobs = JobQueue::new();
    let early = jobs.enqueue(
        JobType::RouletteFinish,
        JobPayload::Roulette(lottery_core::jobs::RouletteJobPayload {
            id: "g1".to_string(),
            interaction_token: "t".to_string(),
        }),
        1000,
        30,
    );
    let late = jobs.enqueue(
        JobType::SardinesFinish,
        JobPayload::Sardines(SardinesJobPayload {
            id: "g2".to_string(),
            channel_id: 1,
            message_id: 2,
        }),
        2000,
        600,
    );
    let due = jobs.due_pending_ids(1000 + 30_000);
    assert_eq!(due, vec![early.clone()]);

    // A running job is no longer selected.
    jobs.mark_running(&early);
    assert!(jobs.due_pending_ids(1000 + 30_000).is_empty());

    // Deleting is idempotent and removes the record.
    jobs.delete(&early);
    jobs.delete(&early);
    assert!(jobs.get(&early).is_none());
    assert!(jobs.get(&late).is_some());
}

#[test]
fn poll_settles_a_due_game_and_consumes_the_job() {
    let config = test_config();
    let mut core = Core::new(config);

    let mut game = Roulette::init(&member("A"), 100).unwrap();
    game.start(&mut core.roulettes, &mut core.jobs, "tok", 1_000);
    game.add_player(&mut core.roulettes, &member("B")).unwrap();
    let gid = game.id().to_string();

    // Before the countdown expires nothing is dispatched.
    let outcomes = core.poll_once(1_500);
    assert!(outcomes.is_empty());
    assert!(core.roulettes.get(&gid).is_some());

    // At expiry the poll settles the game and deletes the job.
    let outcomes = core.poll_once(1_000 + 30_000);
    assert_eq!(outcomes.len(), 1);
    assert!(outcomes[0].0.starts_with("roulette:finish-"));
    assert!(matches!(
        outcomes[0].1,
        lottery_core::engine::JobOutcome::RouletteSettled { .. }
    ));
    assert!(core.roulettes.get(&gid).is_none());
    assert_eq!(core.jobs.jobs.len(), 0);
    // The whole pot went to one of the two players.
    let a = core.ledger.get_offset("g.A");
    let b = core.ledger.get_offset("g.B");
    assert!((a == 200 && b == 0) || (a == 0 && b == 200));
}

/// A job whose game was already resolved elsewhere is consumed silently.
#[test]
fn job_for_a_missing_game_is_acknowledged_and_deleted() {
    let config = test_config();
    let mut core = Core::new(config);
    let id = core.jobs.enqueue(
        JobType::SardinesFinish,
        JobPayload::Sardines(SardinesJobPayload {
            id: "gone".to_string(),
            channel_id: 1,
            message_id: 2,
        }),
        500,
        0,
    );
    let outcomes = core.poll_once(500);
    assert_eq!(outcomes.len(), 1);
    assert!(matches!(outcomes[0].1, lottery_core::engine::JobOutcome::Skipped));
    assert!(core.jobs.get(&id).is_none());
}

/// Recovery settles exactly the games with no pending finish job, and a
/// second run finds no orphans.
#[test]
fn recover_resolves_orphans_and_is_idempotent() {
    let config = test_config();
    let mut core = Core::new(config.clone());

    // A covered game: persisted, with its timeout job enqueued.
    let mut covered = Sardines::init(&config, &member("A"), 10).unwrap();
    covered.save(&mut core.sardines, &mut core.ledger, 1_000).unwrap();
    covered.enqueue_timeout(&mut core.jobs, 5, 6, 1_000, 600);
    let covered_id = covered.id().to_string();

    // An orphan: persisted, but its job was never enqueued (a crash window).
    let mut orphan = Sardines::init(&config, &member("B"), 10).unwrap();
    orphan.save(&mut core.sardines, &mut core.ledger, 1_001).unwrap();
    let orphan_id = orphan.id().to_string();

    assert_eq!(core.sardines.len(), 2);
    let settled = core.recover();
    // Exactly the orphan was reported, and its settlement applied: a
    // one-player game is refunded and deleted; the covered game is left
    // to its job.
    assert_eq!(settled.len(), 1);
    assert_eq!(settled[0].0, orphan_id);
    assert!(matches!(
        settled[0].1,
        Some(lottery_core::sardines::SardinesOutcome::Refunded)
    ));
    assert!(core.sardines.get(&orphan_id).is_none());
    assert!(core.sardines.get(&covered_id).is_some());
    assert_eq!(core.ledger.get_offset("g.B"), 0);

    // Idempotence: the second run finds no orphans and changes nothing.
    let settled = core.recover();
    assert!(settled.is_empty());
    assert_eq!(core.sardines.len(), 1);
    assert!(core.sardines.get(&covered_id).is_some());
}
