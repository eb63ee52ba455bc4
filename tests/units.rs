use peakstranding::config::{parse_bool, parse_i64, parse_unsigned, Config};
use peakstranding::identity::{AuthError, IdentityCache, VerifyOutcome};
use peakstranding::ledger::LikeError;
use peakstranding::rate_limit::RateLimiter;
use peakstranding::sample::{exclusion_list, rank_sample, SampleError, SampleQuery};
use peakstranding::schema::column_listed;
use peakstranding::service::ApiError;
use peakstranding::store::{Account, Geometry, NewStructure, QuatBits, Store, Structure, SubmitError, Vec3Bits};

fn zero_geometry() -> Geometry {
    let v = Vec3Bits { x: 0, y: 0, z: 0 };
    let q = QuatBits { x: 0, y: 0, z: 0, w: 0 };
    Geometry {
        position: v,
        rotation: q,
        rope_start: v,
        rope_end: v,
        rope_length: 0,
        rope_flying_rotation: v,
        rope_anchor_rotation: q,
        antigrav: true,
    }
}

fn cfg(cap: i64, max_requested: i64) -> Config {
    Config {
        steam_appid: 0,
        max_user_structs_saved_per_scene: cap,
        max_requested_structs: max_requested,
        post_structure_rate_limit_ms: 0,
        get_structure_rate_limit_ms: 0,
        post_like_rate_limit_ms: 0,
        default_random_limit: 3,
        max_scene_length: 8,
        database_url: String::new(),
        server_port: 0,
        skip_steam_ticket_validation: false,
    }
}

fn payload(scene: &str, segment: i32, prefab: &str) -> NewStructure {
    NewStructure {
        username: "name".to_string(),
        map_id: 7,
        scene: scene.to_string(),
        segment,
        prefab: prefab.to_string(),
        geometry: zero_geometry(),
    }
}

fn row(id: i64, user_id: u64, segment: i32) -> Structure {
    Structure {
        id,
        created_at: 0,
        user_id,
        username: String::new(),
        map_id: 1,
        scene: "S".to_string(),
        segment,
        prefab: format!("p{id}"),
        geometry: zero_geometry(),
        likes: 0,
        deleted: false,
    }
}

#[test]
fn exclusion_list_drops_empty_items() {
    assert_eq!(exclusion_list("a,,b,"), vec!["a".to_string(), "b".to_string()]);
    assert_eq!(exclusion_list(""), Vec::<String>::new());
    assert_eq!(exclusion_list(",,,"), Vec::<String>::new());
    assert_eq!(exclusion_list("only"), vec!["only".to_string()]);
    assert_eq!(exclusion_list("é,ü"), vec!["é".to_string(), "ü".to_string()]);
}

#[test]
fn parse_numbers_like_std() {
    assert_eq!(parse_unsigned("42", u64::MAX), Some(42));
    assert_eq!(parse_unsigned("+7", u64::MAX), Some(7));
    assert_eq!(parse_unsigned("+", u64::MAX), None);
    assert_eq!(parse_unsigned("", u64::MAX), None);
    assert_eq!(parse_unsigned(" 1", u64::MAX), None);
    assert_eq!(parse_unsigned("-1", u64::MAX), None);
    assert_eq!(parse_unsigned("18446744073709551615", u64::MAX), Some(u64::MAX));
    assert_eq!(parse_unsigned("18446744073709551616", u64::MAX), None);
    assert_eq!(parse_unsigned("65536", 65535), None);
    assert_eq!(parse_unsigned("65535", 65535), Some(65535));
    assert_eq!(parse_i64("-9223372036854775808"), Some(i64::MIN));
    assert_eq!(parse_i64("-9223372036854775809"), None);
    assert_eq!(parse_i64("9223372036854775807"), Some(i64::MAX));
    assert_eq!(parse_i64("9223372036854775808"), None);
    assert_eq!(parse_i64("-0"), Some(0));
    assert_eq!(parse_i64("-"), None);
    assert_eq!(parse_i64("+12"), Some(12));
    assert_eq!(parse_bool("true"), Some(true));
    assert_eq!(parse_bool("false"), Some(false));
    assert_eq!(parse_bool("TRUE"), None);
}

#[test]
fn config_defaults_and_overrides() {
    let c = Config::from_env(&Vec::new());
    assert_eq!(c.steam_appid, 3527290);
    assert_eq!(c.max_user_structs_saved_per_scene, 100);
    assert_eq!(c.max_requested_structs, 400);
    assert_eq!(c.post_structure_rate_limit_ms, 2000);
    assert_eq!(c.get_structure_rate_limit_ms, 6000);
    assert_eq!(c.post_like_rate_limit_ms, 1000);
    assert_eq!(c.default_random_limit, 40);
    assert_eq!(c.max_scene_length, 50);
    assert_eq!(c.database_url, "sqlite://peakstranding.db?mode=rwc");
    assert_eq!(c.server_port, 3000);
    assert!(!c.skip_steam_ticket_validation);

    let vars = vec![
        ("MAX_REQUESTED_STRUCTS".to_string(), "12".to_string()),
        ("SERVER_PORT".to_string(), "70000".to_string()),
        ("POST_LIKE_RATE_LIMIT".to_string(), "3".to_string()),
        ("DEFAULT_RANDOM_LIMIT".to_string(), "-5".to_string()),
        ("MAX_SCENE_LENGTH".to_string(), "abc".to_string()),
        ("DATABASE_URL".to_string(), "sqlite::memory:".to_string()),
        ("SKIP_STEAM_TICKET_VALIDATION".to_string(), "true".to_string()),
        ("MAX_REQUESTED_STRUCTS".to_string(), "99".to_string()),
    ];
    let c = Config::from_env(&vars);
    assert_eq!(c.max_requested_structs, 12);
    assert_eq!(c.server_port, 3000);
    assert_eq!(c.post_like_rate_limit_ms, 3000);
    assert_eq!(c.default_random_limit, -5);
    assert_eq!(c.max_scene_length, 50);
    assert_eq!(c.database_url, "sqlite::memory:");
    assert!(c.skip_steam_ticket_validation);
}

#[test]
fn rate_limiter_cooldown_window() {
    let mut limiter = RateLimiter::new(100);
    assert!(limiter.check(5, 1_000));
    assert!(limiter.try_acquire(5, 1_000));
    assert!(!limiter.try_acquire(5, 1_099));
    assert!(limiter.try_acquire(6, 1_099));
    assert!(limiter.try_acquire(5, 1_100));
    assert!(!limiter.check(5, 1_150));
    // A clock reading earlier than the last action counts as no time passed.
    assert!(!limiter.check(5, 10));
    assert_eq!(limiter.cooldown_ms(), 100);
}

#[test]
fn identity_cache_fills_only_on_success() {
    let mut cache = IdentityCache::new();
    let ok = VerifyOutcome::Answered { result: "OK".to_string(), steamid: "76561198000000000".to_string() };
    assert_eq!(cache.finish("t1".to_string(), ok), Ok(76561198000000000));
    assert_eq!(cache.cached("t1"), Some(76561198000000000));

    let denied = VerifyOutcome::Answered { result: "Invalid ticket".to_string(), steamid: "5".to_string() };
    assert_eq!(cache.finish("t2".to_string(), denied), Err(AuthError::Rejected));
    assert_eq!(cache.cached("t2"), None);

    let bad_id = VerifyOutcome::Answered { result: "OK".to_string(), steamid: "x5".to_string() };
    assert_eq!(cache.finish("t3".to_string(), bad_id), Err(AuthError::UpstreamUnavailable));
    assert_eq!(cache.finish("t4".to_string(), VerifyOutcome::Transport), Err(AuthError::UpstreamUnavailable));
    assert_eq!(cache.finish("t5".to_string(), VerifyOutcome::Malformed), Err(AuthError::UpstreamUnavailable));
    assert_eq!(cache.cached("t3"), None);
    assert_eq!(cache.cached("t1"), Some(76561198000000000));
}

#[test]
fn error_statuses() {
    assert_eq!(ApiError::Auth(AuthError::Unauthenticated).status(), 401);
    assert_eq!(ApiError::Auth(AuthError::Rejected).status(), 401);
    assert_eq!(ApiError::Auth(AuthError::BadRequest).status(), 400);
    assert_eq!(ApiError::Auth(AuthError::UpstreamUnavailable).status(), 502);
    assert_eq!(ApiError::TooManyRequests.status(), 429);
    assert_eq!(ApiError::Validation.status(), 400);
    assert_eq!(ApiError::NotFound.status(), 404);
    assert_eq!(ApiError::SelfLikeForbidden.status(), 400);
    assert_eq!(ApiError::Storage.status(), 500);
    assert!(!ApiError::NotFound.message().is_empty());
}

#[test]
fn submit_validates_lengths() {
    let mut store = Store::new();
    let c = cfg(2, 4);
    assert_eq!(store.submit(1, payload("123456789", 0, "p"), 0, &c).unwrap_err(), SubmitError::Validation);
    assert_eq!(store.submit(1, payload("12345678", 0, &"p".repeat(51)), 0, &c).unwrap_err(), SubmitError::Validation);
    let mut long_name = payload("S", 0, "p");
    long_name.username = "n".repeat(51);
    assert_eq!(store.submit(1, long_name, 0, &c).unwrap_err(), SubmitError::Validation);
    assert!(store.rows.is_empty());
    assert!(store.accounts.is_empty());
    let ok = store.submit(1, payload("12345678", 0, &"p".repeat(50)), 5, &c).unwrap();
    assert_eq!((ok.id, ok.created_at, ok.user_id, ok.likes, ok.deleted), (1, 5, 1, 0, false));
    assert_eq!(ok.geometry, zero_geometry());
    assert_eq!(store.accounts.get(&1).unwrap().likes_sent, 0);
}

#[test]
fn submit_refuses_when_ids_are_exhausted() {
    let mut store = Store::new();
    store.next_id = i64::MAX;
    assert_eq!(store.submit(1, payload("S", 0, "p"), 0, &cfg(2, 4)).unwrap_err(), SubmitError::Storage);
    assert!(store.rows.is_empty());
}

#[test]
fn eviction_prefers_earliest_creation_then_lowest_id() {
    let mut store = Store::new();
    let c = cfg(2, 4);
    store.submit(1, payload("S", 0, "a"), 10, &c).unwrap();
    store.submit(1, payload("S", 0, "b"), 10, &c).unwrap();
    // A clock reading earlier than before still gives the latest time.
    let third = store.submit(1, payload("S", 0, "c"), 5, &c).unwrap();
    assert_eq!(third.created_at, 10);
    let prefabs: Vec<&str> = store.rows.iter().map(|r| r.prefab.as_str()).collect();
    assert_eq!(prefabs, vec!["b", "c"]);
    store.submit(1, payload("S", 0, "d"), 20, &c).unwrap();
    let prefabs: Vec<&str> = store.rows.iter().map(|r| r.prefab.as_str()).collect();
    assert_eq!(prefabs, vec!["c", "d"]);
    // Other owners and scenes are untouched.
    store.submit(2, payload("S", 0, "other_owner"), 0, &c).unwrap();
    store.submit(1, payload("T", 0, "other_scene"), 0, &c).unwrap();
    assert_eq!(store.rows.len(), 4);
    assert_eq!(store.count_live(1, &"S".to_string()), 2);
    assert_eq!(store.live_ids(1, &"S".to_string()), vec![3, 4]);
    assert_eq!(store.latest_created, 20);
}

#[test]
fn load_accepts_consistent_rows_only() {
    let loaded = Store::load(vec![row(3, 1, 0), row(7, 2, 0)], vec![(1, Account { upload_banned: false, likes_received: 4, likes_sent: 0 })])
        .expect("consistent");
    assert_eq!(loaded.next_id, 8);
    assert_eq!(loaded.rows.len(), 2);
    assert_eq!(loaded.accounts.get(&1).unwrap().likes_received, 4);
    let empty = Store::load(Vec::new(), Vec::new()).unwrap();
    assert_eq!(empty.next_id, 1);
    assert!(Store::load(vec![row(7, 1, 0), row(3, 2, 0)], Vec::new()).is_none());
    assert!(Store::load(vec![row(0, 1, 0)], Vec::new()).is_none());
    assert!(Store::load(vec![row(i64::MAX, 1, 0)], Vec::new()).is_none());
    let mut negative = row(2, 1, 0);
    negative.likes = -1;
    assert!(Store::load(vec![negative], Vec::new()).is_none());
    let bad_account = Account { upload_banned: false, likes_received: 0, likes_sent: -2 };
    assert!(Store::load(Vec::new(), vec![(5, bad_account)]).is_none());
}

#[test]
fn sample_scene_bound_counts_bytes() {
    let store = Store::new();
    let c = cfg(5, 10);
    let fits = SampleQuery { scene: "éééé".to_string(), map_id: None, limit: None, exclude_prefabs: None };
    assert!(store.sample(&fits, &c).unwrap().is_empty());
    let over = SampleQuery { scene: "ééééé".to_string(), map_id: None, limit: None, exclude_prefabs: None };
    assert_eq!(store.sample(&over, &c).unwrap_err(), SampleError::SceneTooLong);
}

#[test]
fn error_messages() {
    assert_eq!(ApiError::Auth(AuthError::BadRequest).message(), "bad header");
    assert_eq!(ApiError::Auth(AuthError::Rejected).message(), "ticket rejected");
    assert_eq!(ApiError::Auth(AuthError::Unauthenticated).message(), "X-Steam-Auth missing");
    assert_eq!(ApiError::NotFound.message(), "Structure not found");
    assert_eq!(ApiError::SelfLikeForbidden.message(), "Cannot like your own structure.");
}

#[test]
fn zero_cap_keeps_nothing() {
    let mut store = Store::new();
    let r = store.submit(1, payload("S", 0, "p"), 0, &cfg(0, 4)).unwrap();
    assert_eq!(r.id, 1);
    assert!(store.rows.is_empty());
    assert_eq!(store.next_id, 2);
}

#[test]
fn like_clamps_and_credits_both_accounts() {
    let mut store = Store::new();
    let c = cfg(5, 4);
    let id = store.submit(1, payload("S", 0, "p"), 0, &c).unwrap().id;
    assert_eq!(store.apply_like(2, id, 150), Ok(100));
    assert_eq!(store.apply_like(2, id, 0), Ok(1));
    assert_eq!(store.apply_like(2, id, -40), Ok(1));
    assert_eq!(store.apply_like(2, id, 37), Ok(37));
    assert_eq!(store.rows[0].likes, 139);
    assert_eq!(store.accounts.get(&2).unwrap().likes_sent, 139);
    assert_eq!(store.accounts.get(&2).unwrap().likes_received, 0);
    assert_eq!(store.accounts.get(&1).unwrap().likes_received, 139);
}

#[test]
fn self_like_changes_nothing() {
    let mut store = Store::new();
    let id = store.submit(1, payload("S", 0, "p"), 0, &cfg(5, 4)).unwrap().id;
    assert_eq!(store.apply_like(1, id, 10), Err(LikeError::SelfLikeForbidden));
    assert_eq!(store.rows[0].likes, 0);
    assert_eq!(store.accounts.get(&1).unwrap().likes_received, 0);
    assert_eq!(store.accounts.get(&1).unwrap().likes_sent, 0);
    assert_eq!(store.accounts.len(), 1);
}

#[test]
fn like_of_deleted_or_missing_is_not_found() {
    let mut store = Store::new();
    let id = store.submit(1, payload("S", 0, "p"), 0, &cfg(5, 4)).unwrap().id;
    store.rows[0].deleted = true;
    assert_eq!(store.apply_like(2, id, 1), Err(LikeError::NotFound));
    assert_eq!(store.apply_like(2, 999, 1), Err(LikeError::NotFound));
    assert!(store.accounts.get(&2).is_none());
}

#[test]
fn like_overflow_is_a_storage_error() {
    let mut store = Store::new();
    let id = store.submit(1, payload("S", 0, "p"), 0, &cfg(5, 4)).unwrap().id;
    store.rows[0].likes = i64::MAX - 5;
    assert_eq!(store.apply_like(2, id, 6), Err(LikeError::Storage));
    assert_eq!(store.rows[0].likes, i64::MAX - 5);
    assert_eq!(store.apply_like(2, id, 5), Ok(5));
}

#[test]
fn deleted_rows_are_not_sampled() {
    let mut store = Store::new();
    let c = cfg(5, 10);
    store.submit(1, payload("S", 0, "a"), 0, &c).unwrap();
    store.submit(1, payload("S", 1, "b"), 0, &c).unwrap();
    store.rows[0].deleted = true;
    let q = SampleQuery { scene: "S".to_string(), map_id: None, limit: Some(10), exclude_prefabs: None };
    let v = store.sample(&q, &c).unwrap();
    assert_eq!(v.len(), 1);
    assert_eq!(v[0].prefab, "b");
    let long = SampleQuery { scene: "123456789".to_string(), map_id: None, limit: None, exclude_prefabs: None };
    assert_eq!(store.sample(&long, &c).unwrap_err(), SampleError::SceneTooLong);
    let default_limit = SampleQuery { scene: "S".to_string(), map_id: Some(7), limit: None, exclude_prefabs: None };
    assert_eq!(store.sample(&default_limit, &c).unwrap().len(), 1);
}

#[test]
fn rank_sample_orders_by_rank_then_second_draw() {
    // Partitions: (1,0) rows 0,1; (1,1) row 2; (2,0) rows 3,4.
    let rows = vec![row(10, 1, 0), row(11, 1, 0), row(12, 1, 1), row(13, 2, 0), row(14, 2, 0)];
    let rank_draws = vec![5, 3, 9, 1, 1];
    let order_draws = vec![0, 7, 2, 4, 8];
    // Ranks: row0 2, row1 1, row2 1, row3 1, row4 2 (tie on draw, later index).
    // Rank 1 by second draw: row2 (2), row3 (4), row1 (7); then rank 2: row0 (0), row4 (8).
    let all = rank_sample(&rows, &rank_draws, &order_draws, 10);
    let ids: Vec<i64> = all.iter().map(|r| r.id).collect();
    assert_eq!(ids, vec![12, 13, 11, 10, 14]);
    let three = rank_sample(&rows, &rank_draws, &order_draws, 3);
    let ids: Vec<i64> = three.iter().map(|r| r.id).collect();
    assert_eq!(ids, vec![12, 13, 11]);
    assert!(rank_sample(&rows, &rank_draws, &order_draws, 0).is_empty());
}

#[test]
fn candidates_follow_store_order() {
    let mut store = Store::new();
    let c = cfg(5, 10);
    store.submit(1, payload("S", 0, "a"), 0, &c).unwrap();
    store.submit(2, payload("S", 0, "b"), 0, &c).unwrap();
    store.submit(3, payload("T", 0, "a"), 0, &c).unwrap();
    let picked = store.candidates(&"S".to_string(), Some(7), &vec!["b".to_string()]);
    assert_eq!(picked.len(), 1);
    assert_eq!(picked[0].user_id, 1);
    assert!(store.candidates(&"S".to_string(), Some(8), &Vec::new()).is_empty());
}

#[test]
fn column_names_compare_ignoring_ascii_case() {
    let names = vec!["id".to_string(), "Likes".to_string(), "déleted".to_string()];
    assert!(column_listed(&names, "likes"));
    assert!(column_listed(&names, "LIKES"));
    assert!(column_listed(&names, "DéLETED"));
    assert!(!column_listed(&names, "deleted"));
    assert!(!column_listed(&names, "like"));
    assert!(!column_listed(&Vec::new(), "id"));
}
