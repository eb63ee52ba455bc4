use peakstranding::config::Config;
use peakstranding::identity::{AuthError, Credential, Resolution};
use peakstranding::sample::SampleQuery;
use peakstranding::service::{ApiError, Engine};
use peakstranding::store::{Geometry, NewStructure, QuatBits, Vec3Bits};

const OWNER_TICKET: &str = "owner-ticket";
const LIKER_TICKET: &str = "liker-ticket";
const OTHER_TICKET: &str = "other-ticket";

const OWNER_ID: u64 = 111;
const LIKER_ID: u64 = 222;
const OTHER_ID: u64 = 333;

const COOLDOWN_MS: u64 = 100;

fn test_config() -> Config {
    Config {
        steam_appid: 0,
        max_user_structs_saved_per_scene: 2,
        max_requested_structs: 4,
        post_structure_rate_limit_ms: COOLDOWN_MS,
        get_structure_rate_limit_ms: COOLDOWN_MS,
        post_like_rate_limit_ms: COOLDOWN_MS,
        default_random_limit: 3,
        max_scene_length: 16,
        database_url: "sqlite::memory:".to_string(),
        server_port: 0,
        skip_steam_ticket_validation: true,
    }
}

/// An engine with the three test tickets already cached, and a clock.
struct TestContext {
    engine: Engine,
    now: u64,
}

impl TestContext {
    fn new() -> Self {
        let mut engine = Engine::new(test_config());
        engine.identities.remember(OWNER_TICKET.to_string(), OWNER_ID);
        engine.identities.remember(LIKER_TICKET.to_string(), LIKER_ID);
        engine.identities.remember(OTHER_TICKET.to_string(), OTHER_ID);
        TestContext { engine, now: 1_000 }
    }

    fn identify(&mut self, ticket: &str) -> u64 {
        match self.engine.resolve(Credential::Ticket(ticket.to_string())) {
            Resolution::Resolved(id) => id,
            _ => panic!("ticket not resolved"),
        }
    }

    fn post_structure(&mut self, ticket: &str, payload: NewStructure) -> u16 {
        self.post_structure_full(ticket, payload).map(|_| 200).unwrap_or_else(|e| e.status())
    }

    fn post_structure_full(
        &mut self,
        ticket: &str,
        payload: NewStructure,
    ) -> Result<peakstranding::store::Structure, ApiError> {
        let id = self.identify(ticket);
        let now = self.now;
        self.engine.post_structure(id, payload, now, now as i64)
    }

    fn get_random(&mut self, ticket: &str, query: SampleQuery) -> Result<Vec<peakstranding::store::Structure>, ApiError> {
        let id = self.identify(ticket);
        let now = self.now;
        self.engine.get_random(id, &query, now)
    }

    fn like_structure(&mut self, ticket: &str, structure_id: i64, count: Option<i32>) -> u16 {
        let id = self.identify(ticket);
        let now = self.now;
        match self.engine.like_structure(id, structure_id, count, now) {
            Ok(_) => 204,
            Err(e) => e.status(),
        }
    }

    /// Lets every cooldown elapse.
    fn wait_out_cooldowns(&mut self) {
        self.now += COOLDOWN_MS;
    }

    fn create_structure(&mut self, ticket: &str, username: &str, scene: &str, map_id: i32, segment: i32, prefab: &str) -> i64 {
        let payload = structure_payload(username, scene, map_id, segment, prefab);
        let row = self.post_structure_full(ticket, payload).expect("submission accepted");
        self.wait_out_cooldowns();
        row.id
    }

    fn prefabs_in_scene(&self, scene: &str) -> Vec<String> {
        self.engine
            .store
            .rows
            .iter()
            .filter(|r| r.scene == scene && !r.deleted)
            .map(|r| r.prefab.clone())
            .collect()
    }
}

fn geometry() -> Geometry {
    let v = |x: f32, y: f32, z: f32| Vec3Bits { x: x.to_bits(), y: y.to_bits(), z: z.to_bits() };
    let q = |x: f32, y: f32, z: f32, w: f32| QuatBits {
        x: x.to_bits(),
        y: y.to_bits(),
        z: z.to_bits(),
        w: w.to_bits(),
    };
    Geometry {
        position: v(1.0, 2.0, 3.0),
        rotation: q(0.0, 0.0, 0.0, 1.0),
        rope_start: v(0.0, 0.0, 0.0),
        rope_end: v(1.0, 1.0, 1.0),
        rope_length: 5.0f32.to_bits(),
        rope_flying_rotation: v(0.0, 0.0, 0.0),
        rope_anchor_rotation: q(0.0, 0.0, 0.0, 1.0),
        antigrav: false,
    }
}

fn structure_payload(username: &str, scene: &str, map_id: i32, segment: i32, prefab: &str) -> NewStructure {
    NewStructure {
        username: username.to_string(),
        map_id,
        scene: scene.to_string(),
        segment,
        prefab: prefab.to_string(),
        geometry: geometry(),
    }
}

fn query(scene: &str, map_id: Option<i32>, limit: Option<i64>, exclude: Option<&str>) -> SampleQuery {
    SampleQuery {
        scene: scene.to_string(),
        map_id,
        limit,
        exclude_prefabs: exclude.map(|s| s.to_string()),
    }
}

#[test]
fn post_structure_stores_and_returns_payload() {
    let mut ctx = TestContext::new();
    let payload = structure_payload("Sam", "SceneA", 1, 0, "prefab_a");
    let body = ctx.post_structure_full(OWNER_TICKET, payload).expect("200");
    assert_eq!(body.username, "Sam");
    assert_eq!(body.user_id as i64, OWNER_ID as i64);
    assert_eq!(body.likes, 0);
    let id = body.id;
    let count = ctx.engine.store.rows.iter().filter(|r| r.id == id).count();
    assert_eq!(count, 1);
}

#[test]
fn post_structure_blocks_when_rate_limited() {
    let mut ctx = TestContext::new();
    let first = ctx.post_structure(OWNER_TICKET, structure_payload("Sam", "SceneRate", 1, 0, "prefab_rate"));
    assert_eq!(first, 200);
    let second = ctx.post_structure(OWNER_TICKET, structure_payload("Sam", "SceneRate", 1, 0, "prefab_rate"));
    assert_eq!(second, 429);
}

#[test]
fn post_structure_prunes_oldest_per_user_scene() {
    let mut ctx = TestContext::new();
    for segment in 0..3 {
        let prefab = format!("prefab_{segment}");
        let _ = ctx.create_structure(OWNER_TICKET, "Sam", "ScenePrune", 1, segment, &prefab);
    }
    let prefabs = ctx.prefabs_in_scene("ScenePrune");
    assert_eq!(prefabs, vec!["prefab_1".to_string(), "prefab_2".to_string()]);
}

#[test]
fn requests_missing_steam_header_are_rejected() {
    let mut ctx = TestContext::new();
    let status = match ctx.engine.resolve(Credential::Missing) {
        Resolution::Failed(e) => ApiError::Auth(e).status(),
        _ => 200,
    };
    assert_eq!(status, 401);
}

#[test]
fn get_random_applies_limits_and_filters() {
    let mut ctx = TestContext::new();
    let users = [(OWNER_TICKET, "Owner"), (LIKER_TICKET, "Liker"), (OTHER_TICKET, "Other")];
    let mut prefabs = Vec::new();
    for (ticket, prefix) in users {
        for segment in 0..2 {
            let prefab = format!("{prefix}_prefab_{segment}");
            prefabs.push(prefab.clone());
            let _ = ctx.create_structure(ticket, &format!("{prefix}_user"), "SceneRandom", 1, segment, &prefab);
        }
    }

    let items = ctx.get_random(OWNER_TICKET, query("SceneRandom", None, None, None)).expect("200");
    assert_eq!(items.len(), ctx.engine.config.default_random_limit as usize);
    for item in &items {
        assert_eq!(item.scene, "SceneRandom");
    }

    ctx.wait_out_cooldowns();
    let items = ctx.get_random(OWNER_TICKET, query("SceneRandom", Some(1), Some(10), None)).expect("200");
    assert_eq!(items.len(), ctx.engine.config.max_requested_structs as usize);
    for item in &items {
        assert_eq!(item.map_id, 1);
    }

    ctx.wait_out_cooldowns();
    let keep = prefabs.last().unwrap().clone();
    let exclude = prefabs.iter().filter(|name| **name != keep).cloned().collect::<Vec<_>>().join(",");
    let items = ctx
        .get_random(OWNER_TICKET, query("SceneRandom", Some(1), Some(10), Some(&exclude)))
        .expect("200");
    assert_eq!(items.len(), 1);
    assert_eq!(items[0].prefab, keep);

    ctx.wait_out_cooldowns();
    let too_long_scene = "X".repeat(ctx.engine.config.max_scene_length + 1);
    let status = ctx.get_random(OWNER_TICKET, query(&too_long_scene, None, None, None)).unwrap_err().status();
    assert_eq!(status, 400);
}

#[test]
fn get_random_enforces_rate_limit() {
    let mut ctx = TestContext::new();
    let _ = ctx.create_structure(OWNER_TICKET, "RateUser", "SceneRate", 1, 0, "prefab_rate");
    let first = ctx.get_random(OWNER_TICKET, query("SceneRate", None, None, None));
    assert!(first.is_ok());
    let second = ctx.get_random(OWNER_TICKET, query("SceneRate", None, None, None));
    assert_eq!(second.unwrap_err().status(), 429);
}

#[test]
fn like_structure_updates_counts_and_clamps() {
    let mut ctx = TestContext::new();
    let structure_id = ctx.create_structure(OWNER_TICKET, "Owner", "SceneLike", 1, 0, "prefab_like");
    let status = ctx.like_structure(LIKER_TICKET, structure_id, Some(150));
    assert_eq!(status, 204);
    let likes = ctx.engine.store.rows.iter().find(|r| r.id == structure_id).unwrap().likes;
    assert_eq!(likes, 100);
    let likes_send = ctx.engine.store.accounts.get(&LIKER_ID).unwrap().likes_sent;
    assert_eq!(likes_send, 100);
    let likes_received = ctx.engine.store.accounts.get(&OWNER_ID).unwrap().likes_received;
    assert_eq!(likes_received, 100);
}

#[test]
fn like_structure_rejects_self_likes() {
    let mut ctx = TestContext::new();
    let structure_id = ctx.create_structure(OWNER_TICKET, "Owner", "SceneSelf", 1, 0, "prefab_self");
    let status = ctx.like_structure(OWNER_TICKET, structure_id, Some(1));
    assert_eq!(status, 400);
}

#[test]
fn like_structure_enforces_rate_limit() {
    let mut ctx = TestContext::new();
    let structure_id = ctx.create_structure(OWNER_TICKET, "Owner", "SceneLikeLimit", 1, 0, "prefab_like_limit");
    let first = ctx.like_structure(LIKER_TICKET, structure_id, Some(1));
    assert_eq!(first, 204);
    let second = ctx.like_structure(LIKER_TICKET, structure_id, Some(1));
    assert_eq!(second, 429);
}

#[test]
fn like_structure_fails_for_missing_structure() {
    let mut ctx = TestContext::new();
    let status = ctx.like_structure(LIKER_TICKET, 999, Some(1));
    assert_eq!(status, 404);
}

#[test]
fn scenario_retention_keeps_second_and_third() {
    let mut ctx = TestContext::new();
    let first = ctx.create_structure(OWNER_TICKET, "U", "S", 1, 0, "one");
    let second = ctx.create_structure(OWNER_TICKET, "U", "S", 1, 0, "two");
    let third = ctx.create_structure(OWNER_TICKET, "U", "S", 1, 0, "three");
    let ids: Vec<i64> = ctx
        .engine
        .store
        .rows
        .iter()
        .filter(|r| r.user_id == OWNER_ID && r.scene == "S" && !r.deleted)
        .map(|r| r.id)
        .collect();
    assert_eq!(ids, vec![second, third]);
    assert!(!ids.contains(&first));
}

#[test]
fn scenario_like_outcomes() {
    let mut ctx = TestContext::new();
    let own = ctx.create_structure(OWNER_TICKET, "Owner", "SceneP", 1, 0, "p");
    assert_eq!(ctx.like_structure(LIKER_TICKET, 999, None), 404);
    ctx.wait_out_cooldowns();
    assert_eq!(ctx.like_structure(OWNER_TICKET, own, None), 400);
    ctx.wait_out_cooldowns();
    assert_eq!(ctx.like_structure(LIKER_TICKET, own, None), 204);
    assert_eq!(ctx.like_structure(LIKER_TICKET, own, None), 429);
    let likes = ctx.engine.store.rows.iter().find(|r| r.id == own).unwrap().likes;
    assert_eq!(likes, 1);
}

#[test]
fn scenario_submit_cooldown_then_allowed() {
    let mut ctx = TestContext::new();
    assert_eq!(ctx.post_structure(OWNER_TICKET, structure_payload("U", "S", 1, 0, "a")), 200);
    ctx.now += COOLDOWN_MS - 1;
    assert_eq!(ctx.post_structure(OWNER_TICKET, structure_payload("U", "S", 1, 0, "b")), 429);
    ctx.now += 1;
    assert_eq!(ctx.post_structure(OWNER_TICKET, structure_payload("U", "S", 1, 0, "c")), 200);
}

#[test]
fn retention_cap_holds_over_many_submissions() {
    let mut ctx = TestContext::new();
    for i in 0..10 {
        let _ = ctx.create_structure(OWNER_TICKET, "U", "Many", 1, i, &format!("p{i}"));
        let live = ctx.prefabs_in_scene("Many").len();
        assert!(live <= 2);
    }
    assert_eq!(ctx.prefabs_in_scene("Many"), vec!["p8".to_string(), "p9".to_string()]);
}

#[test]
fn sample_respects_limit_and_filters() {
    let mut ctx = TestContext::new();
    for (ticket, map) in [(OWNER_TICKET, 1), (LIKER_TICKET, 2), (OTHER_TICKET, 1)] {
        let _ = ctx.create_structure(ticket, "u", "F", map, 0, "keep");
        let _ = ctx.create_structure(ticket, "u", "F", map, 1, "drop");
    }
    let _ = ctx.create_structure(OWNER_TICKET, "u", "Elsewhere", 1, 0, "keep");
    let items = ctx.get_random(OWNER_TICKET, query("F", Some(1), Some(100), Some(",drop,,"))).expect("200");
    assert_eq!(items.len(), 2);
    for item in &items {
        assert_eq!(item.scene, "F");
        assert_eq!(item.map_id, 1);
        assert_eq!(item.prefab, "keep");
    }
    ctx.wait_out_cooldowns();
    let items = ctx.get_random(OWNER_TICKET, query("F", None, Some(-3), None)).expect("200");
    assert!(items.is_empty());
}

#[test]
fn sample_spreads_over_owners_and_segments() {
    // Everything in one scene: two owners, two segments each, two rows per partition.
    let mut engine = Engine::new(Config { max_user_structs_saved_per_scene: 100, ..test_config() });
    let mut t = 0u64;
    for owner in [OWNER_ID, LIKER_ID] {
        for segment in 0..2 {
            for _ in 0..2 {
                t += COOLDOWN_MS;
                engine.post_structure(owner, structure_payload("u", "D", 1, segment, "p"), t, t as i64).unwrap();
            }
        }
    }
    for round in 0..5u64 {
        let items = engine.get_random(OTHER_ID, &query("D", None, Some(4), None), t + (round + 1) * COOLDOWN_MS).unwrap();
        assert_eq!(items.len(), 4);
        let mut parts: Vec<(u64, i32)> = items.iter().map(|r| (r.user_id, r.segment)).collect();
        parts.sort();
        parts.dedup();
        assert_eq!(parts.len(), 4);
    }
}

#[test]
fn override_ticket_must_be_numeric() {
    let mut engine = Engine::new(test_config());
    match engine.resolve(Credential::Ticket("not-a-number".to_string())) {
        Resolution::Failed(e) => {
            assert_eq!(e, AuthError::BadRequest);
            assert_eq!(ApiError::Auth(e).status(), 400);
        }
        _ => panic!("expected failure"),
    }
    match engine.resolve(Credential::Ticket("42".to_string())) {
        Resolution::Resolved(id) => assert_eq!(id, 42),
        _ => panic!("expected identity"),
    }
    assert_eq!(engine.identities.cached("42"), Some(42));
    match engine.resolve(Credential::Unreadable) {
        Resolution::Failed(e) => assert_eq!(ApiError::Auth(e).status(), 400),
        _ => panic!("expected failure"),
    }
}

#[test]
fn config_accessor_returns_engine_config() {
    let engine = Engine::new(test_config());
    let cfg = peakstranding::service::config(&engine);
    assert_eq!(cfg.max_requested_structs, 4);
    assert_eq!(peakstranding::config::default_limit(cfg), 3);
}
