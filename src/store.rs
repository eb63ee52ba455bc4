//! The structure table and the account table, with submission and
//! per-user, per-scene retention.
use crate::config::Config;
use std::collections::HashMap;
use vstd::prelude::*;

verus! {

broadcast use vstd::std_specs::hash::group_hash_axioms;

/// Longest display name and prefab name that the store accepts, in characters.
pub const MAX_NAME_LENGTH: usize = 50;

/// A point or direction, each coordinate held as the bit pattern of an
/// IEEE-754 single-precision number. The library never interprets them.
#[derive(Clone, Copy, PartialEq, Eq, Debug)]
pub struct Vec3Bits {
    pub x: u32,
    pub y: u32,
    pub z: u32,
}

/// A quaternion, held as bit patterns like [`Vec3Bits`].
#[derive(Clone, Copy, PartialEq, Eq, Debug)]
pub struct QuatBits {
    pub x: u32,
    pub y: u32,
    pub z: u32,
    pub w: u32,
}

/// Placement and rope geometry of a structure, carried through unchanged.
#[derive(Clone, Copy, PartialEq, Eq, Debug)]
pub struct Geometry {
    pub position: Vec3Bits,
    pub rotation: QuatBits,
    pub rope_start: Vec3Bits,
    pub rope_end: Vec3Bits,
    pub rope_length: u32,
    pub rope_flying_rotation: Vec3Bits,
    pub rope_anchor_rotation: QuatBits,
    pub antigrav: bool,
}

/// What a client submits.
#[derive(Debug)]
pub struct NewStructure {
    pub username: String,
    pub map_id: i32,
    pub scene: String,
    pub segment: i32,
    pub prefab: String,
    pub geometry: Geometry,
}

/// A stored structure.
#[derive(Debug)]
pub struct Structure {
    pub id: i64,
    pub created_at: i64,
    pub user_id: u64,
    pub username: String,
    pub map_id: i32,
    pub scene: String,
    pub segment: i32,
    pub prefab: String,
    pub geometry: Geometry,
    pub likes: i64,
    pub deleted: bool,
}

impl Structure {
    /// A copy of the row.
    pub fn copy_row(&self) -> (r: Structure)
        ensures
            r == *self,
    {
        Structure {
            id: self.id,
            created_at: self.created_at,
            user_id: self.user_id,
            username: self.username.clone(),
            map_id: self.map_id,
            scene: self.scene.clone(),
            segment: self.segment,
            prefab: self.prefab.clone(),
            geometry: self.geometry,
            likes: self.likes,
            deleted: self.deleted,
        }
    }
}

/// Per-identity aggregate.
#[derive(Clone, Copy, PartialEq, Eq, Debug)]
pub struct Account {
    pub upload_banned: bool,
    pub likes_received: i64,
    pub likes_sent: i64,
}

/// Why a submission failed.
#[derive(Clone, Copy, PartialEq, Eq, Debug)]
pub enum SubmitError {
    /// A name or the scene is longer than allowed.
    Validation,
    /// The store cannot take another row.
    Storage,
}

/// The backing store: structures in order of their ids, and accounts by
/// identity. `latest_created` is the latest creation time handed out, so
/// that creation times never go back even when the clock does.
pub struct Store {
    pub rows: Vec<Structure>,
    pub accounts: HashMap<u64, Account>,
    pub next_id: i64,
    pub latest_created: i64,
}

/// The creation time the store gives a row submitted at `now`: `now`, or
/// the latest time handed out before if the clock reads earlier.
pub open spec fn creation_time(latest_created: i64, now: i64) -> i64 {
    if now > latest_created {
        now
    } else {
        latest_created
    }
}

/// Ids grow along the rows, so no two rows share one.
pub open spec fn ids_increasing(rows: Seq<Structure>) -> bool {
    forall|i: int, j: int| 0 <= i < j < rows.len() ==> rows[i].id < rows[j].id
}

/// Whether a row is a live (non-deleted) structure of `owner` in `scene`.
pub open spec fn is_live_in(row: Structure, owner: u64, scene: Seq<char>) -> bool {
    row.user_id == owner && row.scene@ == scene && !row.deleted
}

/// How many live structures `owner` has in `scene`.
pub open spec fn live_count(rows: Seq<Structure>, owner: u64, scene: Seq<char>) -> nat
    decreases rows.len(),
{
    if rows.len() == 0 {
        0
    } else {
        live_count(rows.drop_last(), owner, scene) + if is_live_in(rows.last(), owner, scene) {
            1nat
        } else {
            0nat
        }
    }
}

/// The ids of the live structures of `owner` in `scene`, in order.
pub open spec fn live_ids_of(rows: Seq<Structure>, owner: u64, scene: Seq<char>) -> Seq<i64>
    decreases rows.len(),
{
    if rows.len() == 0 {
        Seq::empty()
    } else {
        let rest = live_ids_of(rows.drop_last(), owner, scene);
        if is_live_in(rows.last(), owner, scene) {
            rest.push(rows.last().id)
        } else {
            rest
        }
    }
}

/// No identity holds more than `cap` live structures in any scene.
pub open spec fn retention_holds(rows: Seq<Structure>, cap: int) -> bool {
    forall|owner: u64, scene: Seq<char>| #[trigger] live_count(rows, owner, scene) <= cap
}

/// `a` was created before `b`, or at the same time with a lower or equal id.
pub open spec fn older_or_same(a: Structure, b: Structure) -> bool {
    a.created_at < b.created_at || (a.created_at == b.created_at && a.id <= b.id)
}

/// Row `k` is the oldest live structure of `owner` in `scene`.
pub open spec fn is_oldest(rows: Seq<Structure>, k: int, owner: u64, scene: Seq<char>) -> bool {
    &&& 0 <= k < rows.len()
    &&& is_live_in(rows[k], owner, scene)
    &&& forall|j: int|
        0 <= j < rows.len() && is_live_in(#[trigger] rows[j], owner, scene) ==> older_or_same(
            rows[k],
            rows[j],
        )
}

/// The account an identity starts with.
pub open spec fn fresh_account() -> Account {
    Account { upload_banned: false, likes_received: 0, likes_sent: 0 }
}

/// The accounts after making sure that `identity` has one.
pub open spec fn with_account(accounts: Map<u64, Account>, identity: u64) -> Map<u64, Account> {
    if accounts.contains_key(identity) {
        accounts
    } else {
        accounts.insert(identity, fresh_account())
    }
}

/// Whether a submission respects the length bounds.
pub open spec fn submission_valid(p: NewStructure, max_scene_length: usize) -> bool {
    &&& p.username@.len() <= MAX_NAME_LENGTH
    &&& p.scene@.len() <= max_scene_length
    &&& p.prefab@.len() <= MAX_NAME_LENGTH
}

/// The row that a submission becomes.
pub open spec fn stored_row(id: i64, owner: u64, p: NewStructure, now: i64) -> Structure {
    Structure {
        id,
        created_at: now,
        user_id: owner,
        username: p.username,
        map_id: p.map_id,
        scene: p.scene,
        segment: p.segment,
        prefab: p.prefab,
        geometry: p.geometry,
        likes: 0,
        deleted: false,
    }
}

/// The rows after a submission of `row` with a retention cap of `cap`: the
/// row is appended and, when its owner then holds more than `cap` live rows
/// in its scene, the single oldest of them is removed.
pub open spec fn retained_after(
    rows: Seq<Structure>,
    pushed: Seq<Structure>,
    row: Structure,
    cap: int,
) -> bool {
    if live_count(pushed, row.user_id, row.scene@) > cap {
        exists|k: int| is_oldest(pushed, k, row.user_id, row.scene@) && rows == pushed.remove(k)
    } else {
        rows == pushed
    }
}

/// Counting one more row of a prefix.
proof fn lemma_live_count_step(rows: Seq<Structure>, i: int, owner: u64, scene: Seq<char>)
    requires
        0 <= i < rows.len(),
    ensures
        live_count(rows.subrange(0, i + 1), owner, scene) == live_count(rows.subrange(0, i), owner, scene)
            + if is_live_in(rows[i], owner, scene) {
            1nat
        } else {
            0nat
        },
{
    assert(rows.subrange(0, i + 1).drop_last() =~= rows.subrange(0, i));
}

/// Appending a row adds one to the count it is live in, and nothing to others.
pub proof fn lemma_live_count_push(rows: Seq<Structure>, row: Structure, owner: u64, scene: Seq<char>)
    ensures
        live_count(rows.push(row), owner, scene) == live_count(rows, owner, scene) + if is_live_in(
            row,
            owner,
            scene,
        ) {
            1nat
        } else {
            0nat
        },
{
    assert(rows.push(row).drop_last() =~= rows);
}

/// Removing a row takes one from the count it is live in, and nothing from others.
pub proof fn lemma_live_count_remove(rows: Seq<Structure>, k: int, owner: u64, scene: Seq<char>)
    requires
        0 <= k < rows.len(),
    ensures
        live_count(rows, owner, scene) == live_count(rows.remove(k), owner, scene) + if is_live_in(
            rows[k],
            owner,
            scene,
        ) {
            1nat
        } else {
            0nat
        },
    decreases rows.len(),
{
    if k == rows.len() - 1 {
        assert(rows.remove(k) =~= rows.drop_last());
    } else {
        lemma_live_count_remove(rows.drop_last(), k, owner, scene);
        assert(rows.remove(k).drop_last() =~= rows.drop_last().remove(k));
        assert(rows.remove(k).last() == rows.last());
    }
}

/// A positive count has a row behind it.
proof fn lemma_live_exists(rows: Seq<Structure>, owner: u64, scene: Seq<char>)
    requires
        live_count(rows, owner, scene) > 0,
    ensures
        exists|k: int| 0 <= k < rows.len() && is_live_in(#[trigger] rows[k], owner, scene),
    decreases rows.len(),
{
    if !is_live_in(rows.last(), owner, scene) {
        lemma_live_exists(rows.drop_last(), owner, scene);
        let k = choose|k: int|
            0 <= k < rows.drop_last().len() && is_live_in(#[trigger] rows.drop_last()[k], owner, scene);
        assert(rows[k] == rows.drop_last()[k]);
    } else {
        assert(is_live_in(rows[rows.len() - 1], owner, scene));
    }
}

/// An empty store keeps every non-negative retention cap; with the
/// preservation that `submit` and `apply_like` state, the cap then holds
/// after any sequence of submissions and likes.
pub proof fn lemma_empty_store_retains(cap: int)
    requires
        cap >= 0,
    ensures
        retention_holds(Seq::empty(), cap),
{
    assert forall|owner: u64, scene: Seq<char>| #[trigger]
        live_count(Seq::<Structure>::empty(), owner, scene) <= cap by {}
}

/// Whether stored rows can make up a store: ids increase, are at least 1
/// and leave room for another, and likes are non-negative.
pub open spec fn rows_loadable(rows: Seq<Structure>) -> bool {
    &&& ids_increasing(rows)
    &&& forall|i: int| 0 <= i < rows.len() ==> 1 <= #[trigger] rows[i].id < i64::MAX
    &&& forall|i: int| 0 <= i < rows.len() ==> #[trigger] rows[i].likes >= 0
}

/// Whether stored accounts can make up a store: counters are non-negative.
pub open spec fn accounts_loadable(accounts: Seq<(u64, Account)>) -> bool {
    forall|i: int|
        0 <= i < accounts.len() ==> #[trigger] accounts[i].1.likes_received >= 0
            && accounts[i].1.likes_sent >= 0
}

/// The accounts by identity; a later entry for an identity replaces an
/// earlier one.
pub open spec fn accounts_map(accounts: Seq<(u64, Account)>) -> Map<u64, Account>
    decreases accounts.len(),
{
    if accounts.len() == 0 {
        Map::empty()
    } else {
        accounts_map(accounts.drop_last()).insert(accounts.last().0, accounts.last().1)
    }
}

/// The latest creation time among the first `n` rows, or `i64::MIN`.
pub open spec fn latest_of(rows: Seq<Structure>, n: int) -> i64
    decreases n,
{
    if n <= 0 {
        i64::MIN
    } else {
        let before = latest_of(rows, n - 1);
        if rows[n - 1].created_at > before {
            rows[n - 1].created_at
        } else {
            before
        }
    }
}

/// No row among the first `n` was created after their latest time.
proof fn lemma_latest_of_bounds(rows: Seq<Structure>, n: int)
    requires
        0 <= n <= rows.len(),
    ensures
        forall|i: int| 0 <= i < n ==> #[trigger] rows[i].created_at <= latest_of(rows, n),
    decreases n,
{
    if n > 0 {
        lemma_latest_of_bounds(rows, n - 1);
    }
}

/// Every account in the map comes from an entry with non-negative counters.
proof fn lemma_accounts_map_values(accounts: Seq<(u64, Account)>, u: u64)
    requires
        accounts_loadable(accounts),
        accounts_map(accounts).contains_key(u),
    ensures
        accounts_map(accounts)[u].likes_received >= 0 && accounts_map(accounts)[u].likes_sent >= 0,
    decreases accounts.len(),
{
    if accounts.last().0 != u {
        assert(accounts_loadable(accounts.drop_last()));
        lemma_accounts_map_values(accounts.drop_last(), u);
    } else {
        assert(accounts[accounts.len() - 1] == accounts.last());
    }
}

impl Store {
    /// Ids increase along the rows and stay below `next_id`; no row was
    /// created after `latest_created`; likes and account counters are
    /// non-negative.
    pub open spec fn wf(&self) -> bool {
        &&& ids_increasing(self.rows@)
        &&& 1 <= self.next_id
        &&& forall|i: int|
            0 <= i < self.rows@.len() ==> 1 <= #[trigger] self.rows@[i].id < self.next_id
                && self.rows@[i].likes >= 0 && self.rows@[i].created_at <= self.latest_created
        &&& forall|u: u64| #[trigger]
            self.accounts@.contains_key(u) ==> self.accounts@[u].likes_received >= 0
                && self.accounts@[u].likes_sent >= 0
    }

    /// A store made of rows read back from storage, in id order, and of
    /// accounts; `None` when they break the store's invariants. The next id
    /// follows the last row's, and the latest creation time is the latest
    /// among the rows.
    pub fn load(rows: Vec<Structure>, accounts: Vec<(u64, Account)>) -> (r: Option<Store>)
        ensures
            r is Some <==> rows_loadable(rows@) && accounts_loadable(accounts@),
            r matches Some(s) ==> {
                &&& s.wf()
                &&& s.rows@ == rows@
                &&& s.accounts@ == accounts_map(accounts@)
                &&& s.next_id == if rows@.len() == 0 {
                    1
                } else {
                    rows@.last().id + 1
                }
                &&& s.latest_created == latest_of(rows@, rows@.len() as int)
            },
    {
        let mut i: usize = 0;
        let mut latest: i64 = i64::MIN;
        while i < rows.len()
            invariant
                i <= rows@.len(),
                latest == latest_of(rows@, i as int),
                forall|t: int| 0 <= t < i ==> 1 <= #[trigger] rows@[t].id < i64::MAX,
                forall|t: int| 0 <= t < i ==> #[trigger] rows@[t].likes >= 0,
                forall|t: int, u: int| 0 <= t < u < i ==> rows@[t].id < rows@[u].id,
            decreases rows@.len() - i,
        {
            let row = &rows[i];
            if row.id < 1 || row.id == i64::MAX || row.likes < 0 {
                return None;
            }
            if i > 0 && rows[i - 1].id >= row.id {
                return None;
            }
            if row.created_at > latest {
                latest = row.created_at;
            }
            i = i + 1;
        }
        let mut map: HashMap<u64, Account> = HashMap::new();
        let mut j: usize = 0;
        while j < accounts.len()
            invariant
                j <= accounts@.len(),
                forall|t: int|
                    0 <= t < j ==> #[trigger] accounts@[t].1.likes_received >= 0
                        && accounts@[t].1.likes_sent >= 0,
                map@ == accounts_map(accounts@.subrange(0, j as int)),
            decreases accounts@.len() - j,
        {
            let (id, account) = accounts[j];
            if account.likes_received < 0 || account.likes_sent < 0 {
                return None;
            }
            proof {
                assert(accounts@.subrange(0, j + 1).drop_last() =~= accounts@.subrange(0, j as int));
            }
            map.insert(id, account);
            j = j + 1;
        }
        proof {
            assert(accounts@.subrange(0, j as int) =~= accounts@);
            lemma_latest_of_bounds(rows@, rows@.len() as int);
            assert forall|u: u64| #[trigger] map@.contains_key(u) implies map@[u].likes_received >= 0
                && map@[u].likes_sent >= 0 by {
                lemma_accounts_map_values(accounts@, u);
            }
        }
        let next_id: i64 = if rows.len() == 0 {
            1
        } else {
            rows[rows.len() - 1].id + 1
        };
        Some(Store { rows, accounts: map, next_id, latest_created: latest })
    }

    /// An empty store whose first id is 1.
    pub fn new() -> (r: Store)
        ensures
            r.wf(),
            r.rows@ == Seq::<Structure>::empty(),
            r.accounts@ == Map::<u64, Account>::empty(),
            r.next_id == 1,
            r.latest_created == i64::MIN,
    {
        Store { rows: Vec::new(), accounts: HashMap::new(), next_id: 1, latest_created: i64::MIN }
    }

    /// The outcome of a submission by `owner` at time `now`: a payload out
    /// of bounds is refused with `Validation`; when ids are exhausted the
    /// store refuses with `Storage`; both leave the store as it was.
    /// Otherwise the owner gets an account if it had none, the row is
    /// appended with the next id and a creation time no earlier than any
    /// before, and the retention rule applies. With a cap of at least one,
    /// the new row is never the one evicted: it stays last in the store.
    pub open spec fn submitted(
        pre: Store,
        post: Store,
        owner: u64,
        payload: NewStructure,
        now: i64,
        cfg: Config,
        r: Result<Structure, SubmitError>,
    ) -> bool {
        if !submission_valid(payload, cfg.max_scene_length) {
            r == Err::<Structure, SubmitError>(SubmitError::Validation) && post == pre
        } else if pre.next_id == i64::MAX {
            r == Err::<Structure, SubmitError>(SubmitError::Storage) && post == pre
        } else {
            let row = stored_row(
                pre.next_id,
                owner,
                payload,
                creation_time(pre.latest_created, now),
            );
            &&& r == Ok::<Structure, SubmitError>(row)
            &&& post.next_id == pre.next_id + 1
            &&& post.latest_created == creation_time(pre.latest_created, now)
            &&& post.accounts@ == with_account(pre.accounts@, owner)
            &&& retained_after(
                post.rows@,
                pre.rows@.push(row),
                row,
                cfg.max_user_structs_saved_per_scene as int,
            )
            &&& cfg.max_user_structs_saved_per_scene >= 1 ==> post.rows@.len() > 0
                && post.rows@.last() == row
        }
    }

    /// Number of live structures of `owner` in `scene`.
    pub fn count_live(&self, owner: u64, scene: &String) -> (r: usize)
        ensures
            r == live_count(self.rows@, owner, scene@),
    {
        let mut count: usize = 0;
        let mut i: usize = 0;
        while i < self.rows.len()
            invariant
                i <= self.rows@.len(),
                count == live_count(self.rows@.subrange(0, i as int), owner, scene@),
                count <= i,
            decreases self.rows@.len() - i,
        {
            let row = &self.rows[i];
            proof {
                lemma_live_count_step(self.rows@, i as int, owner, scene@);
            }
            if row.user_id == owner && !row.deleted && row.scene == *scene {
                count = count + 1;
            }
            i = i + 1;
        }
        assert(self.rows@.subrange(0, i as int) =~= self.rows@);
        count
    }

    /// The ids of the live structures of `owner` in `scene`, in store order.
    pub fn live_ids(&self, owner: u64, scene: &String) -> (r: Vec<i64>)
        ensures
            r@ == live_ids_of(self.rows@, owner, scene@),
    {
        let mut ids: Vec<i64> = Vec::new();
        let mut i: usize = 0;
        while i < self.rows.len()
            invariant
                i <= self.rows@.len(),
                ids@ == live_ids_of(self.rows@.subrange(0, i as int), owner, scene@),
            decreases self.rows@.len() - i,
        {
            let row = &self.rows[i];
            proof {
                assert(self.rows@.subrange(0, i + 1).drop_last() =~= self.rows@.subrange(0, i as int));
            }
            if row.user_id == owner && !row.deleted && row.scene == *scene {
                ids.push(row.id);
            }
            i = i + 1;
        }
        assert(self.rows@.subrange(0, i as int) =~= self.rows@);
        ids
    }

    /// Index of the oldest live structure of `owner` in `scene`.
    fn oldest_index(&self, owner: u64, scene: &String) -> (r: usize)
        requires
            live_count(self.rows@, owner, scene@) > 0,
        ensures
            is_oldest(self.rows@, r as int, owner, scene@),
    {
        proof {
            lemma_live_exists(self.rows@, owner, scene@);
        }
        let mut best: Option<usize> = None;
        let mut i: usize = 0;
        while i < self.rows.len()
            invariant
                i <= self.rows@.len(),
                match best {
                    None => forall|j: int|
                        0 <= j < i ==> !is_live_in(#[trigger] self.rows@[j], owner, scene@),
                    Some(b) => b < i && is_live_in(self.rows@[b as int], owner, scene@) && forall|
                        j: int,
                    |
                        0 <= j < i && is_live_in(#[trigger] self.rows@[j], owner, scene@)
                            ==> older_or_same(self.rows@[b as int], self.rows@[j]),
                },
            decreases self.rows@.len() - i,
        {
            let row = &self.rows[i];
            if row.user_id == owner && !row.deleted && row.scene == *scene {
                match best {
                    None => {
                        best = Some(i);
                    },
                    Some(b) => {
                        let cur = &self.rows[b];
                        if row.created_at < cur.created_at || (row.created_at == cur.created_at
                            && row.id < cur.id) {
                            best = Some(i);
                        }
                    },
                }
            }
            i = i + 1;
        }
        match best {
            Some(b) => b,
            None => {
                proof {
                    let k = choose|k: int|
                        0 <= k < self.rows@.len() && is_live_in(
                            #[trigger] self.rows@[k],
                            owner,
                            scene@,
                        );
                    assert(!is_live_in(self.rows@[k], owner, scene@));
                }
                0
            },
        }
    }

    /// Stores a submission by `owner` at time `now`: makes sure that the
    /// owner has an account, appends the row with the next id, and when the
    /// owner then holds more than the configured number of live structures
    /// in that scene, removes the single oldest of them.
    pub fn submit(&mut self, owner: u64, payload: NewStructure, now: i64, cfg: &Config) -> (r:
        Result<Structure, SubmitError>)
        requires
            old(self).wf(),
        ensures
            final(self).wf(),
            Store::submitted(*old(self), *final(self), owner, payload, now, *cfg, r),
            forall|u: u64, s: Seq<char>|
                live_count(old(self).rows@, u, s) <= cfg.max_user_structs_saved_per_scene
                    ==> #[trigger] live_count(final(self).rows@, u, s)
                    <= cfg.max_user_structs_saved_per_scene,
    {
        if payload.username.as_str().unicode_len() > MAX_NAME_LENGTH
            || payload.scene.as_str().unicode_len() > cfg.max_scene_length
            || payload.prefab.as_str().unicode_len() > MAX_NAME_LENGTH {
            return Err(SubmitError::Validation);
        }
        if self.next_id == i64::MAX {
            return Err(SubmitError::Storage);
        }
        let ghost pre = *self;
        let stamp: i64 = if now > self.latest_created {
            now
        } else {
            self.latest_created
        };
        let ghost spec_row = stored_row(self.next_id, owner, payload, stamp);
        if !self.accounts.contains_key(&owner) {
            self.accounts.insert(owner, Account { upload_banned: false, likes_received: 0, likes_sent: 0 });
        }
        assert(self.accounts@ =~= with_account(pre.accounts@, owner));
        let row = Structure {
            id: self.next_id,
            created_at: stamp,
            user_id: owner,
            username: payload.username,
            map_id: payload.map_id,
            scene: payload.scene,
            segment: payload.segment,
            prefab: payload.prefab,
            geometry: payload.geometry,
            likes: 0,
            deleted: false,
        };
        let result = row.copy_row();
        self.rows.push(row);
        self.next_id = self.next_id + 1;
        self.latest_created = stamp;
        let ghost pushed = self.rows@;
        assert(pushed == pre.rows@.push(spec_row));
        let cap = cfg.max_user_structs_saved_per_scene;
        let count = self.count_live(owner, &result.scene);
        let over = if cap < 0 {
            true
        } else {
            count as u64 > cap as u64
        };
        let ghost mut removed: int = 0;
        if over {
            let k = self.oldest_index(owner, &result.scene);
            self.rows.remove(k);
            proof {
                removed = k as int;
                assert(is_oldest(pushed, removed, owner, spec_row.scene@));
                if cap >= 1 {
                    let last = pushed.len() - 1;
                    lemma_live_count_push(pre.rows@, spec_row, owner, spec_row.scene@);
                    lemma_live_exists(pre.rows@, owner, spec_row.scene@);
                    let j = choose|j: int|
                        0 <= j < pre.rows@.len() && is_live_in(
                            #[trigger] pre.rows@[j],
                            owner,
                            spec_row.scene@,
                        );
                    assert(pushed[j] == pre.rows@[j]);
                    assert(removed != last);
                    assert(self.rows@.last() == pushed.last());
                }
            }
        }
        proof {
            assert forall|u: u64, s: Seq<char>|
                live_count(pre.rows@, u, s) <= cap implies #[trigger] live_count(self.rows@, u, s)
                <= cap by {
                lemma_live_count_push(pre.rows@, spec_row, u, s);
                if over {
                    lemma_live_count_remove(pushed, removed, u, s);
                }
            }
        }
        Ok(result)
    }
}

} // verus!
