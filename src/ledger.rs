//! Like accounting: a like moves a clamped count onto a structure and onto
//! the counters of its owner and of the liker, all at once or not at all.
use crate::store::{
    fresh_account, is_live_in, live_count, with_account, Account, Store, Structure,
};
use vstd::prelude::*;

verus! {

broadcast use vstd::std_specs::hash::group_hash_axioms;

/// Fewest likes that one request applies.
pub const MIN_LIKES_PER_REQUEST: i64 = 1;

/// Most likes that one request applies.
pub const MAX_LIKES_PER_REQUEST: i64 = 100;

/// Why a like was refused.
#[derive(Clone, Copy, PartialEq, Eq, Debug)]
pub enum LikeError {
    /// No live structure has the id.
    NotFound,
    /// The liker owns the structure.
    SelfLikeForbidden,
    /// A counter would leave the range the store can hold.
    Storage,
}

/// The requested count, clamped into `[1, 100]`.
pub open spec fn clamp_likes(requested: i32) -> int {
    if requested < MIN_LIKES_PER_REQUEST {
        MIN_LIKES_PER_REQUEST as int
    } else if requested > MAX_LIKES_PER_REQUEST {
        MAX_LIKES_PER_REQUEST as int
    } else {
        requested as int
    }
}

/// Row `k` is the live structure with id `id`.
pub open spec fn live_at(rows: Seq<Structure>, id: i64, k: int) -> bool {
    0 <= k < rows.len() && rows[k].id == id && !rows[k].deleted
}

/// The row with `count` more likes.
pub open spec fn with_likes(row: Structure, count: int) -> Structure {
    Structure {
        id: row.id,
        created_at: row.created_at,
        user_id: row.user_id,
        username: row.username,
        map_id: row.map_id,
        scene: row.scene,
        segment: row.segment,
        prefab: row.prefab,
        geometry: row.geometry,
        likes: (row.likes + count) as i64,
        deleted: row.deleted,
    }
}

/// An identity's account, or a fresh one if it has none yet.
pub open spec fn account_of(accounts: Map<u64, Account>, identity: u64) -> Account {
    if accounts.contains_key(identity) {
        accounts[identity]
    } else {
        fresh_account()
    }
}

/// The accounts after `liker` sent `count` likes to `owner`; both get an
/// account if they had none.
pub open spec fn credited(accounts: Map<u64, Account>, liker: u64, owner: u64, count: int) -> Map<
    u64,
    Account,
> {
    let l = account_of(accounts, liker);
    let o = account_of(accounts, owner);
    accounts.insert(
        liker,
        Account {
            upload_banned: l.upload_banned,
            likes_received: l.likes_received,
            likes_sent: (l.likes_sent + count) as i64,
        },
    ).insert(
        owner,
        Account {
            upload_banned: o.upload_banned,
            likes_received: (o.likes_received + count) as i64,
            likes_sent: o.likes_sent,
        },
    )
}

/// Whether every counter that a like of `count` on row `k` raises stays in range.
pub open spec fn like_fits(
    rows: Seq<Structure>,
    accounts: Map<u64, Account>,
    k: int,
    liker: u64,
    count: int,
) -> bool {
    &&& rows[k].likes + count <= i64::MAX
    &&& account_of(accounts, liker).likes_sent + count <= i64::MAX
    &&& account_of(accounts, rows[k].user_id).likes_received + count <= i64::MAX
}

/// Rows that agree on liveness per owner and scene have the same counts.
proof fn lemma_live_count_same_keys(
    before: Seq<Structure>,
    after: Seq<Structure>,
    owner: u64,
    scene: Seq<char>,
)
    requires
        before.len() == after.len(),
        forall|i: int|
            0 <= i < before.len() ==> (is_live_in(#[trigger] before[i], owner, scene) == is_live_in(
                after[i],
                owner,
                scene,
            )),
    ensures
        live_count(before, owner, scene) == live_count(after, owner, scene),
    decreases before.len(),
{
    if before.len() > 0 {
        assert forall|i: int| 0 <= i < before.drop_last().len() implies (is_live_in(
            #[trigger] before.drop_last()[i],
            owner,
            scene,
        ) == is_live_in(after.drop_last()[i], owner, scene)) by {
            assert(before.drop_last()[i] == before[i]);
            assert(after.drop_last()[i] == after[i]);
        }
        lemma_live_count_same_keys(before.drop_last(), after.drop_last(), owner, scene);
        assert(before.last() == before[before.len() - 1]);
    }
}

impl Store {
    /// The outcome of a like of `requested` by `liker` on the structure with
    /// id `id`: refused with `NotFound` when no live structure has the id,
    /// with `SelfLikeForbidden` when the liker owns it, with `Storage` when a
    /// counter would overflow, each leaving the store as it was; otherwise
    /// the clamped count is added to the structure's likes, to the liker's
    /// sent likes and to the owner's received likes.
    pub open spec fn liked(
        pre: Store,
        post: Store,
        liker: u64,
        id: i64,
        requested: i32,
        r: Result<i64, LikeError>,
    ) -> bool {
        &&& (!(exists|k: int| live_at(pre.rows@, id, k)) <==> r == Err::<i64, LikeError>(
            LikeError::NotFound,
        ))
        &&& ((exists|k: int| live_at(pre.rows@, id, k) && pre.rows@[k].user_id == liker)
            <==> r == Err::<i64, LikeError>(LikeError::SelfLikeForbidden))
        &&& ((exists|k: int|
            live_at(pre.rows@, id, k) && pre.rows@[k].user_id != liker && !like_fits(
                pre.rows@,
                pre.accounts@,
                k,
                liker,
                clamp_likes(requested),
            )) <==> r == Err::<i64, LikeError>(LikeError::Storage))
        &&& (r is Err ==> post == pre)
        &&& ((exists|k: int|
            live_at(pre.rows@, id, k) && pre.rows@[k].user_id != liker && like_fits(
                pre.rows@,
                pre.accounts@,
                k,
                liker,
                clamp_likes(requested),
            )) <==> r is Ok)
        &&& (r matches Ok(c) ==> {
            &&& c == clamp_likes(requested)
            &&& MIN_LIKES_PER_REQUEST <= c <= MAX_LIKES_PER_REQUEST
            &&& exists|k: int|
                {
                    &&& live_at(pre.rows@, id, k)
                    &&& pre.rows@[k].user_id != liker
                    &&& post.rows@ == pre.rows@.update(
                        k,
                        with_likes(pre.rows@[k], c as int),
                    )
                    &&& post.accounts@ == credited(
                        pre.accounts@,
                        liker,
                        pre.rows@[k].user_id,
                        c as int,
                    )
                }
        })
    }

    /// Index of the live structure with id `id`, if there is one.
    pub fn find_live(&self, id: i64) -> (r: Option<usize>)
        ensures
            match r {
                Some(k) => live_at(self.rows@, id, k as int),
                None => forall|j: int| 0 <= j < self.rows@.len() ==> !live_at(self.rows@, id, j),
            },
    {
        let mut i: usize = 0;
        while i < self.rows.len()
            invariant
                i <= self.rows@.len(),
                forall|j: int| 0 <= j < i ==> !live_at(self.rows@, id, j),
            decreases self.rows@.len() - i,
        {
            if self.rows[i].id == id && !self.rows[i].deleted {
                return Some(i);
            }
            i = i + 1;
        }
        None
    }

    /// Applies a like of `requested` (clamped into `[1, 100]`) by `liker` to
    /// the live structure with id `id`, and returns the count applied.
    pub fn apply_like(&mut self, liker: u64, id: i64, requested: i32) -> (r: Result<i64, LikeError>)
        requires
            old(self).wf(),
        ensures
            final(self).wf(),
            final(self).next_id == old(self).next_id,
            Store::liked(*old(self), *final(self), liker, id, requested, r),
            forall|u: u64, s: Seq<char>| #[trigger]
                live_count(final(self).rows@, u, s) == live_count(old(self).rows@, u, s),
    {
        let found = self.find_live(id);
        let k = match found {
            None => {
                return Err(LikeError::NotFound);
            },
            Some(k) => k,
        };
        let owner = self.rows[k].user_id;
        if owner == liker {
            return Err(LikeError::SelfLikeForbidden);
        }
        let count: i64 = if (requested as i64) < MIN_LIKES_PER_REQUEST {
            MIN_LIKES_PER_REQUEST
        } else if (requested as i64) > MAX_LIKES_PER_REQUEST {
            MAX_LIKES_PER_REQUEST
        } else {
            requested as i64
        };
        let sent: i64 = match self.accounts.get(&liker) {
            Some(a) => a.likes_sent,
            None => 0,
        };
        let received: i64 = match self.accounts.get(&owner) {
            Some(a) => a.likes_received,
            None => 0,
        };
        if self.rows[k].likes > i64::MAX - count || sent > i64::MAX - count || received > i64::MAX
            - count {
            return Err(LikeError::Storage);
        }
        let ghost pre = *self;
        let liker_account: Account = match self.accounts.get(&liker) {
            Some(a) => *a,
            None => Account { upload_banned: false, likes_received: 0, likes_sent: 0 },
        };
        let owner_account: Account = match self.accounts.get(&owner) {
            Some(a) => *a,
            None => Account { upload_banned: false, likes_received: 0, likes_sent: 0 },
        };
        self.accounts.insert(
            liker,
            Account {
                upload_banned: liker_account.upload_banned,
                likes_received: liker_account.likes_received,
                likes_sent: liker_account.likes_sent + count,
            },
        );
        self.accounts.insert(
            owner,
            Account {
                upload_banned: owner_account.upload_banned,
                likes_received: owner_account.likes_received + count,
                likes_sent: owner_account.likes_sent,
            },
        );
        let mut row = self.rows[k].copy_row();
        row.likes = row.likes + count;
        self.rows.set(k, row);
        proof {
            assert(self.accounts@ =~= credited(pre.accounts@, liker, owner, count as int));
            assert(self.rows@ =~= pre.rows@.update(k as int, with_likes(pre.rows@[k as int], count as int)));
            assert forall|u: u64, s: Seq<char>| #[trigger]
                live_count(self.rows@, u, s) == live_count(pre.rows@, u, s) by {
                lemma_live_count_same_keys(pre.rows@, self.rows@, u, s);
            }
        }
        Ok(count)
    }
}

} // verus!
