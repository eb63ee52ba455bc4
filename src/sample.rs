//! Diversity-ranked random sampling of the structures of a scene.
use crate::config::{default_limit, Config};
use crate::store::{Store, Structure};
use vstd::prelude::*;
use vstd::set_lib::{lemma_int_range, lemma_len_subset, set_int_range};

verus! {

/// What a sample asks for. `exclude_prefabs` is a comma-separated list in
/// which empty items are ignored; a missing `limit` takes the configured
/// default.
pub struct SampleQuery {
    pub scene: String,
    pub map_id: Option<i32>,
    pub limit: Option<i64>,
    pub exclude_prefabs: Option<String>,
}

/// Why a sample was refused.
#[derive(Clone, Copy, PartialEq, Eq, Debug)]
pub enum SampleError {
    /// The scene name is longer than the configured maximum.
    SceneTooLong,
}

/// Left-to-right scan of `s[..n]` for comma-separated items: the items
/// finished so far (empty ones dropped) and the item under way.
pub open spec fn comma_scan(s: Seq<char>, n: nat) -> (Seq<Seq<char>>, Seq<char>)
    decreases n,
{
    if n == 0 || n > s.len() {
        (Seq::empty(), Seq::empty())
    } else {
        let (done, cur) = comma_scan(s, (n - 1) as nat);
        if s[n - 1] == ',' {
            (
                if cur.len() > 0 {
                    done.push(cur)
                } else {
                    done
                },
                Seq::empty(),
            )
        } else {
            (done, cur.push(s[n - 1]))
        }
    }
}

/// The non-empty items of a comma-separated list, in order.
pub open spec fn comma_items(s: Seq<char>) -> Seq<Seq<char>> {
    let (done, cur) = comma_scan(s, s.len());
    if cur.len() > 0 {
        done.push(cur)
    } else {
        done
    }
}

/// The texts of a list of strings.
pub open spec fn string_views(v: Seq<String>) -> Seq<Seq<char>> {
    v.map_values(|x: String| x@)
}

/// Splits a comma-separated list into its non-empty items.
pub fn exclusion_list(raw: &str) -> (r: Vec<String>)
    ensures
        string_views(r@) == comma_items(raw@),
{
    let n = raw.unicode_len();
    let mut items: Vec<String> = Vec::new();
    let mut start: usize = 0;
    let mut i: usize = 0;
    while i < n
        invariant
            n == raw@.len(),
            start <= i <= n,
            comma_scan(raw@, i as nat) == (string_views(items@), raw@.subrange(
                start as int,
                i as int,
            )),
        decreases n - i,
    {
        let c = raw.get_char(i);
        proof {
            assert(raw@.subrange(start as int, i + 1) =~= raw@.subrange(start as int, i as int).push(c));
        }
        if c == ',' {
            if start < i {
                let item = raw.substring_char(start, i).to_owned();
                proof {
                    assert(string_views(items@.push(item)) =~= string_views(items@).push(item@));
                }
                items.push(item);
            }
            start = i + 1;
            proof {
                assert(raw@.subrange(start as int, i + 1) =~= Seq::<char>::empty());
            }
        }
        i = i + 1;
    }
    if start < n {
        let item = raw.substring_char(start, n).to_owned();
        proof {
            assert(string_views(items@.push(item)) =~= string_views(items@).push(item@));
        }
        items.push(item);
    }
    items
}

/// Whether a stored row answers the query: same scene, not deleted, on the
/// requested map if one is given, and of no excluded prefab.
pub open spec fn matches_query(
    row: Structure,
    scene: Seq<char>,
    map_id: Option<i32>,
    excluded: Seq<Seq<char>>,
) -> bool {
    &&& row.scene@ == scene
    &&& !row.deleted
    &&& match map_id {
        Some(m) => row.map_id == m,
        None => true,
    }
    &&& !excluded.contains(row.prefab@)
}

/// The rows that answer the query, in store order.
pub open spec fn select_rows(
    rows: Seq<Structure>,
    scene: Seq<char>,
    map_id: Option<i32>,
    excluded: Seq<Seq<char>>,
) -> Seq<Structure>
    decreases rows.len(),
{
    if rows.len() == 0 {
        Seq::empty()
    } else {
        let rest = select_rows(rows.drop_last(), scene, map_id, excluded);
        if matches_query(rows.last(), scene, map_id, excluded) {
            rest.push(rows.last())
        } else {
            rest
        }
    }
}

/// Every selected row is a row of the store that answers the query.
pub proof fn lemma_select_rows_match(
    rows: Seq<Structure>,
    scene: Seq<char>,
    map_id: Option<i32>,
    excluded: Seq<Seq<char>>,
)
    ensures
        select_rows(rows, scene, map_id, excluded).len() <= rows.len(),
        forall|k: int|
            0 <= k < select_rows(rows, scene, map_id, excluded).len() ==> {
                let row = #[trigger] select_rows(rows, scene, map_id, excluded)[k];
                matches_query(row, scene, map_id, excluded) && rows.contains(row)
            },
    decreases rows.len(),
{
    if rows.len() > 0 {
        lemma_select_rows_match(rows.drop_last(), scene, map_id, excluded);
        let rest = select_rows(rows.drop_last(), scene, map_id, excluded);
        assert forall|k: int|
            0 <= k < select_rows(rows, scene, map_id, excluded).len() implies {
            let row = #[trigger] select_rows(rows, scene, map_id, excluded)[k];
            matches_query(row, scene, map_id, excluded) && rows.contains(row)
        } by {
            if k < rest.len() {
                let row = rest[k];
                let t = choose|t: int| 0 <= t < rows.drop_last().len() && rows.drop_last()[t] == row;
                assert(rows[t] == row);
            } else {
                assert(rows[rows.len() - 1] == rows.last());
            }
        }
    }
}

/// Whether `prefab` is one of `excluded`.
fn is_excluded(excluded: &Vec<String>, prefab: &String) -> (r: bool)
    ensures
        r == string_views(excluded@).contains(prefab@),
{
    let mut i: usize = 0;
    while i < excluded.len()
        invariant
            i <= excluded@.len(),
            forall|t: int| 0 <= t < i ==> excluded@[t]@ != prefab@,
        decreases excluded@.len() - i,
    {
        if excluded[i] == *prefab {
            assert(string_views(excluded@)[i as int] == prefab@);
            return true;
        }
        i = i + 1;
    }
    proof {
        if string_views(excluded@).contains(prefab@) {
            let t = choose|t: int|
                0 <= t < string_views(excluded@).len() && string_views(excluded@)[t] == prefab@;
            assert(excluded@[t]@ == prefab@);
        }
    }
    false
}

/// The partition that diversity ranking spreads a sample over.
pub open spec fn partition_of(row: Structure) -> (u64, i32) {
    (row.user_id, row.segment)
}

/// In the random order that `draws` sets, row `j` comes before row `i`.
pub open spec fn draw_before(draws: Seq<u64>, j: int, i: int) -> bool {
    draws[j] < draws[i] || (draws[j] == draws[i] && j < i)
}

/// How many of the first `n` rows share row `i`'s partition and come before
/// it in the random order.
pub open spec fn rank_below(rows: Seq<Structure>, draws: Seq<u64>, i: int, n: int) -> nat
    decreases n,
{
    if n <= 0 {
        0
    } else {
        rank_below(rows, draws, i, n - 1) + if partition_of(rows[n - 1]) == partition_of(rows[i])
            && draw_before(draws, n - 1, i) {
            1nat
        } else {
            0nat
        }
    }
}

/// The position of row `i` within its partition, in the random order, from 1.
pub open spec fn diversity_rank(rows: Seq<Structure>, draws: Seq<u64>, i: int) -> nat {
    1 + rank_below(rows, draws, i, rows.len() as int)
}

/// The sample order: by diversity rank, then by a second draw, then by position.
pub open spec fn key_before(
    rows: Seq<Structure>,
    rank_draws: Seq<u64>,
    order_draws: Seq<u64>,
    a: int,
    b: int,
) -> bool {
    let ra = diversity_rank(rows, rank_draws, a);
    let rb = diversity_rank(rows, rank_draws, b);
    ra < rb || (ra == rb && (order_draws[a] < order_draws[b] || (order_draws[a] == order_draws[b]
        && a < b)))
}

/// `picks` lists, in sample order, the `m` rows that come first in that order.
pub open spec fn ranked_selection(
    rows: Seq<Structure>,
    rank_draws: Seq<u64>,
    order_draws: Seq<u64>,
    picks: Seq<int>,
    m: int,
) -> bool {
    &&& picks.len() == m
    &&& forall|k: int| 0 <= k < m ==> 0 <= #[trigger] picks[k] < rows.len()
    &&& forall|k: int, l: int|
        0 <= k < l < m ==> key_before(rows, rank_draws, order_draws, #[trigger] picks[k], #[trigger] picks[l])
    &&& forall|j: int, k: int|
        #![trigger picks[k], picks.contains(j)]
        0 <= j < rows.len() && !picks.contains(j) && 0 <= k < m ==> key_before(
            rows,
            rank_draws,
            order_draws,
            picks[k],
            j,
        )
}

/// `sample` is the first `m` rows of `rows` in sample order.
pub open spec fn is_ranked_sample(
    sample: Seq<Structure>,
    rows: Seq<Structure>,
    rank_draws: Seq<u64>,
    order_draws: Seq<u64>,
    m: int,
) -> bool {
    exists|picks: Seq<int>|
        ranked_selection(rows, rank_draws, order_draws, picks, m) && sample == picks.map_values(
            |j: int| rows[j],
        )
}

/// Number of distinct partitions among `rows`.
pub open spec fn partition_count(rows: Seq<Structure>) -> nat {
    rows.map_values(|r: Structure| partition_of(r)).to_set().len()
}

/// Fewer than `n` picks leave an index below `n` unpicked.
proof fn lemma_untaken_exists(picks: Seq<int>, n: int)
    requires
        picks.len() < n,
    ensures
        exists|j: int| 0 <= j < n && !picks.contains(j),
{
    if forall|j: int| 0 <= j < n ==> picks.contains(j) {
        assert(set_int_range(0, n).subset_of(picks.to_set()));
        lemma_int_range(0, n);
        vstd::seq_lib::seq_to_set_is_finite(picks);
        lemma_len_subset(set_int_range(0, n), picks.to_set());
        picks.lemma_cardinality_of_set();
    }
}

/// Orders `rows` by diversity rank and returns the first `limit` of them.
/// `rank_draws[i]` places row `i` within its partition, `order_draws[i]`
/// places it among rows of equal rank.
pub fn rank_sample(
    rows: &Vec<Structure>,
    rank_draws: &Vec<u64>,
    order_draws: &Vec<u64>,
    limit: usize,
) -> (r: Vec<Structure>)
    requires
        rank_draws@.len() == rows@.len(),
        order_draws@.len() == rows@.len(),
    ensures
        r@.len() == if limit < rows@.len() {
            limit as int
        } else {
            rows@.len() as int
        },
        is_ranked_sample(r@, rows@, rank_draws@, order_draws@, r@.len() as int),
{
    let n = rows.len();
    let ghost c = rows@;
    let ghost d = rank_draws@;
    let ghost e = order_draws@;
    let mut below_counts: Vec<usize> = Vec::new();
    let mut i: usize = 0;
    while i < n
        invariant
            n == c.len(),
            c == rows@,
            d == rank_draws@,
            d.len() == n,
            i <= n,
            below_counts@.len() == i,
            forall|t: int| 0 <= t < i ==> below_counts@[t] == rank_below(c, d, t, n as int),
        decreases n - i,
    {
        let mut below: usize = 0;
        let mut j: usize = 0;
        while j < n
            invariant
                n == c.len(),
                c == rows@,
                d == rank_draws@,
                d.len() == n,
                i < n,
                j <= n,
                below <= j,
                below == rank_below(c, d, i as int, j as int),
            decreases n - j,
        {
            if rows[j].user_id == rows[i].user_id && rows[j].segment == rows[i].segment && (
            rank_draws[j] < rank_draws[i] || (rank_draws[j] == rank_draws[i] && j < i)) {
                below = below + 1;
            }
            j = j + 1;
        }
        below_counts.push(below);
        i = i + 1;
    }
    let m: usize = if limit < n {
        limit
    } else {
        n
    };
    let mut taken: Vec<bool> = Vec::new();
    let mut t: usize = 0;
    while t < n
        invariant
            t <= n,
            taken@.len() == t,
            forall|x: int| 0 <= x < t ==> !taken@[x],
        decreases n - t,
    {
        taken.push(false);
        t = t + 1;
    }
    let mut out: Vec<Structure> = Vec::new();
    let ghost mut picks: Seq<int> = Seq::empty();
    while out.len() < m
        invariant
            n == c.len(),
            c == rows@,
            d == rank_draws@,
            e == order_draws@,
            d.len() == n,
            e.len() == n,
            m <= n,
            below_counts@.len() == n,
            forall|x: int| 0 <= x < n ==> below_counts@[x] == rank_below(c, d, x, n as int),
            taken@.len() == n,
            out@.len() == picks.len(),
            picks.len() <= m,
            forall|x: int| 0 <= x < n ==> (taken@[x] <==> picks.contains(x)),
            ranked_selection(c, d, e, picks, picks.len() as int),
            out@ == picks.map_values(|j: int| c[j]),
        ensures
            out@.len() == m,
        decreases m - out@.len(),
    {
        let mut best: usize = n;
        let mut j: usize = 0;
        while j < n
            invariant
                n == c.len(),
                c == rows@,
                d == rank_draws@,
                e == order_draws@,
                d.len() == n,
                e.len() == n,
                below_counts@.len() == n,
                forall|x: int| 0 <= x < n ==> below_counts@[x] == rank_below(c, d, x, n as int),
                taken@.len() == n,
                j <= n,
                best <= n,
                best == n ==> forall|x: int| 0 <= x < j ==> taken@[x],
                best < n ==> best < j && !taken@[best as int] && forall|x: int|
                    0 <= x < j && !taken@[x] && x != best ==> key_before(c, d, e, best as int, x),
            decreases n - j,
        {
            if !taken[j] {
                if best == n {
                    best = j;
                } else {
                    let bj = below_counts[j];
                    let bb = below_counts[best];
                    if bj < bb || (bj == bb && (order_draws[j] < order_draws[best] || (
                    order_draws[j] == order_draws[best] && j < best))) {
                        best = j;
                    }
                }
            }
            j = j + 1;
        }
        if best == n {
            proof {
                lemma_untaken_exists(picks, n as int);
                let x = choose|x: int| 0 <= x < n && !picks.contains(x);
                assert(taken@[x]);
            }
            break;
        }
        let ghost old_picks = picks;
        taken.set(best, true);
        out.push(rows[best].copy_row());
        proof {
            picks = picks.push(best as int);
            assert forall|x: int| 0 <= x < n implies (taken@[x] <==> picks.contains(x)) by {
                vstd::seq_lib::lemma_seq_contains_after_push(old_picks, best as int, x);
            }
            assert forall|x: int, k: int|
                #![trigger picks[k], picks.contains(x)]
                0 <= x < c.len() && !picks.contains(x) && 0 <= k < picks.len() implies key_before(
                c,
                d,
                e,
                picks[k],
                x,
            ) by {
                vstd::seq_lib::lemma_seq_contains_after_push(old_picks, best as int, x);
                if k < old_picks.len() {
                    assert(picks[k] == old_picks[k]);
                }
            }
            assert forall|k: int, l: int|
                0 <= k < l < picks.len() implies key_before(
                c,
                d,
                e,
                #[trigger] picks[k],
                #[trigger] picks[l],
            ) by {
                assert(picks[k] == old_picks[k]);
                if l < old_picks.len() {
                    assert(picks[l] == old_picks[l]);
                } else {
                    assert(!old_picks.contains(best as int));
                }
            }
            assert(out@ =~= picks.map_values(|j: int| c[j]));
        }
    }
    proof {
        assert(out@.len() == m);
    }
    out
}


/// A row has rank 1 exactly when no row of its partition comes before it.
pub proof fn lemma_rank_below_zero(rows: Seq<Structure>, draws: Seq<u64>, i: int, n: int)
    ensures
        rank_below(rows, draws, i, n) == 0 <==> forall|j: int|
            0 <= j < n ==> !(partition_of(#[trigger] rows[j]) == partition_of(rows[i]) && draw_before(
                draws,
                j,
                i,
            )),
    decreases n,
{
    if n > 0 {
        lemma_rank_below_zero(rows, draws, i, n - 1);
    }
}

/// Among the first `n` rows, the partition of row `t` has a row that comes
/// first in the random order.
proof fn lemma_partition_first(rows: Seq<Structure>, draws: Seq<u64>, t: int, n: int)
    requires
        0 <= t < n <= rows.len(),
        draws.len() == rows.len(),
    ensures
        exists|z: int|
            0 <= z < n && partition_of(rows[z]) == partition_of(rows[t]) && forall|j: int|
                0 <= j < n && partition_of(#[trigger] rows[j]) == partition_of(rows[t])
                    ==> !draw_before(draws, j, z),
    decreases n,
{
    let p = partition_of(rows[t]);
    if t == n - 1 && forall|j: int| 0 <= j < n - 1 ==> partition_of(#[trigger] rows[j]) != p {
        assert forall|j: int|
            0 <= j < n && partition_of(#[trigger] rows[j]) == p implies !draw_before(
            draws,
            j,
            n - 1,
        ) by {}
    } else {
        let t2 = if t < n - 1 {
            t
        } else {
            choose|j: int| 0 <= j < n - 1 && partition_of(#[trigger] rows[j]) == p
        };
        lemma_partition_first(rows, draws, t2, n - 1);
        let z = choose|z: int|
            0 <= z < n - 1 && partition_of(rows[z]) == p && forall|j: int|
                0 <= j < n - 1 && partition_of(#[trigger] rows[j]) == p ==> !draw_before(draws, j, z);
        if partition_of(rows[n - 1]) == p && draw_before(draws, n - 1, z) {
            assert forall|j: int|
                0 <= j < n && partition_of(#[trigger] rows[j]) == p implies !draw_before(
                draws,
                j,
                n - 1,
            ) by {
                if j < n - 1 {
                    assert(!draw_before(draws, j, z));
                }
            }
        } else {
            assert forall|j: int|
                0 <= j < n && partition_of(#[trigger] rows[j]) == p implies !draw_before(
                draws,
                j,
                z,
            ) by {}
        }
    }
}

/// Diversity: when the sample is no larger than the number of partitions,
/// no two sampled rows share a partition.
pub proof fn lemma_diversity(
    rows: Seq<Structure>,
    rank_draws: Seq<u64>,
    order_draws: Seq<u64>,
    picks: Seq<int>,
    m: int,
)
    requires
        rank_draws.len() == rows.len(),
        order_draws.len() == rows.len(),
        ranked_selection(rows, rank_draws, order_draws, picks, m),
        m <= partition_count(rows),
    ensures
        forall|k: int, l: int|
            0 <= k < l < m ==> partition_of(rows[#[trigger] picks[k]]) != partition_of(
                rows[#[trigger] picks[l]],
            ),
{
    let n = rows.len() as int;
    let d = rank_draws;
    let e = order_draws;
    assert forall|k: int, l: int|
        0 <= k < l < m implies partition_of(rows[#[trigger] picks[k]]) != partition_of(
        rows[#[trigger] picks[l]],
    ) by {
        let a = picks[k];
        let b = picks[l];
        if partition_of(rows[a]) == partition_of(rows[b]) {
            assert(key_before(rows, d, e, a, b));
            let (kx, x, y) = if draw_before(d, a, b) {
                (l, b, a)
            } else {
                (k, a, b)
            };
            assert(draw_before(d, y, x));
            lemma_rank_below_zero(rows, d, x, n);
            assert(rank_below(rows, d, x, n) > 0);
            let all_parts = rows.map_values(|r: Structure| partition_of(r));
            let rest = picks.remove(kx);
            let parts = rest.map_values(|j: int| partition_of(rows[j]));
            assert forall|q: (u64, i32)| all_parts.to_set().contains(q) implies parts.to_set().contains(
                q,
            ) by {
                let t = choose|t: int| 0 <= t < all_parts.len() && all_parts[t] == q;
                lemma_partition_first(rows, d, t, n);
                let z = choose|z: int|
                    0 <= z < n && partition_of(rows[z]) == partition_of(rows[t]) && forall|j: int|
                        0 <= j < n && partition_of(#[trigger] rows[j]) == partition_of(rows[t])
                            ==> !draw_before(d, j, z);
                lemma_rank_below_zero(rows, d, z, n);
                assert(rank_below(rows, d, z, n) == 0);
                assert(key_before(rows, d, e, z, x));
                if !picks.contains(z) {
                    assert(key_before(rows, d, e, picks[kx], z));
                }
                let s = choose|s: int| 0 <= s < picks.len() && picks[s] == z;
                assert(s != kx);
                let s2 = if s < kx {
                    s
                } else {
                    s - 1
                };
                assert(rest[s2] == z);
                assert(parts[s2] == q);
            }
            vstd::seq_lib::seq_to_set_is_finite(parts);
            lemma_len_subset(all_parts.to_set(), parts.to_set());
            parts.lemma_cardinality_of_set();
            assert(false);
        }
    }
}

/// Diversity, in order: a sampled row repeats the partition of an earlier
/// sampled row only once every partition among `rows` has been sampled
/// before it.
pub proof fn lemma_partitions_covered_before_repeat(
    rows: Seq<Structure>,
    rank_draws: Seq<u64>,
    order_draws: Seq<u64>,
    picks: Seq<int>,
    m: int,
    k: int,
    l: int,
)
    requires
        rank_draws.len() == rows.len(),
        order_draws.len() == rows.len(),
        ranked_selection(rows, rank_draws, order_draws, picks, m),
        0 <= k < l < m,
        partition_of(rows[picks[k]]) == partition_of(rows[picks[l]]),
    ensures
        forall|t: int|
            #![trigger rows[t]]
            0 <= t < rows.len() ==> exists|s: int|
                0 <= s < l && partition_of(rows[#[trigger] picks[s]]) == partition_of(rows[t]),
{
    let n = rows.len() as int;
    let d = rank_draws;
    let e = order_draws;
    let a = picks[k];
    let b = picks[l];
    assert(key_before(rows, d, e, a, b));
    let (x, y) = if draw_before(d, a, b) {
        (b, a)
    } else {
        (a, b)
    };
    lemma_rank_below_zero(rows, d, x, n);
    assert(rank_below(rows, d, x, n) > 0);
    assert(diversity_rank(rows, d, b) >= 2);
    assert forall|t: int| #![trigger rows[t]] 0 <= t < rows.len() implies exists|s: int|
        0 <= s < l && partition_of(rows[#[trigger] picks[s]]) == partition_of(rows[t]) by {
        lemma_partition_first(rows, d, t, n);
        let z = choose|z: int|
            0 <= z < n && partition_of(rows[z]) == partition_of(rows[t]) && forall|j: int|
                0 <= j < n && partition_of(#[trigger] rows[j]) == partition_of(rows[t])
                    ==> !draw_before(d, j, z);
        lemma_rank_below_zero(rows, d, z, n);
        assert(key_before(rows, d, e, z, b));
        if !picks.contains(z) {
            assert(key_before(rows, d, e, picks[l], z));
        }
        let s = choose|s: int| 0 <= s < picks.len() && picks[s] == z;
        if s >= l {
            if s > l {
                assert(key_before(rows, d, e, picks[l], picks[s]));
            }
        }
        assert(0 <= s < l && partition_of(rows[picks[s]]) == partition_of(rows[t]));
    }
}

/// A row that comes before another of its partition in the random order has
/// a lower diversity rank.
proof fn lemma_rank_below_grows(rows: Seq<Structure>, draws: Seq<u64>, j: int, x: int, n: int)
    requires
        0 <= j < rows.len(),
        0 <= x < rows.len(),
        n <= rows.len(),
        draws.len() == rows.len(),
        partition_of(rows[j]) == partition_of(rows[x]),
        draw_before(draws, j, x),
    ensures
        rank_below(rows, draws, j, n) + (if j < n {
            1int
        } else {
            0int
        }) <= rank_below(rows, draws, x, n),
    decreases n,
{
    if n > 0 {
        lemma_rank_below_grows(rows, draws, j, x, n - 1);
    }
}

/// The sample keeps each partition's random order: every row that comes
/// before a sampled row of its partition is sampled earlier, and diversity
/// ranks never decrease along the sample.
pub proof fn lemma_partition_order_kept(
    rows: Seq<Structure>,
    rank_draws: Seq<u64>,
    order_draws: Seq<u64>,
    picks: Seq<int>,
    m: int,
)
    requires
        rank_draws.len() == rows.len(),
        order_draws.len() == rows.len(),
        ranked_selection(rows, rank_draws, order_draws, picks, m),
    ensures
        forall|k: int, l: int|
            0 <= k < l < m ==> diversity_rank(rows, rank_draws, #[trigger] picks[k])
                <= diversity_rank(rows, rank_draws, #[trigger] picks[l]),
        forall|l: int, j: int|
            #![trigger picks[l], rows[j]]
            0 <= l < m && 0 <= j < rows.len() && partition_of(rows[j]) == partition_of(
                rows[picks[l]],
            ) && draw_before(rank_draws, j, picks[l]) ==> exists|s: int|
                0 <= s < l && #[trigger] picks[s] == j,
{
    let d = rank_draws;
    let e = order_draws;
    let n = rows.len() as int;
    assert forall|k: int, l: int| 0 <= k < l < m implies diversity_rank(
        rows,
        d,
        #[trigger] picks[k],
    ) <= diversity_rank(rows, d, #[trigger] picks[l]) by {
        assert(key_before(rows, d, e, picks[k], picks[l]));
    }
    assert forall|l: int, j: int|
        #![trigger picks[l], rows[j]]
        0 <= l < m && 0 <= j < rows.len() && partition_of(rows[j]) == partition_of(
            rows[picks[l]],
        ) && draw_before(d, j, picks[l]) implies exists|s: int|
        0 <= s < l && #[trigger] picks[s] == j by {
        let x = picks[l];
        lemma_rank_below_grows(rows, d, j, x, n);
        assert(key_before(rows, d, e, j, x));
        if !picks.contains(j) {
            assert(key_before(rows, d, e, picks[l], j));
        }
        let s = choose|s: int| 0 <= s < picks.len() && picks[s] == j;
        if s > l {
            assert(key_before(rows, d, e, picks[l], picks[s]));
        }
        assert(s != l);
    }
}

/// Length of a text in bytes of UTF-8, as `str::len` reports it.
pub open spec fn byte_len(s: Seq<char>) -> usize {
    vstd::utf8::encode_utf8(s).len() as usize
}

/// The limit that a sample applies: the requested one, or the configured
/// default when none was requested, clamped into `[0, max_requested_structs]`.
pub open spec fn effective_limit(requested: Option<i64>, cfg: Config) -> int {
    let want = match requested {
        Some(l) => l,
        None => cfg.default_random_limit,
    };
    let capped = if want > cfg.max_requested_structs {
        cfg.max_requested_structs
    } else {
        want
    };
    if capped < 0 {
        0
    } else {
        capped as int
    }
}

/// The excluded prefabs of a query.
pub open spec fn exclusions_of(raw: Option<String>) -> Seq<Seq<char>> {
    match raw {
        Some(s) => comma_items(s@),
        None => Seq::empty(),
    }
}

/// Relies on `RandomState::new` (std): a hasher state with fresh random keys.
/// Nothing is promised of them.
#[verifier::external_body]
fn fresh_random_state() -> (r: std::collections::hash_map::RandomState) {
    std::collections::hash_map::RandomState::new()
}

/// Relies on `BuildHasher::hash_one` (std): hashes `salt` with the state's
/// keys. Nothing is promised of the result.
#[verifier::external_body]
fn random_draw(state: &std::collections::hash_map::RandomState, salt: u64) -> (r: u64) {
    std::hash::BuildHasher::hash_one(state, salt)
}

/// `count` random draws.
fn random_draws(count: usize) -> (r: Vec<u64>)
    ensures
        r@.len() == count,
{
    let state = fresh_random_state();
    let mut draws: Vec<u64> = Vec::new();
    let mut i: usize = 0;
    while i < count
        invariant
            i <= count,
            draws@.len() == i,
        decreases count - i,
    {
        draws.push(random_draw(&state, i as u64));
        i = i + 1;
    }
    draws
}

/// What a successful sample returns: the first `m` rows of the rows that
/// answer the query, in sample order for some draws, where `m` is the
/// effective limit or the number of such rows if smaller. Every returned row
/// is a stored row that answers the query. A returned row repeats the
/// partition of an earlier one only once every partition among those rows
/// has been returned before it; so when `m` is no larger than the number of
/// partitions, no two returned rows share one.
pub open spec fn answers_query(
    rows: Seq<Structure>,
    query: SampleQuery,
    cfg: Config,
    v: Seq<Structure>,
) -> bool {
    let cands = select_rows(
        rows,
        query.scene@,
        query.map_id,
        exclusions_of(query.exclude_prefabs),
    );
    let limit = effective_limit(query.limit, cfg);
    let m = if limit < cands.len() {
        limit
    } else {
        cands.len() as int
    };
    &&& v.len() == m
    &&& v.len() <= limit
    &&& exists|d: Seq<u64>, e: Seq<u64>|
        d.len() == cands.len() && e.len() == cands.len() && is_ranked_sample(
            v,
            cands,
            d,
            e,
            v.len() as int,
        )
    &&& forall|k: int|
        0 <= k < v.len() ==> matches_query(
            #[trigger] v[k],
            query.scene@,
            query.map_id,
            exclusions_of(query.exclude_prefabs),
        ) && rows.contains(v[k])
    &&& forall|k: int, l: int|
        #![trigger v[k], v[l]]
        0 <= k < l < v.len() && partition_of(v[k]) == partition_of(v[l]) ==> forall|t: int|
            #![trigger cands[t]]
            0 <= t < cands.len() ==> exists|s: int|
                0 <= s < l && partition_of(#[trigger] v[s]) == partition_of(cands[t])
    &&& m <= partition_count(cands) ==> forall|k: int, l: int|
        0 <= k < l < v.len() ==> partition_of(#[trigger] v[k]) != partition_of(
            #[trigger] v[l],
        )

}

impl Store {
    /// The rows that answer a query, in store order.
    pub fn candidates(&self, scene: &String, map_id: Option<i32>, excluded: &Vec<String>) -> (r:
        Vec<Structure>)
        ensures
            r@ == select_rows(self.rows@, scene@, map_id, string_views(excluded@)),
    {
        let mut out: Vec<Structure> = Vec::new();
        let mut i: usize = 0;
        while i < self.rows.len()
            invariant
                i <= self.rows@.len(),
                out@ == select_rows(
                    self.rows@.subrange(0, i as int),
                    scene@,
                    map_id,
                    string_views(excluded@),
                ),
            decreases self.rows@.len() - i,
        {
            let row = &self.rows[i];
            proof {
                assert(self.rows@.subrange(0, i + 1).drop_last() =~= self.rows@.subrange(0, i as int));
            }
            let on_map = match map_id {
                Some(m) => row.map_id == m,
                None => true,
            };
            if row.scene == *scene && !row.deleted && on_map && !is_excluded(excluded, &row.prefab) {
                out.push(row.copy_row());
            }
            i = i + 1;
        }
        assert(self.rows@.subrange(0, i as int) =~= self.rows@);
        out
    }

    /// A diversified random sample of the structures that answer `query`.
    /// Fails only when the scene name is longer, in bytes, than configured.
    pub fn sample(&self, query: &SampleQuery, cfg: &Config) -> (r: Result<
        Vec<Structure>,
        SampleError,
    >)
        ensures
            byte_len(query.scene@) <= cfg.max_scene_length ==> r is Ok,
            byte_len(query.scene@) > cfg.max_scene_length <==> r == Err::<Vec<Structure>, SampleError>(
                SampleError::SceneTooLong,
            ),
            r matches Ok(v) ==> answers_query(self.rows@, *query, *cfg, v@),
    {
        if query.scene.as_str().len() > cfg.max_scene_length {
            return Err(SampleError::SceneTooLong);
        }
        let excluded = match &query.exclude_prefabs {
            Some(raw) => exclusion_list(raw.as_str()),
            None => Vec::new(),
        };
        let ghost ex = exclusions_of(query.exclude_prefabs);
        assert(string_views(excluded@) =~= ex);
        let want = match query.limit {
            Some(l) => l,
            None => default_limit(cfg),
        };
        let capped = if want > cfg.max_requested_structs {
            cfg.max_requested_structs
        } else {
            want
        };
        let limit: i64 = if capped < 0 {
            0
        } else {
            capped
        };
        let cands = self.candidates(&query.scene, query.map_id, &excluded);
        let n = cands.len();
        let lim: usize = if limit as u64 >= n as u64 {
            n
        } else {
            limit as usize
        };
        let rank_draws = random_draws(n);
        let order_draws = random_draws(n);
        let v = rank_sample(&cands, &rank_draws, &order_draws, lim);
        proof {
            let c = cands@;
            let picks = choose|picks: Seq<int>|
                ranked_selection(c, rank_draws@, order_draws@, picks, lim as int) && v@
                    == picks.map_values(|j: int| c[j]);
            assert(lim as int == (if effective_limit(query.limit, *cfg) < c.len() {
                effective_limit(query.limit, *cfg)
            } else {
                c.len() as int
            }));
            assert(is_ranked_sample(v@, c, rank_draws@, order_draws@, lim as int));
            lemma_select_rows_match(self.rows@, query.scene@, query.map_id, ex);
            assert forall|k: int| 0 <= k < v@.len() implies matches_query(
                #[trigger] v@[k],
                query.scene@,
                query.map_id,
                ex,
            ) && self.rows@.contains(v@[k]) by {
                assert(v@[k] == c[picks[k]]);
            }
            assert(v@.len() == lim);
            assert forall|k: int, l: int|
                #![trigger v@[k], v@[l]]
                0 <= k < l < v@.len() && partition_of(v@[k]) == partition_of(v@[l]) implies forall|
                t: int,
            |
                #![trigger c[t]]
                0 <= t < c.len() ==> exists|s: int|
                    0 <= s < l && partition_of(#[trigger] v@[s]) == partition_of(c[t]) by {
                assert(v@[k] == c[picks[k]]);
                assert(v@[l] == c[picks[l]]);
                lemma_partitions_covered_before_repeat(
                    c,
                    rank_draws@,
                    order_draws@,
                    picks,
                    lim as int,
                    k,
                    l,
                );
                assert forall|t: int| #![trigger c[t]] 0 <= t < c.len() implies exists|s: int|
                    0 <= s < l && partition_of(#[trigger] v@[s]) == partition_of(c[t]) by {
                    let s = choose|s: int|
                        0 <= s < l && partition_of(c[#[trigger] picks[s]]) == partition_of(c[t]);
                    assert(v@[s] == c[picks[s]]);
                }
            }
            if lim <= partition_count(c) {
                lemma_diversity(c, rank_draws@, order_draws@, picks, lim as int);
                assert forall|k: int, l: int| 0 <= k < l < v@.len() implies partition_of(
                    #[trigger] v@[k],
                ) != partition_of(#[trigger] v@[l]) by {
                    assert(v@[k] == c[picks[k]]);
                    assert(v@[l] == c[picks[l]]);
                }
            }
        }
        assert(answers_query(self.rows@, *query, *cfg, v@));
        Ok(v)
    }
}

} // verus!
