use vstd::prelude::*;
use std::collections::BTreeSet;
use vstd::std_specs::btree::increasing_seq;
use vstd::std_specs::cmp::OrdSpec;
use vstd::std_specs::iter::IteratorSpec;

verus! {

broadcast use vstd::std_specs::btree::group_btree_axioms;

/// How many chunks around a player's chunk are kept generated, in each
/// direction.
pub const SPAWN_RADIUS: i32 = 8;

/// How many chunks one pass generates at most.
pub const MAX_CHUNKS_PER_CALL: usize = 20;

/// The coordinates of a terrain chunk.
#[derive(Clone, Copy, Debug, PartialEq, Eq, Structural)]
pub struct ChunkPosition {
    pub x: i32,
    pub y: i32,
}

/// Chunks are ordered by `x`, then by `y`.
pub open spec fn chunk_lt(a: ChunkPosition, b: ChunkPosition) -> bool {
    a.x < b.x || (a.x == b.x && a.y < b.y)
}

/// `p` lies in the square of side `2 * SPAWN_RADIUS` that starts
/// `SPAWN_RADIUS` chunks before `q` in both directions.
pub open spec fn near(p: ChunkPosition, q: ChunkPosition) -> bool {
    &&& q.x - SPAWN_RADIUS <= p.x < q.x + SPAWN_RADIUS
    &&& q.y - SPAWN_RADIUS <= p.y < q.y + SPAWN_RADIUS
}

/// `p` is near some player's chunk and is not generated yet.
pub open spec fn wanted(players: Seq<ChunkPosition>, existing: Seq<ChunkPosition>, p: ChunkPosition) -> bool {
    &&& exists|i: int| 0 <= i < players.len() && near(p, #[trigger] players[i])
    &&& !existing.contains(p)
}

/// Strictly increasing.
pub open spec fn chunks_sorted(s: Seq<ChunkPosition>) -> bool {
    forall|i: int, j: int| 0 <= i < j < s.len() ==> chunk_lt(#[trigger] s[i], #[trigger] s[j])
}

/// The square around `q` fits in `i32`.
pub open spec fn square_fits(q: ChunkPosition) -> bool {
    &&& i32::MIN + SPAWN_RADIUS <= q.x <= i32::MAX - SPAWN_RADIUS
    &&& i32::MIN + SPAWN_RADIUS <= q.y <= i32::MAX - SPAWN_RADIUS
}

/// Cells of the square around `q` visited before column `dx` / row `dy`.
pub open spec fn visited(p: ChunkPosition, q: ChunkPosition, dx: int, dy: int) -> bool {
    ||| (q.x - SPAWN_RADIUS <= p.x < q.x + dx && q.y - SPAWN_RADIUS <= p.y < q.y + SPAWN_RADIUS)
    ||| (p.x == q.x + dx && q.y - SPAWN_RADIUS <= p.y < q.y + dy)
}

/// The chunk kept in an ordered set under the pair `k`.
pub open spec fn chunk_of(k: (i32, i32)) -> ChunkPosition {
    ChunkPosition { x: k.0, y: k.1 }
}

/// `p` is near some player's chunk.
pub open spec fn near_some(players: Seq<ChunkPosition>, p: ChunkPosition) -> bool {
    exists|i: int| 0 <= i < players.len() && near(p, #[trigger] players[i])
}

/// Pairs of `i32` are totally ordered (lexicographically), so an ordered set
/// of them behaves as a set.
proof fn lemma_pairs_ordered()
    ensures
        vstd::laws_cmp::obeys_cmp::<(i32, i32)>(),
        vstd::laws_cmp::obeys_cmp::<&(i32, i32)>(),
{
    broadcast use vstd::laws_cmp::group_laws_cmp;

    assert(vstd::laws_cmp::obeys_cmp::<i32>());
}

/// Two items of an increasing sequence compare as less, in order.
proof fn lemma_increasing_items<K: Ord>(s: Seq<K>, i: int, j: int)
    requires
        vstd::laws_cmp::obeys_cmp::<K>(),
        increasing_seq(s),
        0 <= i < j < s.len(),
    ensures
        s[i].cmp_spec(&s[j]) is Less,
{
    vstd::std_specs::btree::axiom_increasing_seq_meaning(s);
}

/// The pairs of an increasing sequence stand for strictly increasing chunks.
proof fn lemma_increasing_pairs(s: Seq<&(i32, i32)>)
    requires
        increasing_seq(s),
    ensures
        forall|i: int, j: int|
            0 <= i < j < s.len() ==> chunk_lt(chunk_of(*#[trigger] s[i]), chunk_of(*#[trigger] s[j])),
{
    lemma_pairs_ordered();
    assert forall|i: int, j: int| 0 <= i < j < s.len() implies chunk_lt(
        chunk_of(*#[trigger] s[i]),
        chunk_of(*#[trigger] s[j]),
    ) by {
        lemma_increasing_items(s, i, j);
        assert((*s[i]).cmp_spec(&*s[j]) is Less);
    }
}

/// The set of every chunk near a player's chunk, as `(x, y)` pairs.
fn chunks_near_players(players: &Vec<ChunkPosition>) -> (r: BTreeSet<(i32, i32)>)
    requires
        forall|i: int| 0 <= i < players@.len() ==> square_fits(#[trigger] players@[i]),
    ensures
        forall|k: (i32, i32)| r@.contains(k) <==> near_some(players@, chunk_of(k)),
{
    let mut set: BTreeSet<(i32, i32)> = BTreeSet::new();
    let mut i: usize = 0;
    while i < players.len()
        invariant
            i <= players.len(),
            forall|i: int| 0 <= i < players@.len() ==> square_fits(#[trigger] players@[i]),
            forall|k: (i32, i32)|
                set@.contains(k) <==> exists|a: int| 0 <= a < i && near(chunk_of(k), #[trigger] players@[a]),
        decreases players.len() - i,
    {
        let q = players[i];
        let ghost before = set@;
        let mut dx: i32 = -SPAWN_RADIUS;
        while dx < SPAWN_RADIUS
            invariant
                i < players.len(),
                q == players@[i as int],
                square_fits(q),
                -SPAWN_RADIUS <= dx <= SPAWN_RADIUS,
                forall|k: (i32, i32)|
                    set@.contains(k) <==> (before.contains(k) || visited(chunk_of(k), q, dx as int, -SPAWN_RADIUS as int)),
            decreases SPAWN_RADIUS - dx,
        {
            let mut dy: i32 = -SPAWN_RADIUS;
            while dy < SPAWN_RADIUS
                invariant
                    i < players.len(),
                    q == players@[i as int],
                    square_fits(q),
                    -SPAWN_RADIUS <= dx < SPAWN_RADIUS,
                    -SPAWN_RADIUS <= dy <= SPAWN_RADIUS,
                    forall|k: (i32, i32)|
                        set@.contains(k) <==> (before.contains(k) || visited(chunk_of(k), q, dx as int, dy as int)),
                decreases SPAWN_RADIUS - dy,
            {
                proof {
                    lemma_pairs_ordered();
                }
                let ghost prev = set@;
                let pos = (q.x + dx, q.y + dy);
                set.insert(pos);
                proof {
                    assert forall|k: (i32, i32)| set@.contains(k) <==> (before.contains(k) || visited(
                        chunk_of(k),
                        q,
                        dx as int,
                        dy + 1,
                    )) by {
                        assert(set@.contains(k) <==> (prev.contains(k) || k == pos));
                        if k == pos {
                            assert(visited(chunk_of(k), q, dx as int, dy + 1));
                        }
                        if visited(chunk_of(k), q, dx as int, dy + 1) && !visited(chunk_of(k), q, dx as int, dy as int) {
                            assert(k == pos);
                        }
                    }
                }
                dy += 1;
            }
            proof {
                assert(dy == SPAWN_RADIUS);
                assert forall|k: (i32, i32)| set@.contains(k) <==> (before.contains(k) || visited(
                    chunk_of(k),
                    q,
                    dx + 1,
                    -SPAWN_RADIUS as int,
                )) by {
                    assert(set@.contains(k) <==> (before.contains(k) || visited(chunk_of(k), q, dx as int, dy as int)));
                    assert(visited(chunk_of(k), q, dx as int, dy as int) == visited(chunk_of(k), q, dx + 1, -SPAWN_RADIUS as int));
                }
            }
            dx += 1;
        }
        proof {
            assert(dx == SPAWN_RADIUS);
            assert forall|k: (i32, i32)| set@.contains(k) <==> exists|a: int|
                0 <= a < i + 1 && near(chunk_of(k), #[trigger] players@[a]) by {
                let c = chunk_of(k);
                assert(set@.contains(k) <==> (before.contains(k) || visited(c, q, dx as int, -SPAWN_RADIUS as int)));
                assert(visited(c, q, dx as int, -SPAWN_RADIUS as int) == near(c, q));
                if set@.contains(k) {
                    if before.contains(k) {
                        let a = choose|a: int| 0 <= a < i && near(c, #[trigger] players@[a]);
                        assert(0 <= a < i + 1 && near(c, players@[a]));
                    } else {
                        assert(near(c, players@[i as int]));
                    }
                }
                if exists|a: int| 0 <= a < i + 1 && near(c, #[trigger] players@[a]) {
                    let a = choose|a: int| 0 <= a < i + 1 && near(c, #[trigger] players@[a]);
                    if a == i {
                        assert(near(c, q));
                    } else {
                        assert(before.contains(k));
                    }
                }
            }
        }
        i += 1;
    }
    set
}

/// The chunks to generate for the players standing in chunks `players`, given
/// the chunks `existing` that are generated already: the chunks near some
/// player and not generated yet, in increasing order, at most
/// `MAX_CHUNKS_PER_CALL` of them, and always the lowest ones.
pub fn chunks_to_generate(players: &Vec<ChunkPosition>, existing: &Vec<ChunkPosition>) -> (r: Vec<ChunkPosition>)
    requires
        forall|i: int| 0 <= i < players@.len() ==> square_fits(#[trigger] players@[i]),
    ensures
        is_pass(players@, existing@, r@),
{
    let mut chunk_positions = chunks_near_players(players);
    let mut j: usize = 0;
    while j < existing.len()
        invariant
            j <= existing.len(),
            forall|k: (i32, i32)|
                chunk_positions@.contains(k) <==> (near_some(players@, chunk_of(k))
                    && !existing@.take(j as int).contains(chunk_of(k))),
        decreases existing.len() - j,
    {
        proof {
            lemma_pairs_ordered();
        }
        let ghost before = chunk_positions@;
        let c = existing[j];
        chunk_positions.remove(&(c.x, c.y));
        assert(chunk_positions@ == before.remove((c.x, c.y)));
        j += 1;
        proof {
            assert forall|k: (i32, i32)| chunk_positions@.contains(k) <==> (near_some(players@, chunk_of(k))
                && !existing@.take(j as int).contains(chunk_of(k))) by {
                let e = existing@.take(j as int);
                let e0 = existing@.take(j - 1);
                assert(e[j - 1] == c);
                if e.contains(chunk_of(k)) && chunk_of(k) != c {
                    let a = choose|a: int| 0 <= a < e.len() && e[a] == chunk_of(k);
                    assert(e0[a] == chunk_of(k));
                }
                if e0.contains(chunk_of(k)) {
                    let a = choose|a: int| 0 <= a < e0.len() && e0[a] == chunk_of(k);
                    assert(e[a] == chunk_of(k));
                }
                if chunk_of(k) == c {
                    assert(k == (c.x, c.y));
                }
            }
        }
    }
    assert(existing@.take(j as int) =~= existing@);
    let ghost keys = IteratorSpec::remaining(&vstd::std_specs::btree::spec_btree_keys_iter(&chunk_positions));
    proof {
        lemma_pairs_ordered();
        vstd::std_specs::btree::axiom_spec_btree_keys_iter(&chunk_positions);
    }
    let mut result: Vec<ChunkPosition> = Vec::new();
    for k in it: chunk_positions.iter()
        invariant
            it.seq() == keys,
            result@.len() <= MAX_CHUNKS_PER_CALL,
            result@.len() == (if it.index() < MAX_CHUNKS_PER_CALL { it.index() as int } else { MAX_CHUNKS_PER_CALL as int }),
            forall|a: int| 0 <= a < result@.len() ==> #[trigger] result@[a] == chunk_of(*keys[a]),
    {
        if result.len() < MAX_CHUNKS_PER_CALL {
            result.push(ChunkPosition { x: k.0, y: k.1 });
        }
    }
    proof {
        lemma_increasing_pairs(keys);
        let n = result@.len();
        assert(keys.unref().to_set() == chunk_positions@);
        assert forall|a: int| 0 <= a < keys.len() implies chunk_positions@.contains(*#[trigger] keys[a]) by {
            assert(keys.unref()[a] == *keys[a]);
            assert(keys.unref().contains(*keys[a]));
        }
        assert forall|a: int, b: int| 0 <= a < b < n implies chunk_lt(#[trigger] result@[a], #[trigger] result@[b]) by {
        }
        assert forall|a: int| 0 <= a < n implies wanted(players@, existing@, #[trigger] result@[a]) by {
            assert(chunk_positions@.contains(*keys[a]));
        }
        assert forall|c: ChunkPosition|
            wanted(players@, existing@, c) && (n < MAX_CHUNKS_PER_CALL || chunk_lt(c, result@.last()))
                implies result@.contains(c) by {
            let k = (c.x, c.y);
            assert(chunk_of(k) == c);
            assert(chunk_positions@.contains(k));
            assert(keys.unref().to_set().contains(k));
            let b = choose|b: int| 0 <= b < keys.unref().len() && keys.unref()[b] == k;
            assert(*keys[b] == k);
            if b < n {
                assert(result@[b] == c);
            } else {
                assert(n == MAX_CHUNKS_PER_CALL);
                assert(chunk_lt(chunk_of(*keys[n - 1]), chunk_of(*keys[b]))) by {
                    if n - 1 < b {
                    }
                }
                assert(result@[n - 1] == chunk_of(*keys[n - 1]));
            }
        }
    }
    result
}

/// `r` is what one pass returns for players standing in chunks `players`
/// when the chunks `existing` are generated: strictly increasing, at most
/// `MAX_CHUNKS_PER_CALL` chunks, all of them wanted, and always the lowest
/// wanted ones.
pub open spec fn is_pass(players: Seq<ChunkPosition>, existing: Seq<ChunkPosition>, r: Seq<ChunkPosition>) -> bool {
    &&& r.len() <= MAX_CHUNKS_PER_CALL
    &&& chunks_sorted(r)
    &&& forall|i: int| 0 <= i < r.len() ==> wanted(players, existing, #[trigger] r[i])
    &&& forall|c: ChunkPosition|
        wanted(players, existing, c) && (r.len() < MAX_CHUNKS_PER_CALL || chunk_lt(c, r.last())) ==> r.contains(c)
}

/// Passes over players who stay where they are make progress: once a pass's
/// chunks are generated, the chunks still wanted are exactly those wanted
/// before minus the ones just generated, none twice; a pass returning fewer
/// than `MAX_CHUNKS_PER_CALL` chunks leaves nothing wanted; and once nothing
/// is wanted a pass returns nothing, so the chunk table no longer changes.
pub proof fn law_chunk_passes_make_progress(
    players: Seq<ChunkPosition>,
    existing: Seq<ChunkPosition>,
    r: Seq<ChunkPosition>,
)
    requires
        is_pass(players, existing, r),
    ensures
        r.no_duplicates(),
        forall|c: ChunkPosition|
            wanted(players, existing + r, c) <==> (wanted(players, existing, c) && !r.contains(c)),
        r.len() < MAX_CHUNKS_PER_CALL ==> forall|c: ChunkPosition| !wanted(players, existing + r, c),
        (forall|c: ChunkPosition| !wanted(players, existing, c)) ==> r.len() == 0,
{
    assert forall|i: int, j: int| 0 <= i < r.len() && 0 <= j < r.len() && i != j implies r[i] != r[j] by {
        if i < j {
            assert(chunk_lt(r[i], r[j]));
        } else {
            assert(chunk_lt(r[j], r[i]));
        }
    }
    assert forall|c: ChunkPosition| (existing + r).contains(c) <==> (existing.contains(c) || r.contains(c)) by {
        if (existing + r).contains(c) {
            let k = choose|k: int| 0 <= k < (existing + r).len() && (existing + r)[k] == c;
            if k < existing.len() {
                assert(existing[k] == c);
            } else {
                assert(r[k - existing.len()] == c);
            }
        }
        if existing.contains(c) {
            let k = choose|k: int| 0 <= k < existing.len() && existing[k] == c;
            assert((existing + r)[k] == c);
        }
        if r.contains(c) {
            let k = choose|k: int| 0 <= k < r.len() && r[k] == c;
            assert((existing + r)[existing.len() + k] == c);
        }
    }
    if r.len() < MAX_CHUNKS_PER_CALL {
        assert forall|c: ChunkPosition| !wanted(players, existing + r, c) by {
            if wanted(players, existing, c) {
                assert(r.contains(c));
            }
        }
    }
    if (forall|c: ChunkPosition| !wanted(players, existing, c)) && r.len() > 0 {
        assert(wanted(players, existing, r[0]));
    }
}

/// The chunks near some player and not generated yet.
pub open spec fn missing(players: Seq<ChunkPosition>, existing: Seq<ChunkPosition>) -> Set<ChunkPosition> {
    Set::new(|c: ChunkPosition| wanted(players, existing, c))
}

/// The chunk at position `i`, row by row, of the square around `q`.
spec fn square_cell(q: ChunkPosition, i: int) -> ChunkPosition {
    ChunkPosition {
        x: (q.x - SPAWN_RADIUS + i / (2 * SPAWN_RADIUS)) as i32,
        y: (q.y - SPAWN_RADIUS + i % (2 * SPAWN_RADIUS)) as i32,
    }
}

/// The square around one player's chunk is finite.
proof fn lemma_square_finite(q: ChunkPosition)
    ensures
        Set::new(|c: ChunkPosition| near(c, q)).finite(),
{
    let square = Set::new(|c: ChunkPosition| near(c, q));
    let side = 2 * SPAWN_RADIUS;
    let cells = vstd::set_lib::set_int_range(0, side * side);
    vstd::set_lib::lemma_int_range(0, side * side);
    let f = |i: int| square_cell(q, i);
    cells.lemma_map_finite(f);
    let big = cells.map(f);
    assert forall|c: ChunkPosition| square.contains(c) implies big.contains(c) by {
        let dx = c.x - q.x + SPAWN_RADIUS;
        let dy = c.y - q.y + SPAWN_RADIUS;
        let i = dx * side + dy;
        assert(0 <= i < side * side && i / side == dx && i % side == dy) by (nonlinear_arith)
            requires
                0 <= dx < side,
                0 <= dy < side,
                i == dx * side + dy,
                side == 16,
        ;
        assert(cells.contains(i));
        assert(f(i) == c);
    }
    vstd::set_lib::lemma_len_subset(square, big);
}

/// The chunks near the players' chunks are finitely many.
proof fn lemma_near_finite(players: Seq<ChunkPosition>)
    ensures
        Set::new(|c: ChunkPosition| near_some(players, c)).finite(),
    decreases players.len(),
{
    let all = Set::new(|c: ChunkPosition| near_some(players, c));
    if players.len() == 0 {
        assert(all =~= Set::<ChunkPosition>::empty());
    } else {
        let init = players.drop_last();
        let q = players.last();
        lemma_near_finite(init);
        lemma_square_finite(q);
        let before = Set::new(|c: ChunkPosition| near_some(init, c));
        let square = Set::new(|c: ChunkPosition| near(c, q));
        assert forall|c: ChunkPosition| all.contains(c) <==> before.union(square).contains(c) by {
            if all.contains(c) {
                let i = choose|i: int| 0 <= i < players.len() && near(c, #[trigger] players[i]);
                if i < init.len() {
                    assert(init[i] == players[i]);
                }
            }
            if before.contains(c) {
                let i = choose|i: int| 0 <= i < init.len() && near(c, #[trigger] init[i]);
                assert(players[i] == init[i]);
            }
            if square.contains(c) {
                assert(near(c, players[players.len() - 1]));
            }
        }
        assert(all =~= before.union(square));
    }
}

/// What is still missing is finite.
pub proof fn lemma_missing_finite(players: Seq<ChunkPosition>, existing: Seq<ChunkPosition>)
    ensures
        missing(players, existing).finite(),
{
    lemma_near_finite(players);
    let all = Set::new(|c: ChunkPosition| near_some(players, c));
    assert(missing(players, existing).subset_of(all));
    vstd::set_lib::lemma_len_subset(missing(players, existing), all);
}

/// One pass takes exactly the chunks it returns off what is missing, and
/// leaves nothing missing when it returns fewer than `MAX_CHUNKS_PER_CALL`.
proof fn lemma_pass_shrinks(players: Seq<ChunkPosition>, existing: Seq<ChunkPosition>, r: Seq<ChunkPosition>)
    requires
        is_pass(players, existing, r),
    ensures
        missing(players, existing).finite(),
        missing(players, existing + r).finite(),
        missing(players, existing + r).len() + r.len() == missing(players, existing).len(),
        r.len() < MAX_CHUNKS_PER_CALL ==> missing(players, existing + r).len() == 0,
{
    law_chunk_passes_make_progress(players, existing, r);
    lemma_missing_finite(players, existing);
    lemma_missing_finite(players, existing + r);
    let before = missing(players, existing);
    let after = missing(players, existing + r);
    let taken = r.to_set();
    r.unique_seq_to_set();
    assert(taken.subset_of(before)) by {
        assert forall|c: ChunkPosition| taken.contains(c) implies before.contains(c) by {
            let i = choose|i: int| 0 <= i < r.len() && r[i] == c;
            assert(wanted(players, existing, r[i]));
        }
    }
    vstd::set_lib::lemma_len_subset(taken, before);
    assert(after =~= before.difference(taken));
    assert(before =~= after + taken);
    assert(after.disjoint(taken));
    vstd::set_lib::lemma_set_disjoint_lens(after, taken);
    if r.len() < MAX_CHUNKS_PER_CALL {
        assert(after =~= Set::<ChunkPosition>::empty());
    }
}

/// The chunks generated once the passes `runs` went through in turn,
/// starting from `existing`.
pub open spec fn after_passes(existing: Seq<ChunkPosition>, runs: Seq<Seq<ChunkPosition>>) -> Seq<ChunkPosition>
    decreases runs.len(),
{
    if runs.len() == 0 {
        existing
    } else {
        after_passes(existing, runs.drop_last()) + runs.last()
    }
}

/// `runs` are the results of consecutive passes for players who stay where
/// they are: each pass starts from the chunks generated by the ones before.
pub open spec fn consecutive_passes(
    players: Seq<ChunkPosition>,
    existing: Seq<ChunkPosition>,
    runs: Seq<Seq<ChunkPosition>>,
) -> bool {
    forall|n: int| 0 <= n < runs.len() ==> is_pass(players, after_passes(existing, runs.take(n)), #[trigger] runs[n])
}

/// While players stay where they are, the passes fill their windows: after
/// as many passes as it takes to generate the missing chunks
/// `MAX_CHUNKS_PER_CALL` at a time (the missing chunks divided by that
/// number, rounded up), no chunk near a player is missing, and every further
/// pass generates nothing.
pub proof fn law_chunk_passes_fill_window(
    players: Seq<ChunkPosition>,
    existing: Seq<ChunkPosition>,
    runs: Seq<Seq<ChunkPosition>>,
)
    requires
        consecutive_passes(players, existing, runs),
        runs.len() * MAX_CHUNKS_PER_CALL >= missing(players, existing).len(),
    ensures
        missing(players, existing).finite(),
        forall|c: ChunkPosition| !wanted(players, after_passes(existing, runs), c),
        forall|r: Seq<ChunkPosition>| is_pass(players, after_passes(existing, runs), r) ==> r.len() == 0,
{
    lemma_missing_finite(players, existing);
    lemma_passes_shrink(players, existing, runs, runs.len() as int);
    let done = after_passes(existing, runs);
    assert(runs.take(runs.len() as int) =~= runs);
    lemma_missing_finite(players, done);
    assert(missing(players, done).len() == 0);
    assert forall|c: ChunkPosition| !wanted(players, done, c) by {
        if wanted(players, done, c) {
            assert(missing(players, done).contains(c));
        }
    }
    assert forall|r: Seq<ChunkPosition>| is_pass(players, done, r) implies r.len() == 0 by {
        law_chunk_passes_make_progress(players, done, r);
    }
}

/// After the first `k` passes, either nothing is missing or each pass took
/// `MAX_CHUNKS_PER_CALL` chunks off what was missing.
proof fn lemma_passes_shrink(
    players: Seq<ChunkPosition>,
    existing: Seq<ChunkPosition>,
    runs: Seq<Seq<ChunkPosition>>,
    k: int,
)
    requires
        consecutive_passes(players, existing, runs),
        0 <= k <= runs.len(),
    ensures
        missing(players, after_passes(existing, runs.take(k))).len() == 0
            || missing(players, after_passes(existing, runs.take(k))).len() + k * MAX_CHUNKS_PER_CALL
            <= missing(players, existing).len(),
    decreases k,
{
    if k == 0 {
        assert(runs.take(0) =~= Seq::<Seq<ChunkPosition>>::empty());
    } else {
        lemma_passes_shrink(players, existing, runs, k - 1);
        let prev = after_passes(existing, runs.take(k - 1));
        assert(runs.take(k).drop_last() =~= runs.take(k - 1));
        assert(after_passes(existing, runs.take(k)) == prev + runs[k - 1]);
        assert(is_pass(players, prev, runs[k - 1]));
        lemma_pass_shrinks(players, prev, runs[k - 1]);
    }
}

} // verus!
