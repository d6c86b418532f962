//! The target ring: the directed cycle of `target_id` edges over the alive
//! players of a game in progress, and the lemmas used to keep it a single
//! cycle through ring assignment and elimination splices.

use crate::models::{alive_ids, count_alive, same_identity, Player};
use vstd::prelude::*;

verus! {

/// Some alive player of the game `gid` carries the id `a` and targets `b`.
pub open spec fn ring_edge(players: Seq<Player>, gid: u64, a: u64, b: u64) -> bool {
    exists|i: int|
        0 <= i < players.len() && #[trigger] players[i].id == a && players[i].game_id == gid
            && players[i].is_alive && players[i].target_id == Some(b)
}

/// The element after position `k` of `ring`, cyclically.
pub open spec fn ring_next(ring: Seq<u64>, k: int) -> u64 {
    if k + 1 < ring.len() {
        ring[k + 1]
    } else {
        ring[0]
    }
}

/// `ring` lists each alive player of the game `gid` exactly once, and each
/// one targets the next, cyclically: the `target_id` edges over the alive
/// players form one single closed cycle.
pub open spec fn ring_ok(players: Seq<Player>, gid: u64, ring: Seq<u64>) -> bool {
    &&& ring.no_duplicates()
    &&& forall|k: int|
        0 <= k < ring.len() ==> ring_edge(players, gid, #[trigger] ring[k], ring_next(ring, k))
    &&& forall|i: int|
        0 <= i < players.len() && (#[trigger] players[i]).game_id == gid && players[i].is_alive
            ==> ring.contains(players[i].id)
}

/// A ring of one game is untouched by adding a player of another game.
pub proof fn lemma_ring_ok_push(players: Seq<Player>, gid: u64, ring: Seq<u64>, p: Player)
    requires
        ring_ok(players, gid, ring),
        p.game_id != gid,
    ensures
        ring_ok(players.push(p), gid, ring),
{
    let players2 = players.push(p);
    assert forall|k: int| 0 <= k < ring.len() implies ring_edge(
        players2,
        gid,
        #[trigger] ring[k],
        ring_next(ring, k),
    ) by {
        let i = choose|i: int|
            0 <= i < players.len() && #[trigger] players[i].id == ring[k] && players[i].game_id
                == gid && players[i].is_alive && players[i].target_id == Some(ring_next(ring, k));
        assert(players2[i] == players[i]);
    }
    assert forall|i: int|
        0 <= i < players2.len() && (#[trigger] players2[i]).game_id == gid
            && players2[i].is_alive implies ring.contains(players2[i].id) by {
        assert(i < players.len());
        assert(players2[i] == players[i]);
    }
}

/// A ring of one game is untouched by changes confined to other games: if
/// membership of the game is unchanged and the game's own rows are
/// unchanged, the ring stands.
pub proof fn lemma_ring_ok_untouched(
    players0: Seq<Player>,
    players1: Seq<Player>,
    gid: u64,
    ring: Seq<u64>,
)
    requires
        ring_ok(players0, gid, ring),
        players1.len() == players0.len(),
        forall|i: int|
            0 <= i < players0.len() ==> ((#[trigger] players1[i]).game_id == gid <==> (
            #[trigger] players0[i]).game_id == gid),
        forall|i: int|
            0 <= i < players0.len() && (#[trigger] players0[i]).game_id == gid ==> players1[i]
                == players0[i],
    ensures
        ring_ok(players1, gid, ring),
{
    assert forall|k: int| 0 <= k < ring.len() implies ring_edge(
        players1,
        gid,
        #[trigger] ring[k],
        ring_next(ring, k),
    ) by {
        let w = choose|w: int|
            0 <= w < players0.len() && #[trigger] players0[w].id == ring[k] && players0[w].game_id
                == gid && players0[w].is_alive && players0[w].target_id == Some(ring_next(ring, k));
        assert(players1[w] == players0[w]);
    }
    assert forall|i: int|
        0 <= i < players1.len() && (#[trigger] players1[i]).game_id == gid
            && players1[i].is_alive implies ring.contains(players1[i].id) by {
        assert(players0[i].game_id == gid);
        assert(players1[i] == players0[i]);
    }
}

/// A ring of one game is untouched by removing a row of another game.
#[verifier::spinoff_prover]
#[verifier::rlimit(60)]
pub proof fn lemma_ring_ok_remove_row(players: Seq<Player>, li: int, gid: u64, ring: Seq<u64>)
    requires
        ring_ok(players, gid, ring),
        0 <= li < players.len(),
        players[li].game_id != gid,
    ensures
        ring_ok(players.remove(li), gid, ring),
{
    let players2 = players.remove(li);
    assert forall|k: int| 0 <= k < ring.len() implies ring_edge(
        players2,
        gid,
        #[trigger] ring[k],
        ring_next(ring, k),
    ) by {
        let w = choose|w: int|
            0 <= w < players.len() && #[trigger] players[w].id == ring[k] && players[w].game_id
                == gid && players[w].is_alive && players[w].target_id == Some(ring_next(ring, k));
        assert(w != li);
        if w < li {
            assert(players2[w] == players[w]);
        } else {
            assert(players2[w - 1] == players[w]);
        }
    }
    assert forall|i: int|
        0 <= i < players2.len() && (#[trigger] players2[i]).game_id == gid
            && players2[i].is_alive implies ring.contains(players2[i].id) by {
        if i < li {
            assert(players2[i] == players[i]);
        } else {
            assert(players2[i] == players[i + 1]);
        }
    }
}

/// `ring` rotated left by `r` places.
pub open spec fn rotated(ring: Seq<u64>, r: int) -> Seq<u64> {
    ring.subrange(r, ring.len() as int) + ring.subrange(0, r)
}

/// A ring stays a ring under rotation: the cycle has no distinguished start.
#[verifier::spinoff_prover]
#[verifier::rlimit(100)]
pub proof fn lemma_ring_rotation(players: Seq<Player>, gid: u64, ring: Seq<u64>, r: int)
    requires
        ring_ok(players, gid, ring),
        0 <= r < ring.len(),
    ensures
        ring_ok(players, gid, rotated(ring, r)),
        rotated(ring, r).len() == ring.len(),
        forall|k: int| 0 <= k < ring.len() ==> #[trigger] rotated(ring, r)[k] == ring[(r + k) % (
        ring.len() as int)],
{
    let n = ring.len() as int;
    let rot = rotated(ring, r);
    assert(rot.len() == n);
    assert forall|k: int| 0 <= k < n implies #[trigger] rot[k] == ring[(r + k) % n] by {
        if r + k < n {
            assert((r + k) % n == r + k) by {
                vstd::arithmetic::div_mod::lemma_small_mod((r + k) as nat, n as nat);
            }
        } else {
            assert((r + k) % n == r + k - n) by {
                vstd::arithmetic::div_mod::lemma_mod_self_0(n);
                vstd::arithmetic::div_mod::lemma_mod_sub_multiples_vanish(r + k, n);
                vstd::arithmetic::div_mod::lemma_small_mod((r + k - n) as nat, n as nat);
            }
        }
    }
    assert(rot.no_duplicates()) by {
        assert forall|i: int, j: int| 0 <= i < rot.len() && 0 <= j < rot.len() && i != j implies rot[i]
            != rot[j] by {
            if i < n - r {
                assert(rot[i] == ring[i + r]);
            } else {
                assert(rot[i] == ring[i - (n - r)]);
            }
            if j < n - r {
                assert(rot[j] == ring[j + r]);
            } else {
                assert(rot[j] == ring[j - (n - r)]);
            }
        }
    }
    assert forall|k: int| 0 <= k < rot.len() implies ring_edge(
        players,
        gid,
        #[trigger] rot[k],
        ring_next(rot, k),
    ) by {
        if k < n - r {
            assert(rot[k] == ring[k + r]);
            assert(ring_edge(players, gid, ring[k + r], ring_next(ring, k + r)));
            if k + 1 < n {
                if k + 1 < n - r {
                    assert(ring_next(rot, k) == rot[k + 1]);
                    assert(rot[k + 1] == ring[k + 1 + r]);
                    assert(ring_next(ring, k + r) == ring[k + r + 1]);
                } else {
                    // k + 1 == n - r: the rotation wraps where the original did
                    assert(ring_next(rot, k) == rot[k + 1]);
                    assert(rot[k + 1] == ring[k + 1 - (n - r)]);
                    assert(k + r + 1 == n);
                    assert(ring_next(ring, k + r) == ring[0]);
                }
            } else {
                // k == n - 1, so r == 0 and rot is ring itself
                assert(ring_next(rot, k) == rot[0]);
            }
        } else {
            assert(rot[k] == ring[k - (n - r)]);
            let m = k - (n - r);
            assert(0 <= m < r);
            assert(ring_edge(players, gid, ring[m], ring_next(ring, m)));
            if k + 1 < n {
                assert(ring_next(rot, k) == rot[k + 1]);
                assert(rot[k + 1] == ring[m + 1]);
                assert(m + 1 < r < n);
                assert(ring_next(ring, m) == ring[m + 1]);
            } else {
                // k == n - 1, so m == r - 1 and the successor is ring[r]
                assert(ring_next(rot, k) == rot[0]);
                assert(rot[0] == ring[r]);
                assert(m + 1 == r);
                assert(ring_next(ring, m) == ring[r]);
            }
        }
    }
    assert forall|i: int|
        0 <= i < players.len() && (#[trigger] players[i]).game_id == gid
            && players[i].is_alive implies rot.contains(players[i].id) by {
        assert(ring.contains(players[i].id));
        let k = choose|k: int| 0 <= k < n && ring[k] == players[i].id;
        if k >= r {
            assert(rot[k - r] == ring[k]);
        } else {
            assert(rot[k + (n - r)] == ring[k]);
        }
    }
}

/// Every alive member of a ringed game sits somewhere on the ring, and its
/// recorded target is the ring's next element there.
pub proof fn lemma_member_edge(players: Seq<Player>, gid: u64, ring: Seq<u64>, i: int) -> (k: int)
    requires
        ring_ok(players, gid, ring),
        forall|a: int, b: int|
            0 <= a < b < players.len() ==> #[trigger] players[a].id != #[trigger] players[b].id,
        0 <= i < players.len(),
        players[i].game_id == gid,
        players[i].is_alive,
    ensures
        0 <= k < ring.len(),
        ring[k] == players[i].id,
        players[i].target_id == Some(ring_next(ring, k)),
{
    assert(ring.contains(players[i].id));
    let k = choose|k: int| 0 <= k < ring.len() && ring[k] == players[i].id;
    assert(ring_edge(players, gid, ring[k], ring_next(ring, k)));
    let w = choose|w: int|
        0 <= w < players.len() && #[trigger] players[w].id == ring[k] && players[w].game_id == gid
            && players[w].is_alive && players[w].target_id == Some(ring_next(ring, k));
    if w < i {
        assert(players[w].id != players[i].id);
    } else if i < w {
        assert(players[i].id != players[w].id);
    }
    k
}

/// The elimination splice. With the target marked dead and the killer now
/// pointing at the target's old target, the remaining alive members again
/// form one single closed cycle: the old ring with the target taken out.
/// The row relation of an elimination: the target `players0[ti]` marked
/// dead, the killer `players0[ki]` now pointing at the target's old target
/// `nt`, and every other row untouched.
pub open spec fn splice_rows(
    players0: Seq<Player>,
    players1: Seq<Player>,
    gid: u64,
    ki: int,
    ti: int,
    nt: u64,
) -> bool {
    &&& forall|a: int, b: int|
        0 <= a < b < players0.len() ==> #[trigger] players0[a].id != #[trigger] players0[b].id
    &&& 0 <= ki < players0.len()
    &&& 0 <= ti < players0.len()
    &&& ki != ti
    &&& players0[ki].game_id == gid
    &&& players0[ki].is_alive
    &&& players0[ti].game_id == gid
    &&& players0[ti].is_alive
    &&& players0[ki].target_id == Some(players0[ti].id)
    &&& players0[ti].target_id == Some(nt)
    &&& players1.len() == players0.len()
    &&& forall|i: int|
        0 <= i < players0.len() && i != ki && i != ti ==> #[trigger] players1[i] == players0[i]
    &&& same_identity(players1[ti], players0[ti])
    &&& !players1[ti].is_alive
    &&& same_identity(players1[ki], players0[ki])
    &&& players1[ki].is_alive
    &&& players1[ki].target_id == Some(nt)
}

/// Rotating the ring so that the target sits first puts the killer last,
/// with the target's old target right after the target.
proof fn lemma_splice_rot(
    players0: Seq<Player>,
    gid: u64,
    ring: Seq<u64>,
    ki: int,
    ti: int,
    nt: u64,
) -> (rot: Seq<u64>)
    requires
        ring_ok(players0, gid, ring),
        forall|a: int, b: int|
            0 <= a < b < players0.len() ==> #[trigger] players0[a].id != #[trigger] players0[b].id,
        ring.len() >= 2,
        0 <= ki < players0.len(),
        0 <= ti < players0.len(),
        ki != ti,
        players0[ki].game_id == gid,
        players0[ki].is_alive,
        players0[ti].game_id == gid,
        players0[ti].is_alive,
        players0[ki].target_id == Some(players0[ti].id),
        players0[ti].target_id == Some(nt),
    ensures
        ring_ok(players0, gid, rot),
        rot.len() == ring.len(),
        rot[0] == players0[ti].id,
        rot[ring.len() - 1] == players0[ki].id,
        nt == rot[1] || (ring.len() == 2 && nt == rot[0]),
{
    let n = ring.len() as int;
    let k = lemma_member_edge(players0, gid, ring, ki);
    assert(ring_next(ring, k) == players0[ti].id);
    let r: int = if k + 1 < n {
        k + 1
    } else {
        0
    };
    lemma_ring_rotation(players0, gid, ring, r);
    let rot = rotated(ring, r);
    assert(rot[0] == ring[r]) by {
        assert(rot[0] == ring.subrange(r, n)[0]);
    }
    assert(rot[0] == players0[ti].id);
    assert(rot[n - 1] == ring[k]) by {
        if r == 0 {
            assert(rot[n - 1] == ring.subrange(0, n)[n - 1]);
        } else {
            assert(rot[n - 1] == ring.subrange(0, r)[n - 1 - (n - r)]);
            assert(ring.subrange(0, r)[r - 1] == ring[r - 1]);
        }
    }
    assert(rot[n - 1] == players0[ki].id);
    // the target's outgoing edge is the element after it on the rotation
    assert(ring_edge(players0, gid, rot[0], ring_next(rot, 0)));
    let wt = choose|w: int|
        0 <= w < players0.len() && #[trigger] players0[w].id == rot[0] && players0[w].game_id
            == gid && players0[w].is_alive && players0[w].target_id == Some(ring_next(rot, 0));
    assert(wt == ti) by {
        if wt < ti {
            assert(players0[wt].id != players0[ti].id);
        } else if ti < wt {
            assert(players0[ti].id != players0[wt].id);
        }
    }
    if n >= 3 {
        assert(ring_next(rot, 0) == rot[1]);
        assert(nt == rot[1]);
    } else {
        assert(ring_next(rot, 0) == rot[1]);
    }
    rot
}

/// After the splice, every position of the shortened ring again carries an
/// edge: unchanged rows keep theirs, and the killer, now last, points at
/// the element that used to follow the target.
proof fn lemma_splice_edges(
    players0: Seq<Player>,
    players1: Seq<Player>,
    gid: u64,
    rot: Seq<u64>,
    new_ring: Seq<u64>,
    ki: int,
    ti: int,
    nt: u64,
)
    requires
        splice_rows(players0, players1, gid, ki, ti, nt),
        ring_ok(players0, gid, rot),
        rot.len() >= 3,
        rot[0] == players0[ti].id,
        rot[rot.len() - 1] == players0[ki].id,
        nt == rot[1],
        new_ring == rot.subrange(1, rot.len() as int),
    ensures
        forall|j: int|
            0 <= j < new_ring.len() ==> ring_edge(
                players1,
                gid,
                #[trigger] new_ring[j],
                ring_next(new_ring, j),
            ),
{
    let n = rot.len() as int;
    assert forall|j: int| 0 <= j < new_ring.len() implies ring_edge(
        players1,
        gid,
        #[trigger] new_ring[j],
        ring_next(new_ring, j),
    ) by {
        if j < n - 2 {
            assert(new_ring[j] == rot[j + 1]);
            assert(ring_next(new_ring, j) == new_ring[j + 1]);
            assert(new_ring[j + 1] == rot[j + 2]);
            assert(ring_edge(players0, gid, rot[j + 1], ring_next(rot, j + 1)));
            assert(ring_next(rot, j + 1) == rot[j + 2]);
            let w = choose|w: int|
                0 <= w < players0.len() && #[trigger] players0[w].id == rot[j + 1]
                    && players0[w].game_id == gid && players0[w].is_alive
                    && players0[w].target_id == Some(ring_next(rot, j + 1));
            assert(w != ti) by {
                assert(rot[j + 1] != rot[0]);
                if w < ti {
                    assert(players0[w].id != players0[ti].id);
                } else if ti < w {
                    assert(players0[ti].id != players0[w].id);
                }
            }
            assert(w != ki) by {
                assert(rot[j + 1] != rot[n - 1]);
                if w < ki {
                    assert(players0[w].id != players0[ki].id);
                } else if ki < w {
                    assert(players0[ki].id != players0[w].id);
                }
            }
            assert(players1[w] == players0[w]);
        } else {
            // the spliced edge: the killer, now last, points at rot[1]
            assert(j == n - 2);
            assert(new_ring[j] == rot[n - 1]);
            assert(ring_next(new_ring, j) == new_ring[0]);
            assert(new_ring[0] == rot[1]);
            assert(players1[ki].id == players0[ki].id);
            assert(players1[ki].game_id == gid);
            assert(players1[ki].target_id == Some(rot[1]));
        }
    }
}

/// After the splice, every alive member still sits on the shortened ring.
proof fn lemma_splice_containment(
    players0: Seq<Player>,
    players1: Seq<Player>,
    gid: u64,
    rot: Seq<u64>,
    new_ring: Seq<u64>,
    ki: int,
    ti: int,
    nt: u64,
)
    requires
        splice_rows(players0, players1, gid, ki, ti, nt),
        ring_ok(players0, gid, rot),
        rot.len() >= 2,
        rot[0] == players0[ti].id,
        new_ring == rot.subrange(1, rot.len() as int),
    ensures
        forall|i: int|
            0 <= i < players1.len() && (#[trigger] players1[i]).game_id == gid
                && players1[i].is_alive ==> new_ring.contains(players1[i].id),
{
    assert forall|i: int|
        0 <= i < players1.len() && (#[trigger] players1[i]).game_id == gid
            && players1[i].is_alive implies new_ring.contains(players1[i].id) by {
        assert(i != ti);
        assert(players1[i].id == players0[i].id && players0[i].game_id == gid
            && players0[i].is_alive) by {
            if i == ki {
                assert(same_identity(players1[ki], players0[ki]));
            } else {
                assert(players1[i] == players0[i]);
            }
        }
        assert(rot.contains(players0[i].id));
        let m = choose|m: int| 0 <= m < rot.len() && rot[m] == players0[i].id;
        assert(m != 0) by {
            if i < ti {
                assert(players0[i].id != players0[ti].id);
            } else {
                assert(players0[ti].id != players0[i].id);
            }
        }
        assert(new_ring[m - 1] == rot[m]);
    }
}

/// The elimination splice. With the target marked dead and the killer now
/// pointing at the target's old target, the remaining alive members again
/// form one single closed cycle: the old ring with the target taken out.
pub proof fn lemma_splice_ring(
    players0: Seq<Player>,
    players1: Seq<Player>,
    gid: u64,
    ring: Seq<u64>,
    ki: int,
    ti: int,
    nt: u64,
) -> (new_ring: Seq<u64>)
    requires
        ring_ok(players0, gid, ring),
        splice_rows(players0, players1, gid, ki, ti, nt),
        ring.len() >= 3,
    ensures
        ring_ok(players1, gid, new_ring),
        new_ring.len() == ring.len() - 1,
{
    let n = ring.len() as int;
    let rot = lemma_splice_rot(players0, gid, ring, ki, ti, nt);
    let new_ring = rot.subrange(1, n);
    assert(new_ring.len() == n - 1);
    assert(new_ring.no_duplicates()) by {
        assert forall|a: int, b: int|
            0 <= a < new_ring.len() && 0 <= b < new_ring.len() && a != b implies new_ring[a]
            != new_ring[b] by {
            assert(new_ring[a] == rot[a + 1]);
            assert(new_ring[b] == rot[b + 1]);
        }
    }
    lemma_splice_edges(players0, players1, gid, rot, new_ring, ki, ti, nt);
    lemma_splice_containment(players0, players1, gid, rot, new_ring, ki, ti, nt);
    new_ring
}

/// alive players.
pub proof fn lemma_ring_len_is_alive_count(players: Seq<Player>, gid: u64, ring: Seq<u64>)
    requires
        ring_ok(players, gid, ring),
        forall|i: int, j: int|
            0 <= i < j < players.len() ==> #[trigger] players[i].id != #[trigger] players[j].id,
    ensures
        ring.len() == count_alive(players, gid),
{
    assert(ring.to_set() =~= alive_ids(players, gid)) by {
        assert forall|id: u64| #[trigger] ring.to_set().contains(id) implies alive_ids(
            players,
            gid,
        ).contains(id) by {
            let k = choose|k: int| 0 <= k < ring.len() && ring[k] == id;
            assert(ring_edge(players, gid, ring[k], ring_next(ring, k)));
            let i = choose|i: int|
                0 <= i < players.len() && #[trigger] players[i].id == id && players[i].game_id
                    == gid && players[i].is_alive && players[i].target_id == Some(
                    ring_next(ring, k),
                );
            assert(players[i].id == id);
        }
        assert forall|id: u64| #[trigger] alive_ids(players, gid).contains(id) implies ring.to_set()
            .contains(id) by {
            let i = choose|i: int|
                0 <= i < players.len() && #[trigger] players[i].id == id && players[i].game_id
                    == gid && players[i].is_alive;
            assert(ring.contains(players[i].id));
        }
    }
    ring.unique_seq_to_set();
    lemma_count_alive_is_alive_ids_len(players, gid);
}

/// With unique ids, `count_alive` counts exactly the members of
/// `alive_ids`.
proof fn lemma_count_alive_is_alive_ids_len(players: Seq<Player>, gid: u64)
    requires
        forall|i: int, j: int|
            0 <= i < j < players.len() ==> #[trigger] players[i].id != #[trigger] players[j].id,
    ensures
        alive_ids(players, gid).finite(),
        count_alive(players, gid) == alive_ids(players, gid).len(),
    decreases players.len(),
{
    if players.len() == 0 {
        assert(alive_ids(players, gid) =~= Set::<u64>::empty());
    } else {
        let prefix = players.drop_last();
        let p = players.last();
        lemma_count_alive_is_alive_ids_len(prefix, gid);
        if p.game_id == gid && p.is_alive {
            assert(alive_ids(players, gid) =~= alive_ids(prefix, gid).insert(p.id)) by {
                assert forall|id: u64| #[trigger] alive_ids(players, gid).contains(id) implies
                    alive_ids(prefix, gid).insert(p.id).contains(id) by {
                    let i = choose|i: int|
                        0 <= i < players.len() && #[trigger] players[i].id == id
                            && players[i].game_id == gid && players[i].is_alive;
                    if i < prefix.len() {
                        assert(prefix[i] == players[i]);
                        assert(alive_ids(prefix, gid).contains(id));
                    }
                }
                assert forall|id: u64| alive_ids(prefix, gid).insert(p.id).contains(id) implies
                    #[trigger] alive_ids(players, gid).contains(id) by {
                    if alive_ids(prefix, gid).contains(id) {
                        let i = choose|i: int|
                            0 <= i < prefix.len() && #[trigger] prefix[i].id == id
                                && prefix[i].game_id == gid && prefix[i].is_alive;
                        assert(players[i] == prefix[i]);
                    } else {
                        assert(players[players.len() - 1].id == id);
                    }
                }
            }
            assert(!alive_ids(prefix, gid).contains(p.id)) by {
                if alive_ids(prefix, gid).contains(p.id) {
                    let i = choose|i: int|
                        0 <= i < prefix.len() && #[trigger] prefix[i].id == p.id
                            && prefix[i].game_id == gid && prefix[i].is_alive;
                    assert(players[i].id == players[players.len() - 1].id);
                }
            }
        } else {
            assert(alive_ids(players, gid) =~= alive_ids(prefix, gid)) by {
                assert forall|id: u64| #[trigger] alive_ids(players, gid).contains(id) implies
                    alive_ids(prefix, gid).contains(id) by {
                    let i = choose|i: int|
                        0 <= i < players.len() && #[trigger] players[i].id == id
                            && players[i].game_id == gid && players[i].is_alive;
                    assert(i < prefix.len());
                    assert(prefix[i] == players[i]);
                }
                assert forall|id: u64| #[trigger] alive_ids(prefix, gid).contains(id) implies
                    alive_ids(players, gid).contains(id) by {
                    let i = choose|i: int|
                        0 <= i < prefix.len() && #[trigger] prefix[i].id == id
                            && prefix[i].game_id == gid && prefix[i].is_alive;
                    assert(players[i] == prefix[i]);
                }
            }
        }
    }
}

} // verus!
