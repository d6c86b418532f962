//! The ring assignment engine: on the host's "start", arrange all lobby
//! members into one randomly ordered target ring and move the game to
//! `InProgress`, all or nothing.

use crate::codes::shuffle_ids;
use crate::errors::AppError;
use crate::models::{eq_except_target, has_game_id, has_player_id, players_of, GameStatus, Player};
use crate::ring::{lemma_ring_ok_untouched, ring_edge, ring_next, ring_ok};
use crate::store::{bumped, code_taken, first_holder_idx, holder_with_token, lemma_first_holder_idx_is, lemma_the_game_idx_is, the_game_idx, version_of, Store};
use vstd::prelude::*;

verus! {

/// Some row among the first `upto` players carries the id `id` within the
/// game `gid`.
spec fn member_seen(players: Seq<Player>, gid: u64, upto: int, id: u64) -> bool {
    exists|k: int| 0 <= k < upto && #[trigger] players[k].id == id && players[k].game_id == gid
}

impl Store {
    /// Why a start of game `code` requested by player `pid` is turned away,
    /// if it is: an unknown code, a requester who is not the host, a game
    /// past its lobby phase, or fewer than two players.
    pub open spec fn start_error(self, code: Seq<char>, pid: u64) -> Option<AppError> {
        if !code_taken(self.games@, code) {
            Some(AppError::NotFound)
        } else {
            let g = the_game_idx(self.games@, code);
            if self.games@[g].host_id != pid {
                Some(AppError::Forbidden)
            } else if self.games@[g].status != GameStatus::Lobby {
                Some(AppError::UnprocessableEntity)
            } else if players_of(self.players@, self.games@[g].id).len() < 2 {
                Some(AppError::UnprocessableEntity)
            } else {
                None
            }
        }
    }

    /// Everything a successful start changes: the game is in progress, its
    /// members keep every field but now target one another along a single
    /// closed cycle, and the game's change counter is bumped.
    pub open spec fn start_post(self, new: Store, code: Seq<char>) -> bool {
        let g = the_game_idx(self.games@, code);
        let gid = self.games@[g].id;
        &&& new.games@.len() == self.games@.len()
        &&& new.games@ == self.games@.update(g, new.games@[g])
        &&& new.games@[g].id == gid
        &&& new.games@[g].code == self.games@[g].code
        &&& new.games@[g].host_id == self.games@[g].host_id
        &&& new.games@[g].winner_id is None
        &&& new.games@[g].status == GameStatus::InProgress
        &&& new.players@.len() == self.players@.len()
        &&& forall|i: int|
            0 <= i < self.players@.len() ==> eq_except_target(
                #[trigger] new.players@[i],
                self.players@[i],
            )
        &&& forall|i: int|
            0 <= i < self.players@.len() && (#[trigger] self.players@[i]).game_id != gid
                ==> new.players@[i] == self.players@[i]
        &&& forall|i: int|
            0 <= i < new.players@.len() && (#[trigger] new.players@[i]).game_id == gid
                ==> new.players@[i].target_id is Some
        &&& ring_ok(new.players@, gid, new.rings@[gid])
        &&& new.rings@[gid].len() == players_of(self.players@, gid).len()
        &&& new.next_game_id == self.next_game_id
        &&& new.next_player_id == self.next_player_id
        &&& version_of(new.versions@, code) == bumped(version_of(self.versions@, code))
        &&& forall|c: Seq<char>|
            c != code ==> version_of(new.versions@, c) == version_of(self.versions@, c)
    }

    /// The ids of the members of game `gid`, in creation order.
    fn collect_member_ids(&self, gid: u64) -> (ids: Vec<u64>)
        requires
            forall|i: int, j: int|
                0 <= i < j < self.players@.len() ==> #[trigger] self.players@[i].id
                    < #[trigger] self.players@[j].id,
        ensures
            ids@.no_duplicates(),
            ids@.len() == players_of(self.players@, gid).len(),
            forall|m: int|
                0 <= m < ids@.len() ==> has_player_id(self.players@, gid, #[trigger] ids@[m]),
            forall|i: int|
                0 <= i < self.players@.len() && (#[trigger] self.players@[i]).game_id == gid
                    ==> ids@.contains(self.players@[i].id),
    {
        let mut ids: Vec<u64> = Vec::new();
        let mut i: usize = 0;
        while i < self.players.len()
            invariant
                i <= self.players@.len(),
                forall|a: int, b: int|
                    0 <= a < b < self.players@.len() ==> #[trigger] self.players@[a].id
                        < #[trigger] self.players@[b].id,
                ids@.len() == players_of(self.players@.subrange(0, i as int), gid).len(),
                forall|m: int|
                    0 <= m < ids@.len() ==> member_seen(self.players@, gid, i as int, #[trigger] ids@[m]),
                forall|k: int|
                    0 <= k < i && (#[trigger] self.players@[k]).game_id == gid ==> ids@.contains(
                        self.players@[k].id,
                    ),
                forall|m1: int, m2: int| 0 <= m1 < m2 < ids@.len() ==> ids@[m1] < ids@[m2],
            decreases self.players@.len() - i,
        {
            proof {
                crate::models::lemma_players_of_take_one_more(self.players@, gid, i as int);
            }
            let ghost ids0 = ids@;
            if self.players[i].game_id == gid {
                proof {
                    assert forall|m: int| 0 <= m < ids0.len() implies ids0[m]
                        < self.players@[i as int].id by {
                        assert(member_seen(self.players@, gid, i as int, ids0[m]));
                        let k = choose|k: int|
                            0 <= k < i && #[trigger] self.players@[k].id == ids0[m]
                                && self.players@[k].game_id == gid;
                        assert(self.players@[k].id < self.players@[i as int].id);
                    }
                }
                ids.push(self.players[i].id);
            }
            proof {
                assert forall|m: int| 0 <= m < ids@.len() implies member_seen(
                    self.players@,
                    gid,
                    i + 1,
                    #[trigger] ids@[m],
                ) by {
                    if m < ids0.len() {
                        assert(ids@[m] == ids0[m]);
                        assert(member_seen(self.players@, gid, i as int, ids0[m]));
                        let k = choose|k: int|
                            0 <= k < i && #[trigger] self.players@[k].id == ids0[m]
                                && self.players@[k].game_id == gid;
                        assert(0 <= k < i + 1 && self.players@[k].id == ids@[m]
                            && self.players@[k].game_id == gid);
                    } else {
                        assert(ids@[m] == self.players@[i as int].id);
                        assert(0 <= i < i + 1 && self.players@[i as int].id == ids@[m]
                            && self.players@[i as int].game_id == gid);
                    }
                }
                assert forall|k: int|
                    0 <= k < i + 1 && (#[trigger] self.players@[k]).game_id == gid implies
                    ids@.contains(self.players@[k].id) by {
                    if k < i {
                        assert(ids0.contains(self.players@[k].id));
                        let m = choose|m: int| 0 <= m < ids0.len() && ids0[m]
                            == self.players@[k].id;
                        assert(ids@[m] == self.players@[k].id);
                    } else {
                        assert(ids@[ids@.len() - 1] == self.players@[k].id);
                    }
                }
            }
            i = i + 1;
        }
        proof {
            assert(self.players@.subrange(0, self.players@.len() as int) =~= self.players@);
            assert forall|m: int| 0 <= m < ids@.len() implies has_player_id(
                self.players@,
                gid,
                #[trigger] ids@[m],
            ) by {
                assert(member_seen(self.players@, gid, self.players@.len() as int, ids@[m]));
                let k = choose|k: int|
                    0 <= k < self.players@.len() && #[trigger] self.players@[k].id == ids@[m]
                        && self.players@[k].game_id == gid;
                assert(0 <= k < self.players@.len() && self.players@[k].id == ids@[m]
                    && self.players@[k].game_id == gid);
            }
            assert forall|m1: int, m2: int|
                0 <= m1 < ids@.len() && 0 <= m2 < ids@.len() && m1 != m2 implies ids@[m1]
                != ids@[m2] by {
                if m1 < m2 {
                    assert(ids@[m1] < ids@[m2]);
                } else {
                    assert(ids@[m2] < ids@[m1]);
                }
            }
        }
        ids
    }

    /// Start the game with code `game_code`, requested by the player with id
    /// `requesting_player_id`: arrange all lobby members into one randomly
    /// ordered target ring and move the game to `InProgress`. The validation
    /// order and the error of each rejected case are fixed by
    /// [`Store::start_error`].
    pub fn start_game(&mut self, game_code: &String, requesting_player_id: u64) -> (r: Result<
        Vec<Player>,
        AppError,
    >)
        requires
            old(self).wf(),
        ensures
            final(self).wf(),
            r is Err <==> old(self).start_error(game_code@, requesting_player_id) is Some,
            r is Err ==> *final(self) == *old(self) && Some(r->Err_0) == old(self).start_error(
                game_code@,
                requesting_player_id,
            ),
            r is Ok ==> old(self).start_post(*final(self), game_code@),
            r is Ok ==> r->Ok_0@ == players_of(
                final(self).players@,
                old(self).games@[the_game_idx(old(self).games@, game_code@)].id,
            ),
    {
        let gidx = match self.find_game_idx(game_code) {
            None => {
                return Err(AppError::NotFound);
            },
            Some(x) => x,
        };
        proof {
            lemma_the_game_idx_is(self.games@, game_code@, gidx as int);
        }
        if self.games[gidx].host_id != requesting_player_id {
            return Err(AppError::Forbidden);
        }
        if !matches!(self.games[gidx].status, GameStatus::Lobby) {
            return Err(AppError::UnprocessableEntity);
        }
        let gid = self.games[gidx].id;
        let mut ids = self.collect_member_ids(gid);
        if ids.len() < 2 {
            return Err(AppError::UnprocessableEntity);
        }
        let ghost s0 = *self;
        let ghost ids0 = ids@;
        shuffle_ids(&mut ids);
        proof {
            lemma_permutation_facts(ids0, ids@);
            assert forall|m: int| 0 <= m < ids@.len() implies has_player_id(
                s0.players@,
                gid,
                #[trigger] ids@[m],
            ) by {
                assert(ids@.contains(ids@[m]));
                assert(ids0.contains(ids@[m]));
            }
            assert forall|i: int|
                0 <= i < s0.players@.len() && (#[trigger] s0.players@[i]).game_id == gid implies
                s0.players@[i].is_alive && s0.players@[i].target_id is None by {
                assert(s0.games@[gidx as int].id == s0.players@[i].game_id);
            }
        }
        self.assign_ring_targets(gid, &ids);
        let mut started = self.games[gidx].clone();
        started.status = GameStatus::InProgress;
        self.games.set(gidx, started);
        self.rings = Ghost(self.rings@.insert(gid, ids@));
        proof {
            lemma_start_preserves_wf(s0, *self, gidx as int, ids@);
            assert forall|i: int|
                0 <= i < self.players@.len() && (#[trigger] self.players@[i]).game_id == gid implies
                self.players@[i].target_id is Some by {
                assert(eq_except_target(self.players@[i], s0.players@[i]));
                assert(self.players@[i].is_alive);
                assert(ids@.contains(self.players@[i].id));
                let m = choose|m: int| 0 <= m < ids@.len() && ids@[m] == self.players@[i].id;
                assert(ring_edge(self.players@, gid, ids@[m], ring_next(ids@, m)));
                let w = choose|w: int|
                    0 <= w < self.players@.len() && #[trigger] self.players@[w].id == ids@[m]
                        && self.players@[w].game_id == gid && self.players@[w].is_alive
                        && self.players@[w].target_id == Some(ring_next(ids@, m));
                assert(self.players@[w].id == self.players@[i].id);
                if w < i {
                    assert(s0.players@[w].id < s0.players@[i].id);
                } else if i < w {
                    assert(s0.players@[i].id < s0.players@[w].id);
                }
            }
        }
        self.bump_game_version(game_code);
        let players = self.get_players_by_game_id(gid);
        Ok(players)
    }

    /// Start the game with code `game_code` on behalf of whoever holds the
    /// session token `auth_token`: the credentialed form of
    /// [`Store::start_game`]. An unknown token is turned away as `Forbidden`
    /// before anything else is looked at.
    pub fn start_game_by_token(&mut self, game_code: &String, auth_token: &String) -> (r: Result<
        Vec<Player>,
        AppError,
    >)
        requires
            old(self).wf(),
        ensures
            final(self).wf(),
            !holder_with_token(old(self).players@, auth_token@) ==> r == Err::<
                Vec<Player>,
                AppError,
            >(AppError::Forbidden) && *final(self) == *old(self),
            holder_with_token(old(self).players@, auth_token@) ==> ({
                let pid = old(self).players@[first_holder_idx(old(self).players@, auth_token@)].id;
                &&& (r is Err <==> old(self).start_error(game_code@, pid) is Some)
                &&& (r is Err ==> *final(self) == *old(self) && Some(r->Err_0) == old(
                    self,
                ).start_error(game_code@, pid))
                &&& (r is Ok ==> old(self).start_post(*final(self), game_code@))
                &&& (r is Ok ==> r->Ok_0@ == players_of(
                    final(self).players@,
                    old(self).games@[the_game_idx(old(self).games@, game_code@)].id,
                ))
            }),
    {
        match self.find_player_idx_by_token(auth_token) {
            None => Err(AppError::Forbidden),
            Some(i) => {
                proof {
                    lemma_first_holder_idx_is(self.players@, auth_token@, i as int);
                }
                let pid = self.players[i].id;
                self.start_game(game_code, pid)
            },
        }
    }

    /// Point each listed member at the next one, cyclically: `ids` gives the
    /// ring order, and each member of the game listed in `ids` gets its
    /// outgoing edge.
    fn assign_ring_targets(&mut self, gid: u64, ids: &Vec<u64>)
        requires
            forall|i: int, j: int|
                0 <= i < j < old(self).players@.len() ==> #[trigger] old(self).players@[i].id
                    < #[trigger] old(self).players@[j].id,
            forall|i: int|
                0 <= i < old(self).players@.len() && (#[trigger] old(self).players@[i]).game_id
                    == gid ==> old(self).players@[i].is_alive,
            ids@.no_duplicates(),
            forall|m: int|
                0 <= m < ids@.len() ==> has_player_id(old(self).players@, gid, #[trigger] ids@[m]),
        ensures
            final(self).players@.len() == old(self).players@.len(),
            forall|i: int|
                0 <= i < old(self).players@.len() ==> eq_except_target(
                    #[trigger] final(self).players@[i],
                    old(self).players@[i],
                ),
            forall|i: int|
                0 <= i < old(self).players@.len() && (#[trigger] old(self).players@[i]).game_id
                    != gid ==> final(self).players@[i] == old(self).players@[i],
            forall|m: int|
                0 <= m < ids@.len() ==> ring_edge(
                    final(self).players@,
                    gid,
                    #[trigger] ids@[m],
                    ring_next(ids@, m),
                ),
            final(self).games@ == old(self).games@,
            final(self).versions@ == old(self).versions@,
            final(self).rings@ == old(self).rings@,
            final(self).next_game_id == old(self).next_game_id,
            final(self).next_player_id == old(self).next_player_id,
    {
        let ghost s0 = *old(self);
        let n = ids.len();
        let mut k: usize = 0;
        while k < n
            invariant
                n == ids@.len(),
                k <= n,
                ids@.no_duplicates(),
                forall|i: int, j: int|
                    0 <= i < j < s0.players@.len() ==> #[trigger] s0.players@[i].id
                        < #[trigger] s0.players@[j].id,
                forall|i: int|
                    0 <= i < s0.players@.len() && (#[trigger] s0.players@[i]).game_id == gid
                        ==> s0.players@[i].is_alive,
                forall|m: int|
                    0 <= m < ids@.len() ==> has_player_id(s0.players@, gid, #[trigger] ids@[m]),
                self.players@.len() == s0.players@.len(),
                forall|i: int|
                    0 <= i < s0.players@.len() ==> eq_except_target(
                        #[trigger] self.players@[i],
                        s0.players@[i],
                    ),
                forall|i: int|
                    0 <= i < s0.players@.len() && (#[trigger] s0.players@[i]).game_id != gid
                        ==> self.players@[i] == s0.players@[i],
                forall|m: int|
                    0 <= m < k ==> ring_edge(
                        self.players@,
                        gid,
                        #[trigger] ids@[m],
                        ring_next(ids@, m),
                    ),
                self.games@ == s0.games@,
                self.versions@ == s0.versions@,
                self.rings@ == s0.rings@,
                self.next_game_id == s0.next_game_id,
                self.next_player_id == s0.next_player_id,
            decreases n - k,
        {
            let t: u64 = if k + 1 < n {
                ids[k + 1]
            } else {
                ids[0]
            };
            match self.find_player_idx_by_id(ids[k]) {
                Some(i) => {
                    proof {
                        // the found row is the member that `ids[k]` names
                        assert(has_player_id(s0.players@, gid, ids@[k as int]));
                        let w = choose|w: int|
                            0 <= w < s0.players@.len() && #[trigger] s0.players@[w].id
                                == ids@[k as int] && s0.players@[w].game_id == gid;
                        assert(eq_except_target(self.players@[w], s0.players@[w]));
                        if w != i as int {
                            assert(s0.players@[w].id != s0.players@[i as int].id);
                            assert(eq_except_target(self.players@[i as int], s0.players@[i as int]));
                        }
                    }
                    let mut p = self.players[i].clone();
                    p.target_id = Some(t);
                    let ghost before = self.players@;
                    self.players.set(i, p);
                    proof {
                        assert forall|m: int| 0 <= m < k + 1 implies ring_edge(
                            self.players@,
                            gid,
                            #[trigger] ids@[m],
                            ring_next(ids@, m),
                        ) by {
                            if m < k {
                                let w = choose|w: int|
                                    0 <= w < before.len() && #[trigger] before[w].id == ids@[m]
                                        && before[w].game_id == gid && before[w].is_alive
                                        && before[w].target_id == Some(ring_next(ids@, m));
                                assert(before[w].id == ids@[m]);
                                assert(ids@[m] != ids@[k as int]);
                                assert(w != i as int);
                                assert(self.players@[w] == before[w]);
                            } else {
                                assert(self.players@[i as int].id == ids@[k as int]);
                                assert(self.players@[i as int].game_id == gid);
                                assert(self.players@[i as int].is_alive);
                                assert(self.players@[i as int].target_id == Some(
                                    ring_next(ids@, k as int),
                                ));
                            }
                        }
                    }
                },
                None => {
                    proof {
                        assert(has_player_id(s0.players@, gid, ids@[k as int]));
                        let w = choose|w: int|
                            0 <= w < s0.players@.len() && #[trigger] s0.players@[w].id
                                == ids@[k as int] && s0.players@[w].game_id == gid;
                        assert(eq_except_target(self.players@[w], s0.players@[w]));
                        assert(false);
                    }
                },
            }
            k = k + 1;
        }
    }
}

/// A reordering that keeps the multiset of elements keeps their number,
/// their distinctness and their membership.
proof fn lemma_permutation_facts(a: Seq<u64>, b: Seq<u64>)
    requires
        b.to_multiset() == a.to_multiset(),
        a.no_duplicates(),
    ensures
        b.len() == a.len(),
        b.no_duplicates(),
        forall|x: u64| b.contains(x) <==> a.contains(x),
{
    broadcast use vstd::seq_lib::group_to_multiset_ensures;

    assert(a.to_multiset().len() == a.len());
    assert(b.to_multiset().len() == b.len());
    a.lemma_multiset_has_no_duplicates();
    assert forall|x: u64| b.to_multiset().contains(x) implies b.to_multiset().count(x) == 1 by {
        assert(a.to_multiset().contains(x));
    }
    b.lemma_multiset_has_no_duplicates_conv();
    assert forall|x: u64| b.contains(x) <==> a.contains(x) by {
        assert(b.contains(x) <==> b.to_multiset().count(x) > 0);
        assert(a.contains(x) <==> a.to_multiset().count(x) > 0);
    }
}

/// After the ring assignment rewires the lobby members of one game and the
/// game itself moves to `InProgress` with its ring recorded, the store
/// invariant holds again.
proof fn lemma_start_preserves_wf(s0: Store, s1: Store, gidx: int, ring: Seq<u64>)
    requires
        s0.wf(),
        0 <= gidx < s0.games@.len(),
        s0.games@[gidx].status == GameStatus::Lobby,
        ring.no_duplicates(),
        ring.len() >= 2,
        s1.players@.len() == s0.players@.len(),
        forall|i: int|
            0 <= i < s0.players@.len() ==> eq_except_target(
                #[trigger] s1.players@[i],
                s0.players@[i],
            ),
        forall|i: int|
            0 <= i < s0.players@.len() && (#[trigger] s0.players@[i]).game_id
                != s0.games@[gidx].id ==> s1.players@[i] == s0.players@[i],
        forall|m: int|
            0 <= m < ring.len() ==> ring_edge(
                s1.players@,
                s0.games@[gidx].id,
                #[trigger] ring[m],
                ring_next(ring, m),
            ),
        forall|i: int|
            0 <= i < s0.players@.len() && (#[trigger] s0.players@[i]).game_id
                == s0.games@[gidx].id ==> ring.contains(s0.players@[i].id),
        s1.games@ == s0.games@.update(gidx, s1.games@[gidx]),
        s1.games@[gidx].id == s0.games@[gidx].id,
        s1.games@[gidx].code == s0.games@[gidx].code,
        s1.games@[gidx].host_id == s0.games@[gidx].host_id,
        s1.games@[gidx].winner_id == s0.games@[gidx].winner_id,
        s1.games@[gidx].status == GameStatus::InProgress,
        s1.rings@ == s0.rings@.insert(s0.games@[gidx].id, ring),
        s1.versions@ == s0.versions@,
        s1.next_game_id == s0.next_game_id,
        s1.next_player_id == s0.next_player_id,
    ensures
        s1.wf(),
{
    let gid = s0.games@[gidx].id;
    let games0 = s0.games@;
    let games1 = s1.games@;
    let players0 = s0.players@;
    let players1 = s1.players@;

    assert(s0.games@[gidx].winner_id is None);

    assert(s1.games_wf()) by {
        assert forall|i: int| 0 <= i < games1.len() implies has_player_id(
            players1,
            (#[trigger] games1[i]).id,
            games1[i].host_id,
        ) by {
            assert(games1[i].id == games0[i].id && games1[i].host_id == games0[i].host_id);
            assert(has_player_id(players0, games0[i].id, games0[i].host_id));
            let w = choose|w: int|
                0 <= w < players0.len() && #[trigger] players0[w].id == games0[i].host_id
                    && players0[w].game_id == games0[i].id;
            assert(eq_except_target(players1[w], players0[w]));
        }
        assert forall|i: int|
            0 <= i < games1.len() && (#[trigger] games1[i]).winner_id is Some implies
            has_player_id(players1, games1[i].id, games1[i].winner_id->0) by {
            assert(games1[i].winner_id == games0[i].winner_id);
            assert(has_player_id(players0, games0[i].id, games0[i].winner_id->0));
            let w = choose|w: int|
                0 <= w < players0.len() && #[trigger] players0[w].id == games0[i].winner_id->0
                    && players0[w].game_id == games0[i].id;
            assert(eq_except_target(players1[w], players0[w]));
        }
    }

    assert(s1.players_wf()) by {
        assert forall|i: int| 0 <= i < players1.len() implies has_game_id(
            games1,
            (#[trigger] players1[i]).game_id,
        ) by {
            assert(eq_except_target(players1[i], players0[i]));
            assert(has_game_id(games0, players0[i].game_id));
            let w = choose|w: int|
                0 <= w < games0.len() && #[trigger] games0[w].id == players0[i].game_id;
            assert(games1[w].id == games0[w].id);
        }
        assert forall|i: int, g: int|
            0 <= i < players1.len() && 0 <= g < games1.len() && (#[trigger] players1[i]).game_id
                == (#[trigger] games1[g]).id && games1[g].status == GameStatus::Lobby implies
            players1[i].is_alive && players1[i].target_id is None by {
            assert(g != gidx);
            assert(games1[g] == games0[g]);
            assert(eq_except_target(players1[i], players0[i]));
            assert(players0[i].game_id != gid) by {
                if g < gidx {
                    assert(games0[g].id < games0[gidx].id);
                } else {
                    assert(games0[gidx].id < games0[g].id);
                }
            }
            assert(players1[i] == players0[i]);
        }
    }

    assert(s1.rings_wf()) by {
        assert forall|g: int|
            0 <= g < games1.len() && (#[trigger] games1[g]).status
                == GameStatus::InProgress implies {
            &&& s1.rings@.dom().contains(games1[g].id)
            &&& ring_ok(players1, games1[g].id, s1.rings@[games1[g].id])
            &&& s1.rings@[games1[g].id].len() >= 2
        } by {
            if g == gidx {
                assert(s1.rings@[gid] == ring);
                assert(ring_ok(players1, gid, ring)) by {
                    assert forall|i: int|
                        0 <= i < players1.len() && (#[trigger] players1[i]).game_id == gid
                            && players1[i].is_alive implies ring.contains(players1[i].id) by {
                        assert(eq_except_target(players1[i], players0[i]));
                        assert(ring.contains(players0[i].id));
                    }
                }
            } else {
                assert(games1[g] == games0[g]);
                let g2 = games0[g].id;
                assert(g2 != gid) by {
                    if g < gidx {
                        assert(games0[g].id < games0[gidx].id);
                    } else {
                        assert(games0[gidx].id < games0[g].id);
                    }
                }
                assert(s1.rings@[g2] == s0.rings@[g2]);
                lemma_ring_ok_untouched(players0, players1, g2, s0.rings@[g2]);
            }
        }
    }
}

} // verus!
