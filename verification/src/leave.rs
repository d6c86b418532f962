//! Departures. A player leaving a lobby is simply removed (with host
//! handoff, or the game's deletion when the lobby empties); a player leaving
//! a running game is eliminated in place, with the ring spliced exactly as
//! for a kill so that no one is left hunting a player who is gone.

use crate::errors::AppError;
use crate::models::{has_game_id, has_player_id, lemma_has_game_id_remove, lemma_has_player_id_remove, players_of, same_identity, GameStatus, Player};
use crate::ring::{lemma_member_edge, lemma_ring_ok_remove_row, lemma_ring_ok_untouched, ring_edge, ring_next, ring_ok};
use crate::store::{bumped, code_taken, first_member_by_token, lemma_first_member_by_token_is, lemma_the_game_idx_is, member_with_token, the_game_idx, version_of, Store};
use vstd::prelude::*;

verus! {

/// `i` is the first row holding the alive member of game `gid` whose
/// current target is the player with id `lid`: the predecessor on the ring.
pub open spec fn is_first_pred(players: Seq<Player>, gid: u64, lid: u64, i: int) -> bool {
    &&& 0 <= i < players.len()
    &&& players[i].game_id == gid
    &&& players[i].is_alive
    &&& players[i].target_id == Some(lid)
    &&& forall|k: int|
        0 <= k < i ==> !((#[trigger] players[k]).game_id == gid && players[k].is_alive
            && players[k].target_id == Some(lid))
}

/// The first row holding the alive member of game `gid` that targets the
/// player with id `lid`; meaningful where such a member exists.
pub open spec fn first_pred(players: Seq<Player>, gid: u64, lid: u64) -> int {
    choose|i: int| is_first_pred(players, gid, lid, i)
}

/// Any index seen to be the first predecessor is `first_pred`.
pub proof fn lemma_first_pred_is(players: Seq<Player>, gid: u64, lid: u64, i: int)
    requires
        is_first_pred(players, gid, lid, i),
    ensures
        first_pred(players, gid, lid) == i,
{
    let t = first_pred(players, gid, lid);
    assert(is_first_pred(players, gid, lid, t));
    if t < i {
        assert(!(players[t].game_id == gid && players[t].is_alive && players[t].target_id == Some(
            lid,
        )));
    } else if i < t {
        assert(!(players[i].game_id == gid && players[i].is_alive && players[i].target_id == Some(
            lid,
        )));
    }
}

impl Store {
    /// Why a departure from game `code` by the holder of `token` is turned
    /// away, if it is: an unknown code, or a token that names no member of
    /// that game.
    pub open spec fn leave_error(self, code: Seq<char>, token: Seq<char>) -> Option<AppError> {
        if !code_taken(self.games@, code) {
            Some(AppError::NotFound)
        } else if !member_with_token(
            self.players@,
            self.games@[the_game_idx(self.games@, code)].id,
            token,
        ) {
            Some(AppError::Unauthorized)
        } else {
            None
        }
    }

    /// Everything a departure changes. In the lobby the leaver's row is
    /// removed: the game is deleted when its lobby empties, and the host
    /// role passes to the longest-present remaining member when the host
    /// left. In a running game the leaver is eliminated in place, with the
    /// ring spliced exactly as for a kill. After the game nothing remains to
    /// repair: the leaver is only marked dead. Either way the game's change
    /// counter is bumped.
    pub open spec fn leave_post(self, new: Store, code: Seq<char>, token: Seq<char>) -> bool {
        let g = the_game_idx(self.games@, code);
        let gid = self.games@[g].id;
        let li = first_member_by_token(self.players@, gid, token);
        let leaver = self.players@[li];
        &&& version_of(new.versions@, code) == bumped(version_of(self.versions@, code))
        &&& forall|c: Seq<char>|
            c != code ==> version_of(new.versions@, c) == version_of(self.versions@, c)
        &&& new.next_game_id == self.next_game_id
        &&& new.next_player_id == self.next_player_id
        &&& if self.games@[g].status == GameStatus::Lobby {
            &&& new.players@ == self.players@.remove(li)
            &&& if players_of(new.players@, gid).len() == 0 {
                new.games@ == self.games@.remove(g)
            } else if leaver.id == self.games@[g].host_id {
                &&& new.games@ == self.games@.update(g, new.games@[g])
                &&& new.games@[g].id == gid
                &&& new.games@[g].code == self.games@[g].code
                &&& new.games@[g].status == self.games@[g].status
                &&& new.games@[g].winner_id == self.games@[g].winner_id
                &&& new.games@[g].host_id == players_of(new.players@, gid)[0].id
            } else {
                new.games@ == self.games@
            }
        } else if !leaver.is_alive {
            &&& new.players@ == self.players@
            &&& new.games@ == self.games@
        } else if self.games@[g].status == GameStatus::InProgress {
            exists|rr: Option<String>|
                self.kill_state_change(
                    new.players@,
                    new.games@,
                    g,
                    first_pred(self.players@, gid, leaver.id),
                    li,
                    rr,
                )
        } else {
            &&& new.games@ == self.games@
            &&& new.players@ == self.players@.update(li, new.players@[li])
            &&& same_identity(new.players@[li], leaver)
            &&& !new.players@[li].is_alive
            &&& new.players@[li].target_id == leaver.target_id
        }
    }

    /// The first alive member of game `gid` whose current target is the
    /// player with id `lid`.
    fn find_pred_idx(&self, gid: u64, lid: u64) -> (r: Option<usize>)
        ensures
            match r {
                Some(i) => is_first_pred(self.players@, gid, lid, i as int),
                None => forall|k: int|
                    0 <= k < self.players@.len() ==> !((#[trigger] self.players@[k]).game_id == gid
                        && self.players@[k].is_alive && self.players@[k].target_id == Some(lid)),
            },
    {
        let mut i: usize = 0;
        while i < self.players.len()
            invariant
                i <= self.players@.len(),
                forall|k: int|
                    0 <= k < i ==> !((#[trigger] self.players@[k]).game_id == gid
                        && self.players@[k].is_alive && self.players@[k].target_id == Some(lid)),
            decreases self.players@.len() - i,
        {
            let is_match = if self.players[i].game_id == gid && self.players[i].is_alive {
                match self.players[i].target_id {
                    Some(t) => t == lid,
                    None => false,
                }
            } else {
                false
            };
            if is_match {
                return Some(i);
            }
            i = i + 1;
        }
        None
    }

    /// Leave the game with code `game_code`, identified by `auth_token`.
    /// The errors of the rejected cases are fixed by [`Store::leave_error`];
    /// what a departure changes in each phase is fixed by
    /// [`Store::leave_post`].
    #[verifier::spinoff_prover]
    #[verifier::rlimit(100)]
    pub fn leave_game(&mut self, game_code: &String, auth_token: &String) -> (r: Result<
        (),
        AppError,
    >)
        requires
            old(self).wf(),
        ensures
            final(self).wf(),
            r is Err <==> old(self).leave_error(game_code@, auth_token@) is Some,
            r is Err ==> *final(self) == *old(self) && Some(r->Err_0) == old(self).leave_error(
                game_code@,
                auth_token@,
            ),
            r is Ok ==> old(self).leave_post(*final(self), game_code@, auth_token@),
    {
        let gidx = match self.find_game_idx(game_code) {
            None => {
                return Err(AppError::NotFound);
            },
            Some(x) => x,
        };
        proof {
            lemma_the_game_idx_is(self.games@, game_code@, gidx as int);
        }
        let gid = self.games[gidx].id;
        let li = match self.find_member_idx_by_token(gid, auth_token) {
            None => {
                return Err(AppError::Unauthorized);
            },
            Some(x) => x,
        };
        proof {
            lemma_first_member_by_token_is(self.players@, gid, auth_token@, li as int);
        }
        if matches!(self.games[gidx].status, GameStatus::Lobby) {
            let ghost s0 = *self;
            let leaver_id = self.players[li].id;
            let was_host = self.games[gidx].host_id == leaver_id;
            self.players.remove(li);
            let remaining = self.get_players_by_game_id(gid);
            if remaining.len() == 0 {
                self.games.remove(gidx);
                proof {
                    lemma_leave_empty_wf(s0, *self, gidx as int, li as int);
                }
            } else if was_host {
                let new_host = remaining[0].id;
                let mut handed = self.games[gidx].clone();
                handed.host_id = new_host;
                self.games.set(gidx, handed);
                proof {
                    lemma_leave_handoff_wf(s0, *self, gidx as int, li as int);
                }
            } else {
                proof {
                    lemma_leave_plain_wf(s0, *self, gidx as int, li as int);
                }
            }
            self.bump_game_version(game_code);
            Ok(())
        } else if !self.players[li].is_alive {
            // a member already out of the game: nothing to repair
            self.bump_game_version(game_code);
            Ok(())
        } else if matches!(self.games[gidx].status, GameStatus::InProgress) {
            // eliminate the leaver in place: its predecessor on the ring
            // inherits its outgoing edge, exactly as in a kill
            let leaver_id = self.players[li].id;
            let ghost ring = self.rings@[gid];
            proof {
                assert forall|a: int, b: int|
                    0 <= a < b < self.players@.len() implies #[trigger] self.players@[a].id
                    != #[trigger] self.players@[b].id by {
                    assert(self.players@[a].id < self.players@[b].id);
                }
                let m = lemma_member_edge(self.players@, gid, ring, li as int);
                let mp: int = if m == 0 {
                    ring.len() - 1
                } else {
                    m - 1
                };
                assert(ring_next(ring, mp) == ring[m]);
                assert(ring_edge(self.players@, gid, ring[mp], ring_next(ring, mp)));
            }
            let pi = match self.find_pred_idx(gid, leaver_id) {
                Some(p) => p,
                None => {
                    proof {
                        assert(false);
                    }
                    return Err(AppError::InternalServerError);
                },
            };
            proof {
                lemma_first_pred_is(self.players@, gid, leaver_id, pi as int);
                // the predecessor is not the leaver: a two-member ring has
                // no self-edges, and neither has any larger one
                if pi == li {
                    let m = lemma_member_edge(self.players@, gid, ring, li as int);
                    if m + 1 < ring.len() {
                        assert(ring[m + 1] == ring[m]);
                    } else {
                        assert(ring[0] == ring[m]);
                    }
                    assert(false);
                }
            }
            let ghost s0 = *self;
            let spliced = self.apply_kill(gidx, pi, li);
            self.bump_game_version(game_code);
            proof {
                assert(s0.kill_state_change(
                    self.players@,
                    self.games@,
                    gidx as int,
                    pi as int,
                    li as int,
                    spliced,
                ));
            }
            Ok(())
        } else {
            // the game is over; just record that the leaver is gone
            let ghost s0 = *self;
            let mut dead = self.players[li].clone();
            dead.is_alive = false;
            self.players.set(li, dead);
            proof {
                lemma_leave_finished_wf(s0, *self, gidx as int, li as int);
            }
            self.bump_game_version(game_code);
            Ok(())
        }
    }
}

/// A leaver's row disappearing from a lobby, with the host role untouched,
/// keeps the store invariant.
#[verifier::spinoff_prover]
#[verifier::rlimit(100)]
proof fn lemma_leave_plain_wf(s0: Store, s1: Store, gidx: int, li: int)
    requires
        s0.wf(),
        0 <= gidx < s0.games@.len(),
        s0.games@[gidx].status == GameStatus::Lobby,
        0 <= li < s0.players@.len(),
        s0.players@[li].game_id == s0.games@[gidx].id,
        s0.games@[gidx].host_id != s0.players@[li].id,
        s1.players@ == s0.players@.remove(li),
        s1.games@ == s0.games@,
        s1.rings@ == s0.rings@,
        s1.versions@ == s0.versions@,
        s1.next_game_id == s0.next_game_id,
        s1.next_player_id == s0.next_player_id,
    ensures
        s1.wf(),
{
    let games0 = s0.games@;
    let players0 = s0.players@;
    let players1 = s1.players@;
    let gid = games0[gidx].id;
    lemma_leave_removal_games_members(s0, players1, gidx, li);
    lemma_leave_removal_players_wf_parts(s0, players1, li);
    assert(s1.players_wf()) by {
        assert forall|j: int| 0 <= j < players1.len() implies has_game_id(
            s1.games@,
            (#[trigger] players1[j]).game_id,
        ) by {
            if j < li {
                assert(players1[j] == players0[j]);
            } else {
                assert(players1[j] == players0[j + 1]);
            }
        }
    }
    assert(s1.rings_wf()) by {
        assert forall|g: int|
            0 <= g < games0.len() && (#[trigger] games0[g]).status
                == GameStatus::InProgress implies {
            &&& s1.rings@.dom().contains(games0[g].id)
            &&& ring_ok(players1, games0[g].id, s1.rings@[games0[g].id])
            &&& s1.rings@[games0[g].id].len() >= 2
        } by {
            assert(g != gidx);
            assert(games0[g].id != gid) by {
                if g < gidx {
                    assert(games0[g].id < games0[gidx].id);
                } else {
                    assert(games0[gidx].id < games0[g].id);
                }
            }
            lemma_ring_ok_remove_row(players0, li, games0[g].id, s0.rings@[games0[g].id]);
        }
    }
}

/// A host's row disappearing from a lobby, with the host role passed to the
/// first remaining member, keeps the store invariant.
#[verifier::spinoff_prover]
#[verifier::rlimit(100)]
proof fn lemma_leave_handoff_wf(s0: Store, s1: Store, gidx: int, li: int)
    requires
        s0.wf(),
        0 <= gidx < s0.games@.len(),
        s0.games@[gidx].status == GameStatus::Lobby,
        0 <= li < s0.players@.len(),
        s0.players@[li].game_id == s0.games@[gidx].id,
        s1.players@ == s0.players@.remove(li),
        players_of(s1.players@, s0.games@[gidx].id).len() > 0,
        s1.games@ == s0.games@.update(gidx, s1.games@[gidx]),
        s1.games@[gidx].id == s0.games@[gidx].id,
        s1.games@[gidx].code == s0.games@[gidx].code,
        s1.games@[gidx].status == s0.games@[gidx].status,
        s1.games@[gidx].winner_id == s0.games@[gidx].winner_id,
        s1.games@[gidx].host_id == players_of(s1.players@, s0.games@[gidx].id)[0].id,
        s1.rings@ == s0.rings@,
        s1.versions@ == s0.versions@,
        s1.next_game_id == s0.next_game_id,
        s1.next_player_id == s0.next_player_id,
    ensures
        s1.wf(),
{
    broadcast use vstd::seq_lib::group_filter_ensures;

    let games0 = s0.games@;
    let games1 = s1.games@;
    let players0 = s0.players@;
    let players1 = s1.players@;
    let gid = games0[gidx].id;
    lemma_leave_removal_players_wf_parts(s0, players1, li);
    assert(s1.games_wf()) by {
        assert forall|i: int, j: int| 0 <= i < j < games1.len() implies games1[i].id
            < games1[j].id by {
            assert(games1[i].id == games0[i].id);
            assert(games1[j].id == games0[j].id);
        }
        assert forall|i: int| 0 <= i < games1.len() implies games1[i].id < s1.next_game_id by {
            assert(games1[i].id == games0[i].id);
        }
        assert forall|i: int, j: int| 0 <= i < j < games1.len() implies (
        #[trigger] games1[i]).code@ != (#[trigger] games1[j]).code@ by {
            assert(games1[i].code == games0[i].code);
            assert(games1[j].code == games0[j].code);
        }
        assert forall|i: int| 0 <= i < games1.len() implies ((#[trigger] games1[i]).winner_id
            is Some <==> games1[i].status == GameStatus::Finished) by {
            if i != gidx {
                assert(games1[i] == games0[i]);
            }
        }
        assert forall|i: int|
            0 <= i < games1.len() && (#[trigger] games1[i]).winner_id is Some implies
            has_player_id(players1, games1[i].id, games1[i].winner_id->0) by {
            assert(i != gidx);
            assert(games1[i] == games0[i]);
            lemma_leave_member_survives(s0, gidx, li, i);
        }
        assert forall|i: int| 0 <= i < games1.len() implies has_player_id(
            players1,
            (#[trigger] games1[i]).id,
            games1[i].host_id,
        ) by {
            if i != gidx {
                assert(games1[i] == games0[i]);
                lemma_leave_member_survives(s0, gidx, li, i);
            } else {
                let roster = players_of(players1, gid);
                assert(roster.len() > 0);
                crate::models::lemma_players_of_member(players1, gid, 0);
                let w = choose|w: int|
                    0 <= w < players1.len() && #[trigger] players1[w] == roster[0];
                assert(has_player_id(players1, gid, roster[0].id)) by {
                    assert(players1[w].id == roster[0].id && players1[w].game_id == gid);
                }
            }
        }
    }
    assert(s1.players_wf()) by {
        assert forall|j: int| 0 <= j < players1.len() implies has_game_id(
            games1,
            (#[trigger] players1[j]).game_id,
        ) by {
            let oj: int = if j < li {
                j
            } else {
                j + 1
            };
            assert(players1[j] == players0[oj]);
            assert(has_game_id(games0, players0[oj].game_id));
            let w = choose|w: int|
                0 <= w < games0.len() && #[trigger] games0[w].id == players0[oj].game_id;
            assert(games1[w].id == games0[w].id);
        }
        assert forall|j: int, g: int|
            0 <= j < players1.len() && 0 <= g < games1.len() && (#[trigger] players1[j]).game_id
                == (#[trigger] games1[g]).id && games1[g].status == GameStatus::Lobby implies
            players1[j].is_alive && players1[j].target_id is None by {
            let oj: int = if j < li {
                j
            } else {
                j + 1
            };
            assert(players1[j] == players0[oj]);
            assert(games1[g].id == games0[g].id);
            assert(games1[g].status == games0[g].status) by {
                if g != gidx {
                    assert(games1[g] == games0[g]);
                }
            }
        }
    }
    assert(s1.rings_wf()) by {
        assert forall|g: int|
            0 <= g < games1.len() && (#[trigger] games1[g]).status
                == GameStatus::InProgress implies {
            &&& s1.rings@.dom().contains(games1[g].id)
            &&& ring_ok(players1, games1[g].id, s1.rings@[games1[g].id])
            &&& s1.rings@[games1[g].id].len() >= 2
        } by {
            assert(g != gidx);
            assert(games1[g] == games0[g]);
            assert(games0[g].id != gid) by {
                if g < gidx {
                    assert(games0[g].id < games0[gidx].id);
                } else {
                    assert(games0[gidx].id < games0[g].id);
                }
            }
            lemma_ring_ok_remove_row(players0, li, games0[g].id, s0.rings@[games0[g].id]);
        }
    }
}

/// The last lobby member leaving takes the game row with it; the store
/// invariant survives both removals.
#[verifier::spinoff_prover]
#[verifier::rlimit(100)]
proof fn lemma_leave_empty_wf(s0: Store, s1: Store, gidx: int, li: int)
    requires
        s0.wf(),
        0 <= gidx < s0.games@.len(),
        s0.games@[gidx].status == GameStatus::Lobby,
        0 <= li < s0.players@.len(),
        s0.players@[li].game_id == s0.games@[gidx].id,
        s1.players@ == s0.players@.remove(li),
        players_of(s1.players@, s0.games@[gidx].id).len() == 0,
        s1.games@ == s0.games@.remove(gidx),
        s1.rings@ == s0.rings@,
        s1.versions@ == s0.versions@,
        s1.next_game_id == s0.next_game_id,
        s1.next_player_id == s0.next_player_id,
    ensures
        s1.wf(),
{
    broadcast use vstd::seq_lib::group_filter_ensures;

    let games0 = s0.games@;
    let games1 = s1.games@;
    let players0 = s0.players@;
    let players1 = s1.players@;
    let gid = games0[gidx].id;
    lemma_leave_removal_players_wf_parts(s0, players1, li);
    assert(s1.games_wf()) by {
        assert forall|i: int, j: int| 0 <= i < j < games1.len() implies games1[i].id
            < games1[j].id by {
            let oi: int = if i < gidx {
                i
            } else {
                i + 1
            };
            let oj: int = if j < gidx {
                j
            } else {
                j + 1
            };
            assert(games1[i] == games0[oi]);
            assert(games1[j] == games0[oj]);
        }
        assert forall|i: int| 0 <= i < games1.len() implies games1[i].id < s1.next_game_id by {
            let oi: int = if i < gidx {
                i
            } else {
                i + 1
            };
            assert(games1[i] == games0[oi]);
        }
        assert forall|i: int, j: int| 0 <= i < j < games1.len() implies (
        #[trigger] games1[i]).code@ != (#[trigger] games1[j]).code@ by {
            let oi: int = if i < gidx {
                i
            } else {
                i + 1
            };
            let oj: int = if j < gidx {
                j
            } else {
                j + 1
            };
            assert(games1[i] == games0[oi]);
            assert(games1[j] == games0[oj]);
        }
        assert forall|i: int| 0 <= i < games1.len() implies ((#[trigger] games1[i]).winner_id
            is Some <==> games1[i].status == GameStatus::Finished) by {
            let oi: int = if i < gidx {
                i
            } else {
                i + 1
            };
            assert(games1[i] == games0[oi]);
        }
        assert forall|i: int|
            0 <= i < games1.len() && (#[trigger] games1[i]).winner_id is Some implies
            has_player_id(players1, games1[i].id, games1[i].winner_id->0) by {
            let oi: int = if i < gidx {
                i
            } else {
                i + 1
            };
            assert(games1[i] == games0[oi]);
            lemma_leave_member_survives(s0, gidx, li, oi);
        }
        assert forall|i: int| 0 <= i < games1.len() implies has_player_id(
            players1,
            (#[trigger] games1[i]).id,
            games1[i].host_id,
        ) by {
            let oi: int = if i < gidx {
                i
            } else {
                i + 1
            };
            assert(games1[i] == games0[oi]);
            lemma_leave_member_survives(s0, gidx, li, oi);
        }
    }
    assert(s1.players_wf()) by {
        assert forall|j: int| 0 <= j < players1.len() implies has_game_id(
            games1,
            (#[trigger] players1[j]).game_id,
        ) by {
            let oj: int = if j < li {
                j
            } else {
                j + 1
            };
            assert(players1[j] == players0[oj]);
            assert(players1[j].game_id != gid) by {
                if players1[j].game_id == gid {
                    assert(players_of(players1, gid).contains(players1[j]));
                }
            }
            lemma_has_game_id_remove(games0, gidx, players0[oj].game_id);
        }
        assert forall|j: int, g: int|
            0 <= j < players1.len() && 0 <= g < games1.len() && (#[trigger] players1[j]).game_id
                == (#[trigger] games1[g]).id && games1[g].status == GameStatus::Lobby implies
            players1[j].is_alive && players1[j].target_id is None by {
            let oj: int = if j < li {
                j
            } else {
                j + 1
            };
            let og: int = if g < gidx {
                g
            } else {
                g + 1
            };
            assert(players1[j] == players0[oj]);
            assert(games1[g] == games0[og]);
        }
    }
    assert(s1.rings_wf()) by {
        assert forall|g: int|
            0 <= g < games1.len() && (#[trigger] games1[g]).status
                == GameStatus::InProgress implies {
            &&& s1.rings@.dom().contains(games1[g].id)
            &&& ring_ok(players1, games1[g].id, s1.rings@[games1[g].id])
            &&& s1.rings@[games1[g].id].len() >= 2
        } by {
            let og: int = if g < gidx {
                g
            } else {
                g + 1
            };
            assert(games1[g] == games0[og]);
            assert(og != gidx);
            assert(games0[og].id != gid) by {
                if og < gidx {
                    assert(games0[og].id < games0[gidx].id);
                } else {
                    assert(games0[gidx].id < games0[og].id);
                }
            }
            lemma_ring_ok_remove_row(players0, li, games0[og].id, s0.rings@[games0[og].id]);
        }
    }
}

/// Marking one member of a finished game dead keeps the store invariant.
#[verifier::spinoff_prover]
#[verifier::rlimit(100)]
proof fn lemma_leave_finished_wf(s0: Store, s1: Store, gidx: int, li: int)
    requires
        s0.wf(),
        0 <= gidx < s0.games@.len(),
        s0.games@[gidx].status == GameStatus::Finished,
        0 <= li < s0.players@.len(),
        s0.players@[li].game_id == s0.games@[gidx].id,
        s1.players@ == s0.players@.update(li, s1.players@[li]),
        same_identity(s1.players@[li], s0.players@[li]),
        !s1.players@[li].is_alive,
        s1.players@[li].target_id == s0.players@[li].target_id,
        s1.games@ == s0.games@,
        s1.rings@ == s0.rings@,
        s1.versions@ == s0.versions@,
        s1.next_game_id == s0.next_game_id,
        s1.next_player_id == s0.next_player_id,
    ensures
        s1.wf(),
{
    let games0 = s0.games@;
    let players0 = s0.players@;
    let players1 = s1.players@;
    let gid = games0[gidx].id;
    assert forall|i: int| 0 <= i < players0.len() implies same_identity(
        #[trigger] players1[i],
        players0[i],
    ) by {
        if i != li {
            assert(players1[i] == players0[i]);
        }
    }
    assert(s1.games_wf()) by {
        assert forall|i: int|
            0 <= i < games0.len() && (#[trigger] games0[i]).winner_id is Some implies
            has_player_id(players1, games0[i].id, games0[i].winner_id->0) by {
            assert(has_player_id(players0, games0[i].id, games0[i].winner_id->0));
            let w = choose|w: int|
                0 <= w < players0.len() && #[trigger] players0[w].id == games0[i].winner_id->0
                    && players0[w].game_id == games0[i].id;
            assert(same_identity(players1[w], players0[w]));
        }
        assert forall|i: int| 0 <= i < games0.len() implies has_player_id(
            players1,
            (#[trigger] games0[i]).id,
            games0[i].host_id,
        ) by {
            assert(has_player_id(players0, games0[i].id, games0[i].host_id));
            let w = choose|w: int|
                0 <= w < players0.len() && #[trigger] players0[w].id == games0[i].host_id
                    && players0[w].game_id == games0[i].id;
            assert(same_identity(players1[w], players0[w]));
        }
    }
    assert(s1.players_wf()) by {
        assert forall|i: int, j: int| 0 <= i < j < players1.len() implies players1[i].id
            < players1[j].id by {
            assert(same_identity(players1[i], players0[i]));
            assert(same_identity(players1[j], players0[j]));
        }
        assert forall|i: int| 0 <= i < players1.len() implies players1[i].id
            < s1.next_player_id by {
            assert(same_identity(players1[i], players0[i]));
        }
        assert forall|i: int| 0 <= i < players1.len() implies has_game_id(
            s1.games@,
            (#[trigger] players1[i]).game_id,
        ) by {
            assert(same_identity(players1[i], players0[i]));
        }
        assert forall|i: int, j: int|
            0 <= i < j < players1.len() && (#[trigger] players1[i]).game_id == (
            #[trigger] players1[j]).game_id implies players1[i].name_key@
            != players1[j].name_key@ by {
            assert(same_identity(players1[i], players0[i]));
            assert(same_identity(players1[j], players0[j]));
        }
        assert forall|i: int, g: int|
            0 <= i < players1.len() && 0 <= g < games0.len() && (#[trigger] players1[i]).game_id
                == (#[trigger] games0[g]).id && games0[g].status == GameStatus::Lobby implies
            players1[i].is_alive && players1[i].target_id is None by {
            assert(g != gidx);
            assert(same_identity(players1[i], players0[i]));
            assert(players0[i].game_id != gid) by {
                if g < gidx {
                    assert(games0[g].id < games0[gidx].id);
                } else {
                    assert(games0[gidx].id < games0[g].id);
                }
            }
            assert(i != li);
            assert(players1[i] == players0[i]);
        }
    }
    assert(s1.rings_wf()) by {
        assert forall|g: int|
            0 <= g < games0.len() && (#[trigger] games0[g]).status
                == GameStatus::InProgress implies {
            &&& s1.rings@.dom().contains(games0[g].id)
            &&& ring_ok(players1, games0[g].id, s1.rings@[games0[g].id])
            &&& s1.rings@[games0[g].id].len() >= 2
        } by {
            assert(g != gidx);
            let g2 = games0[g].id;
            assert(g2 != gid) by {
                if g < gidx {
                    assert(games0[g].id < games0[gidx].id);
                } else {
                    assert(games0[gidx].id < games0[g].id);
                }
            }
            assert forall|i: int| 0 <= i < players0.len() implies ((#[trigger] players1[i]).game_id
                == g2 <==> (#[trigger] players0[i]).game_id == g2) by {
                assert(same_identity(players1[i], players0[i]));
            }
            assert forall|i: int|
                0 <= i < players0.len() && (#[trigger] players0[i]).game_id == g2 implies
                players1[i] == players0[i] by {
                assert(i != li);
            }
            lemma_ring_ok_untouched(players0, players1, g2, s0.rings@[g2]);
        }
    }
}

/// Any member of any game other than the lobby at `gidx` keeps its row —
/// and with it the game its host or winner points at — when the row at `li`
/// (a member of that lobby) is removed.
proof fn lemma_leave_member_survives(s0: Store, gidx: int, li: int, i: int)
    requires
        s0.wf(),
        0 <= gidx < s0.games@.len(),
        0 <= li < s0.players@.len(),
        s0.players@[li].game_id == s0.games@[gidx].id,
        0 <= i < s0.games@.len(),
        i != gidx,
    ensures
        s0.games@[i].winner_id is Some ==> has_player_id(
            s0.players@.remove(li),
            s0.games@[i].id,
            s0.games@[i].winner_id->0,
        ),
        has_player_id(s0.players@.remove(li), s0.games@[i].id, s0.games@[i].host_id),
{
    let games0 = s0.games@;
    let players0 = s0.players@;
    assert(games0[i].id != games0[gidx].id) by {
        if i < gidx {
            assert(games0[i].id < games0[gidx].id);
        } else {
            assert(games0[gidx].id < games0[i].id);
        }
    }
    if games0[i].winner_id is Some {
        assert(has_player_id(players0, games0[i].id, games0[i].winner_id->0));
        let w = choose|w: int|
            0 <= w < players0.len() && #[trigger] players0[w].id == games0[i].winner_id->0
                && players0[w].game_id == games0[i].id;
        assert(w != li);
        assert(players0[li].id != games0[i].winner_id->0) by {
            if w < li {
                assert(players0[w].id < players0[li].id);
            } else {
                assert(players0[li].id < players0[w].id);
            }
        }
        lemma_has_player_id_remove(players0, li, games0[i].id, games0[i].winner_id->0);
    }
    assert(has_player_id(players0, games0[i].id, games0[i].host_id));
    let w = choose|w: int|
        0 <= w < players0.len() && #[trigger] players0[w].id == games0[i].host_id
            && players0[w].game_id == games0[i].id;
    assert(w != li);
    assert(players0[li].id != games0[i].host_id) by {
        if w < li {
            assert(players0[w].id < players0[li].id);
        } else {
            assert(players0[li].id < players0[w].id);
        }
    }
    lemma_has_player_id_remove(players0, li, games0[i].id, games0[i].host_id);
}

/// Removing one row keeps player identities ordered, bounded and distinctly
/// named per game, and keeps lobby members alive and unassigned — the parts
/// of the player invariant that do not mention the game list.
proof fn lemma_leave_removal_players_wf_parts(s0: Store, players1: Seq<Player>, li: int)
    requires
        s0.wf(),
        0 <= li < s0.players@.len(),
        players1 == s0.players@.remove(li),
    ensures
        forall|i: int, j: int|
            0 <= i < j < players1.len() ==> #[trigger] players1[i].id < #[trigger] players1[j].id,
        forall|i: int| 0 <= i < players1.len() ==> #[trigger] players1[i].id < s0.next_player_id,
        forall|i: int, j: int|
            0 <= i < j < players1.len() && (#[trigger] players1[i]).game_id == (
            #[trigger] players1[j]).game_id ==> players1[i].name_key@ != players1[j].name_key@,
        forall|i: int, g: int|
            0 <= i < players1.len() && 0 <= g < s0.games@.len() && (#[trigger] players1[i]).game_id
                == (#[trigger] s0.games@[g]).id && s0.games@[g].status == GameStatus::Lobby
                ==> players1[i].is_alive && players1[i].target_id is None,
{
    let players0 = s0.players@;
    assert forall|i: int, j: int| 0 <= i < j < players1.len() implies #[trigger] players1[i].id
        < #[trigger] players1[j].id by {
        let oi: int = if i < li {
            i
        } else {
            i + 1
        };
        let oj: int = if j < li {
            j
        } else {
            j + 1
        };
        assert(players1[i] == players0[oi]);
        assert(players1[j] == players0[oj]);
    }
    assert forall|i: int| 0 <= i < players1.len() implies #[trigger] players1[i].id
        < s0.next_player_id by {
        let oi: int = if i < li {
            i
        } else {
            i + 1
        };
        assert(players1[i] == players0[oi]);
    }
    assert forall|i: int, j: int|
        0 <= i < j < players1.len() && (#[trigger] players1[i]).game_id == (
        #[trigger] players1[j]).game_id implies players1[i].name_key@
        != players1[j].name_key@ by {
        let oi: int = if i < li {
            i
        } else {
            i + 1
        };
        let oj: int = if j < li {
            j
        } else {
            j + 1
        };
        assert(players1[i] == players0[oi]);
        assert(players1[j] == players0[oj]);
    }
    assert forall|i: int, g: int|
        0 <= i < players1.len() && 0 <= g < s0.games@.len() && (#[trigger] players1[i]).game_id
            == (#[trigger] s0.games@[g]).id && s0.games@[g].status == GameStatus::Lobby implies
        players1[i].is_alive && players1[i].target_id is None by {
        let oi: int = if i < li {
            i
        } else {
            i + 1
        };
        assert(players1[i] == players0[oi]);
    }
}

/// With the games list unchanged, every player that survives the removal
/// still belongs to a listed game.
proof fn lemma_leave_removal_games_members(s0: Store, players1: Seq<Player>, gidx: int, li: int)
    requires
        s0.wf(),
        0 <= gidx < s0.games@.len(),
        s0.games@[gidx].status == GameStatus::Lobby,
        0 <= li < s0.players@.len(),
        s0.players@[li].game_id == s0.games@[gidx].id,
        s0.games@[gidx].host_id != s0.players@[li].id,
        players1 == s0.players@.remove(li),
    ensures
        forall|i: int|
            0 <= i < s0.games@.len() && (#[trigger] s0.games@[i]).winner_id is Some
                ==> has_player_id(players1, s0.games@[i].id, s0.games@[i].winner_id->0),
        forall|i: int|
            0 <= i < s0.games@.len() ==> has_player_id(
                players1,
                (#[trigger] s0.games@[i]).id,
                s0.games@[i].host_id,
            ),
{
    let games0 = s0.games@;
    let players0 = s0.players@;
    assert forall|i: int|
        0 <= i < games0.len() && (#[trigger] games0[i]).winner_id is Some implies has_player_id(
        players1,
        games0[i].id,
        games0[i].winner_id->0,
    ) by {
        if i != gidx {
            lemma_leave_member_survives(s0, gidx, li, i);
        } else {
            // a lobby game has no winner
            assert(games0[gidx].winner_id is None);
        }
    }
    assert forall|i: int| 0 <= i < games0.len() implies has_player_id(
        players1,
        (#[trigger] games0[i]).id,
        games0[i].host_id,
    ) by {
        if i != gidx {
            lemma_leave_member_survives(s0, gidx, li, i);
        } else {
            assert(has_player_id(players0, games0[gidx].id, games0[gidx].host_id));
            let w = choose|w: int|
                0 <= w < players0.len() && #[trigger] players0[w].id == games0[gidx].host_id
                    && players0[w].game_id == games0[gidx].id;
            assert(w != li);
            assert(players0[li].id != games0[gidx].host_id) by {
                if w < li {
                    assert(players0[w].id < players0[li].id);
                } else {
                    assert(players0[li].id < players0[w].id);
                }
            }
            lemma_has_player_id_remove(players0, li, games0[gidx].id, games0[gidx].host_id);
        }
    }
}

} // verus!
