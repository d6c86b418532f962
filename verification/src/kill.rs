//! The elimination engine: validate a kill, mark the target dead, splice the
//! target's outgoing edge onto the killer, and detect the end of the game.

use crate::codes::{secret_format_ok, uuid_ok};
use crate::errors::AppError;
use crate::models::{count_alive, has_game_id, has_player_id, lemma_count_alive_update, lemma_count_alive_take_one_more, same_identity, the_player_idx, Game, GameStatus, Player};
use crate::payloads::KillResponsePayload;
use crate::ring::{lemma_member_edge, lemma_ring_len_is_alive_count, lemma_ring_ok_untouched, lemma_splice_ring, ring_edge, ring_next, ring_ok};
use crate::store::{bumped, code_taken, first_member_by_secret, first_member_by_token, lemma_first_member_by_secret_is, lemma_first_member_by_token_is, lemma_the_game_idx_is, member_with_secret, member_with_token, the_game_idx, version_of, Store};
use vstd::prelude::*;

verus! {

/// The validation chain of a kill, in its fixed order: a dead killer, a dead
/// target, players of different games, self-targeting and a wrong current
/// target are forbidden; a game not in progress is a state violation.
pub open spec fn kill_validation(killer: Player, target: Player, status: GameStatus) -> Option<
    AppError,
> {
    if !killer.is_alive {
        Some(AppError::Forbidden)
    } else if !target.is_alive {
        Some(AppError::Forbidden)
    } else if killer.game_id != target.game_id {
        Some(AppError::Forbidden)
    } else if killer.id == target.id {
        Some(AppError::Forbidden)
    } else if status != GameStatus::InProgress {
        Some(AppError::UnprocessableEntity)
    } else if killer.target_id != Some(target.id) {
        Some(AppError::Forbidden)
    } else {
        None
    }
}

impl Store {
    /// Why a kill in game `code`, claimed by the holder of `token` against
    /// the holder of `secret`, is turned away, if it is: a malformed secret
    /// (rejected before any state is looked at), an unknown game code, a
    /// token that names no member, a secret that names no member, or a
    /// failing validation chain.
    pub open spec fn kill_error(self, code: Seq<char>, token: Seq<char>, secret: Seq<char>)
        -> Option<AppError> {
        if !uuid_ok(secret) {
            Some(AppError::UnprocessableEntity)
        } else if !code_taken(self.games@, code) {
            Some(AppError::NotFound)
        } else {
            let g = self.games@[the_game_idx(self.games@, code)];
            if !member_with_token(self.players@, g.id, token) {
                Some(AppError::Unauthorized)
            } else if !member_with_secret(self.players@, g.id, secret) {
                Some(AppError::NotFound)
            } else {
                let killer = self.players@[first_member_by_token(self.players@, g.id, token)];
                let target = self.players@[first_member_by_secret(self.players@, g.id, secret)];
                kill_validation(killer, target, g.status)
            }
        }
    }

    /// Everything a successful kill changes. The target is dead once and for
    /// all; the killer either inherits the target's outgoing edge, or — when
    /// the target was the second-to-last player standing — wins: the game
    /// finishes with the killer as winner and no new target.
    pub open spec fn kill_post(
        self,
        new: Store,
        code: Seq<char>,
        token: Seq<char>,
        secret: Seq<char>,
        resp: KillResponsePayload,
    ) -> bool {
        let g = the_game_idx(self.games@, code);
        let gid = self.games@[g].id;
        let ki = first_member_by_token(self.players@, gid, token);
        let ti = first_member_by_secret(self.players@, gid, secret);
        let killer0 = self.players@[ki];
        let target0 = self.players@[ti];
        &&& new.players@.len() == self.players@.len()
        &&& forall|i: int|
            0 <= i < self.players@.len() && i != ki && i != ti ==> new.players@[i]
                == self.players@[i]
        &&& same_identity(new.players@[ti], target0)
        &&& !new.players@[ti].is_alive
        &&& new.players@[ti].target_id == target0.target_id
        &&& same_identity(new.players@[ki], killer0)
        &&& new.players@[ki].is_alive
        &&& resp.eliminated_player_name == target0.name
        &&& resp.killer_name == killer0.name
        &&& resp.game_over == (resp.new_target_name is None)
        &&& resp.game_over == (count_alive(self.players@, gid) == 2)
        &&& count_alive(new.players@, gid) == count_alive(self.players@, gid) - 1
        &&& if count_alive(self.players@, gid) == 2 {
            // the killer is the last one standing: the game is over
            &&& new.players@[ki].target_id is None
            &&& new.games@ == self.games@.update(g, new.games@[g])
            &&& new.games@[g].id == gid
            &&& new.games@[g].code == self.games@[g].code
            &&& new.games@[g].host_id == self.games@[g].host_id
            &&& new.games@[g].status == GameStatus::Finished
            &&& new.games@[g].winner_id == Some(killer0.id)
        } else {
            // the splice: the killer inherits the target's outgoing edge
            &&& new.players@[ki].target_id == target0.target_id
            &&& new.games@ == self.games@
            &&& resp.new_target_name == Some(
                self.players@[the_player_idx(self.players@, target0.target_id->0)].name,
            )
        }
        &&& new.next_game_id == self.next_game_id
        &&& new.next_player_id == self.next_player_id
        &&& version_of(new.versions@, code) == bumped(version_of(self.versions@, code))
        &&& forall|c: Seq<char>|
            c != code ==> version_of(new.versions@, c) == version_of(self.versions@, c)
    }

    /// The state change of one applied (already validated) kill, over the
    /// player and game lists alone: the target row at `ti` dead, the killer
    /// row at `ki` spliced onto the target's old edge or — when the target
    /// was the second-to-last player standing — cleared, with the game then
    /// finished and won by the killer. `r` names the killer's new target, if
    /// the game goes on.
    pub open spec fn kill_state_change(
        self,
        new_players: Seq<Player>,
        new_games: Seq<Game>,
        gidx: int,
        ki: int,
        ti: int,
        r: Option<String>,
    ) -> bool {
        let gid = self.games@[gidx].id;
        let killer0 = self.players@[ki];
        let target0 = self.players@[ti];
        &&& kill_rows(self.players@, new_players, ki, ti)
        &&& count_alive(new_players, gid) == count_alive(self.players@, gid) - 1
        &&& (r is None <==> count_alive(self.players@, gid) == 2)
        &&& if count_alive(self.players@, gid) == 2 {
            &&& new_players[ki].target_id is None
            &&& new_games == self.games@.update(gidx, new_games[gidx])
            &&& new_games[gidx].id == gid
            &&& new_games[gidx].code == self.games@[gidx].code
            &&& new_games[gidx].host_id == self.games@[gidx].host_id
            &&& new_games[gidx].status == GameStatus::Finished
            &&& new_games[gidx].winner_id == Some(killer0.id)
        } else {
            &&& new_players[ki].target_id == target0.target_id
            &&& new_games == self.games@
            &&& r == Some(self.players@[the_player_idx(self.players@, target0.target_id->0)].name)
        }
    }

    /// The full effect of one applied kill, before the change counter is
    /// bumped: the state change of [`Store::kill_state_change`], with the
    /// counters and change counters untouched.
    pub open spec fn kill_apply_post(
        self,
        new: Store,
        gidx: int,
        ki: int,
        ti: int,
        r: Option<String>,
    ) -> bool {
        &&& self.kill_state_change(new.players@, new.games@, gidx, ki, ti, r)
        &&& new.versions@ == self.versions@
        &&& new.next_game_id == self.next_game_id
        &&& new.next_player_id == self.next_player_id
    }

    /// Apply a validated kill: the killer at row `ki` eliminates the target
    /// at row `ti` of the game at `gidx`. Returns the killer's new target's
    /// name, or `None` when the killer has just won.
    pub(crate) fn apply_kill(&mut self, gidx: usize, ki: usize, ti: usize) -> (r: Option<String>)
        requires
            old(self).wf(),
            gidx < old(self).games@.len(),
            old(self).games@[gidx as int].status == GameStatus::InProgress,
            ki < old(self).players@.len(),
            ti < old(self).players@.len(),
            ki != ti,
            old(self).players@[ki as int].game_id == old(self).games@[gidx as int].id,
            old(self).players@[ti as int].game_id == old(self).games@[gidx as int].id,
            old(self).players@[ki as int].is_alive,
            old(self).players@[ti as int].is_alive,
            old(self).players@[ki as int].target_id == Some(old(self).players@[ti as int].id),
        ensures
            final(self).wf(),
            old(self).kill_apply_post(*final(self), gidx as int, ki as int, ti as int, r),
    {
        let gid = self.games[gidx].id;
        proof {
            assert forall|a: int, b: int|
                0 <= a < b < self.players@.len() implies #[trigger] self.players@[a].id
                != #[trigger] self.players@[b].id by {
                assert(self.players@[a].id < self.players@[b].id);
            }
            lemma_ring_len_is_alive_count(self.players@, gid, self.rings@[gid]);
        }
        let alive_before = self.count_alive_members(gid);
        if alive_before == 2 {
            self.finish_kill(gidx, ki, ti);
            None
        } else {
            Some(self.splice_kill(gidx, ki, ti))
        }
    }

    /// The game-ending half of a kill: with only the killer and the target
    /// alive, the target dies, the killer's assignment is cleared, and the
    /// game finishes with the killer as winner.
    #[verifier::spinoff_prover]
    #[verifier::rlimit(100)]
    fn finish_kill(&mut self, gidx: usize, ki: usize, ti: usize)
        requires
            old(self).wf(),
            gidx < old(self).games@.len(),
            old(self).games@[gidx as int].status == GameStatus::InProgress,
            ki < old(self).players@.len(),
            ti < old(self).players@.len(),
            ki != ti,
            old(self).players@[ki as int].game_id == old(self).games@[gidx as int].id,
            old(self).players@[ti as int].game_id == old(self).games@[gidx as int].id,
            old(self).players@[ki as int].is_alive,
            old(self).players@[ti as int].is_alive,
            old(self).players@[ki as int].target_id == Some(old(self).players@[ti as int].id),
            count_alive(old(self).players@, old(self).games@[gidx as int].id) == 2,
        ensures
            final(self).wf(),
            old(self).kill_apply_post(
                *final(self),
                gidx as int,
                ki as int,
                ti as int,
                None::<String>,
            ),
    {
        let ghost s0 = *self;
        let gid = self.games[gidx].id;
        let mut tdead = self.players[ti].clone();
        tdead.is_alive = false;
        self.players.set(ti, tdead);
        let ghost mid = self.players@;
        let winner_id = self.players[ki].id;
        let mut kwin = self.players[ki].clone();
        kwin.target_id = None;
        self.players.set(ki, kwin);
        let mut gfin = self.games[gidx].clone();
        gfin.status = GameStatus::Finished;
        gfin.winner_id = Some(winner_id);
        self.games.set(gidx, gfin);
        proof {
            lemma_count_alive_update(s0.players@, gid, ti as int, mid[ti as int]);
            lemma_count_alive_update(mid, gid, ki as int, self.players@[ki as int]);
            lemma_kill_finish_preserves_wf(s0, *self, gidx as int, ki as int, ti as int);
        }
    }

    /// The splicing half of a kill: with at least one other player still
    /// alive besides the killer, the target dies and the killer inherits the
    /// target's outgoing edge. Returns the killer's new target's name.
    #[verifier::spinoff_prover]
    #[verifier::rlimit(100)]
    fn splice_kill(&mut self, gidx: usize, ki: usize, ti: usize) -> (name: String)
        requires
            old(self).wf(),
            gidx < old(self).games@.len(),
            old(self).games@[gidx as int].status == GameStatus::InProgress,
            ki < old(self).players@.len(),
            ti < old(self).players@.len(),
            ki != ti,
            old(self).players@[ki as int].game_id == old(self).games@[gidx as int].id,
            old(self).players@[ti as int].game_id == old(self).games@[gidx as int].id,
            old(self).players@[ki as int].is_alive,
            old(self).players@[ti as int].is_alive,
            old(self).players@[ki as int].target_id == Some(old(self).players@[ti as int].id),
            count_alive(old(self).players@, old(self).games@[gidx as int].id) >= 3,
        ensures
            final(self).wf(),
            old(self).kill_apply_post(
                *final(self),
                gidx as int,
                ki as int,
                ti as int,
                Some(name),
            ),
    {
        let ghost s0 = *self;
        let ghost gid = s0.games@[gidx as int].id;
        let nt = self.splice_kill_state(gidx, ki, ti);
        proof {
            assert forall|i: int| 0 <= i < s0.players@.len() implies same_identity(
                #[trigger] self.players@[i],
                s0.players@[i],
            ) by {
                if i != ki && i != ti {
                    assert(self.players@[i] == s0.players@[i]);
                }
            }
        }
        let w = match self.find_player_idx_by_id(nt) {
            Some(w) => w,
            None => {
                proof {
                    assert(has_player_id(s0.players@, gid, nt));
                    let w0 = choose|w0: int|
                        0 <= w0 < s0.players@.len() && #[trigger] s0.players@[w0].id == nt
                            && s0.players@[w0].game_id == gid;
                    assert(same_identity(self.players@[w0], s0.players@[w0]));
                    assert(false);
                }
                0
            },
        };
        let name = self.players[w].name.clone();
        proof {
            // the found row is the one that `the_player_idx` names
            assert(same_identity(self.players@[w as int], s0.players@[w as int]));
            let w0 = the_player_idx(s0.players@, nt);
            assert(0 <= w0 < s0.players@.len() && s0.players@[w0].id == nt) by {
                assert(s0.players@[w as int].id == nt);
            }
            if w0 < w as int {
                assert(s0.players@[w0].id < s0.players@[w as int].id);
            } else if (w as int) < w0 {
                assert(s0.players@[w as int].id < s0.players@[w0].id);
            }
            assert(w0 == w as int);
            assert(name == s0.players@[w0].name);
            assert(count_alive(s0.players@, gid) != 2);
            assert(s0.kill_state_change(
                self.players@,
                self.games@,
                gidx as int,
                ki as int,
                ti as int,
                Some(name),
            ));
        }
        name
    }

    /// The state change of the splicing half: the target dead, the killer
    /// pointing at the target's old target (returned), the shortened ring
    /// recorded, everything else untouched.
    #[verifier::spinoff_prover]
    #[verifier::rlimit(100)]
    fn splice_kill_state(&mut self, gidx: usize, ki: usize, ti: usize) -> (nt: u64)
        requires
            old(self).wf(),
            gidx < old(self).games@.len(),
            old(self).games@[gidx as int].status == GameStatus::InProgress,
            ki < old(self).players@.len(),
            ti < old(self).players@.len(),
            ki != ti,
            old(self).players@[ki as int].game_id == old(self).games@[gidx as int].id,
            old(self).players@[ti as int].game_id == old(self).games@[gidx as int].id,
            old(self).players@[ki as int].is_alive,
            old(self).players@[ti as int].is_alive,
            old(self).players@[ki as int].target_id == Some(old(self).players@[ti as int].id),
            count_alive(old(self).players@, old(self).games@[gidx as int].id) >= 3,
        ensures
            final(self).wf(),
            kill_rows(old(self).players@, final(self).players@, ki as int, ti as int),
            count_alive(final(self).players@, old(self).games@[gidx as int].id) == count_alive(
                old(self).players@,
                old(self).games@[gidx as int].id,
            ) - 1,
            old(self).players@[ti as int].target_id == Some(nt),
            final(self).players@[ki as int].target_id == Some(nt),
            has_player_id(old(self).players@, old(self).games@[gidx as int].id, nt),
            final(self).games@ == old(self).games@,
            final(self).versions@ == old(self).versions@,
            final(self).next_game_id == old(self).next_game_id,
            final(self).next_player_id == old(self).next_player_id,
    {
        let ghost s0 = *self;
        let gid = self.games[gidx].id;
        let ghost ring = s0.rings@[gid];
        proof {
            assert forall|a: int, b: int|
                0 <= a < b < s0.players@.len() implies #[trigger] s0.players@[a].id
                != #[trigger] s0.players@[b].id by {
                assert(s0.players@[a].id < s0.players@[b].id);
            }
            let tk = lemma_member_edge(s0.players@, gid, ring, ti as int);
            lemma_ring_len_is_alive_count(s0.players@, gid, ring);
            // the target's own target is an alive member, hence a known row
            assert(ring.contains(ring_next(ring, tk))) by {
                if tk + 1 < ring.len() {
                    assert(ring[tk + 1] == ring_next(ring, tk));
                } else {
                    assert(ring[0] == ring_next(ring, tk));
                }
            }
            assert(ring_edge(s0.players@, gid, ring_next(ring, tk), ring_next(ring, (
            if tk + 1 < ring.len() {
                tk + 1
            } else {
                0
            }))));
        }
        let nt = match self.players[ti].target_id {
            Some(x) => x,
            None => {
                proof {
                    assert(false);
                }
                0
            },
        };
        let mut tdead = self.players[ti].clone();
        tdead.is_alive = false;
        self.players.set(ti, tdead);
        let ghost mid = self.players@;
        let mut kspl = self.players[ki].clone();
        kspl.target_id = Some(nt);
        self.players.set(ki, kspl);
        let ghost mut new_ring: Seq<u64> = Seq::empty();
        proof {
            lemma_count_alive_update(s0.players@, gid, ti as int, mid[ti as int]);
            lemma_count_alive_update(mid, gid, ki as int, self.players@[ki as int]);
            new_ring = lemma_splice_ring(
                s0.players@,
                self.players@,
                gid,
                ring,
                ki as int,
                ti as int,
                nt,
            );
        }
        self.rings = Ghost(self.rings@.insert(gid, new_ring));
        proof {
            lemma_kill_splice_preserves_wf(s0, *self, gidx as int, ki as int, ti as int, new_ring);
        }
        nt
    }

    /// Eliminate the target named by `target_secret` in the game with code
    /// `game_code`, as the killer holding `killer_token`. Validation order
    /// and the error of each rejected case are fixed by
    /// [`Store::kill_error`]; a rejected kill changes nothing. A valid kill
    /// marks the target dead, splices the target's outgoing edge onto the
    /// killer, and — when only the killer remains alive — finishes the game
    /// with the killer as winner.
    #[verifier::spinoff_prover]
    #[verifier::rlimit(100)]
    pub fn process_kill(
        &mut self,
        game_code: &String,
        killer_token: &String,
        target_secret: &String,
    ) -> (r: Result<KillResponsePayload, AppError>)
        requires
            old(self).wf(),
        ensures
            final(self).wf(),
            r is Err <==> old(self).kill_error(game_code@, killer_token@, target_secret@) is Some,
            r is Err ==> *final(self) == *old(self) && Some(r->Err_0) == old(self).kill_error(
                game_code@,
                killer_token@,
                target_secret@,
            ),
            r is Ok ==> old(self).kill_post(
                *final(self),
                game_code@,
                killer_token@,
                target_secret@,
                r->Ok_0,
            ),
    {
        if !secret_format_ok(target_secret.as_str()) {
            return Err(AppError::UnprocessableEntity);
        }
        let gidx = match self.find_game_idx(game_code) {
            None => {
                return Err(AppError::NotFound);
            },
            Some(x) => x,
        };
        proof {
            lemma_the_game_idx_is(self.games@, game_code@, gidx as int);
        }
        let gid = self.games[gidx].id;
        let ki = match self.find_member_idx_by_token(gid, killer_token) {
            None => {
                return Err(AppError::Unauthorized);
            },
            Some(x) => x,
        };
        proof {
            lemma_first_member_by_token_is(self.players@, gid, killer_token@, ki as int);
        }
        let ti = match self.find_member_idx_by_secret(gid, target_secret) {
            None => {
                return Err(AppError::NotFound);
            },
            Some(x) => x,
        };
        proof {
            lemma_first_member_by_secret_is(self.players@, gid, target_secret@, ti as int);
        }
        let killer = self.players[ki].clone();
        let target = self.players[ti].clone();
        if !killer.is_alive {
            return Err(AppError::Forbidden);
        }
        if !target.is_alive {
            return Err(AppError::Forbidden);
        }
        if killer.game_id != target.game_id {
            return Err(AppError::Forbidden);
        }
        if killer.id == target.id {
            return Err(AppError::Forbidden);
        }
        if !matches!(self.games[gidx].status, GameStatus::InProgress) {
            return Err(AppError::UnprocessableEntity);
        }
        let killer_has_target = match killer.target_id {
            Some(t) => t == target.id,
            None => false,
        };
        if !killer_has_target {
            return Err(AppError::Forbidden);
        }
        let new_target_name = self.apply_kill(gidx, ki, ti);
        self.bump_game_version(game_code);
        let game_over = new_target_name.is_none();
        Ok(
            KillResponsePayload {
                eliminated_player_name: target.name,
                killer_name: killer.name,
                new_target_name,
                game_over,
            },
        )
    }

    /// How many members of game `gid` are alive right now.
    fn count_alive_members(&self, gid: u64) -> (c: usize)
        ensures
            c == count_alive(self.players@, gid),
    {
        let mut c: usize = 0;
        let mut i: usize = 0;
        while i < self.players.len()
            invariant
                i <= self.players@.len(),
                c <= i,
                c == count_alive(self.players@.subrange(0, i as int), gid),
            decreases self.players@.len() - i,
        {
            proof {
                lemma_count_alive_take_one_more(self.players@, gid, i as int);
            }
            if self.players[i].game_id == gid && self.players[i].is_alive {
                c = c + 1;
            }
            i = i + 1;
        }
        proof {
            assert(self.players@.subrange(0, self.players@.len() as int) =~= self.players@);
        }
        c
    }
}

/// The row relation common to both outcomes of a kill: the target dead with
/// its outgoing edge kept, the killer alive, every other row untouched.
pub open spec fn kill_rows(players0: Seq<Player>, players1: Seq<Player>, ki: int, ti: int) -> bool {
    &&& 0 <= ki < players0.len()
    &&& 0 <= ti < players0.len()
    &&& ki != ti
    &&& players1.len() == players0.len()
    &&& forall|i: int|
        0 <= i < players0.len() && i != ki && i != ti ==> #[trigger] players1[i] == players0[i]
    &&& same_identity(players1[ti], players0[ti])
    &&& !players1[ti].is_alive
    &&& players1[ti].target_id == players0[ti].target_id
    &&& same_identity(players1[ki], players0[ki])
    &&& players1[ki].is_alive
}

/// A kill keeps every row's identity, and with it the player half of the
/// store invariant, whatever happened to the game row at `gidx` (as long as
/// it did not fall back to `Lobby`).
proof fn lemma_kill_players_wf(s0: Store, s1: Store, gidx: int, ki: int, ti: int)
    requires
        s0.wf(),
        0 <= gidx < s0.games@.len(),
        kill_rows(s0.players@, s1.players@, ki, ti),
        s0.players@[ki].game_id == s0.games@[gidx].id,
        s0.players@[ti].game_id == s0.games@[gidx].id,
        s1.games@.len() == s0.games@.len(),
        forall|g: int|
            0 <= g < s0.games@.len() ==> (#[trigger] s1.games@[g]).id == s0.games@[g].id,
        forall|g: int|
            0 <= g < s0.games@.len() && g != gidx ==> #[trigger] s1.games@[g] == s0.games@[g],
        s1.games@[gidx].status != GameStatus::Lobby,
        s1.next_player_id == s0.next_player_id,
    ensures
        s1.players_wf(),
        forall|i: int|
            0 <= i < s0.players@.len() ==> same_identity(
                #[trigger] s1.players@[i],
                s0.players@[i],
            ),
{
    let players0 = s0.players@;
    let players1 = s1.players@;
    let gid = s0.games@[gidx].id;
    assert forall|i: int| 0 <= i < players0.len() implies same_identity(
        #[trigger] players1[i],
        players0[i],
    ) by {
        if i != ki && i != ti {
            assert(players1[i] == players0[i]);
        }
    }
    assert(s1.players_wf()) by {
        assert forall|i: int, j: int| 0 <= i < j < players1.len() implies players1[i].id
            < players1[j].id by {
            assert(same_identity(players1[i], players0[i]));
            assert(same_identity(players1[j], players0[j]));
        }
        assert forall|i: int| 0 <= i < players1.len() implies players1[i].id
            < s1.next_player_id by {
            assert(same_identity(players1[i], players0[i]));
        }
        assert forall|i: int| 0 <= i < players1.len() implies has_game_id(
            s1.games@,
            (#[trigger] players1[i]).game_id,
        ) by {
            assert(same_identity(players1[i], players0[i]));
            assert(has_game_id(s0.games@, players0[i].game_id));
            let w = choose|w: int|
                0 <= w < s0.games@.len() && #[trigger] s0.games@[w].id == players0[i].game_id;
            assert(s1.games@[w].id == s0.games@[w].id);
        }
        assert forall|i: int, j: int|
            0 <= i < j < players1.len() && (#[trigger] players1[i]).game_id == (
            #[trigger] players1[j]).game_id implies players1[i].name_key@
            != players1[j].name_key@ by {
            assert(same_identity(players1[i], players0[i]));
            assert(same_identity(players1[j], players0[j]));
        }
        assert forall|i: int, g: int|
            0 <= i < players1.len() && 0 <= g < s1.games@.len() && (#[trigger] players1[i]).game_id
                == (#[trigger] s1.games@[g]).id && s1.games@[g].status
                == GameStatus::Lobby implies players1[i].is_alive && players1[i].target_id
            is None by {
            assert(g != gidx);
            assert(s1.games@[g] == s0.games@[g]);
            assert(same_identity(players1[i], players0[i]));
            assert(players0[i].game_id != gid) by {
                if g < gidx {
                    assert(s0.games@[g].id < s0.games@[gidx].id);
                } else {
                    assert(s0.games@[gidx].id < s0.games@[g].id);
                }
            }
            assert(i != ki && i != ti);
            assert(players1[i] == players0[i]);
        }
    }
}

/// After a game-finishing kill — the target dead, the killer's assignment
/// cleared, the game `Finished` with the killer as winner — the store
/// invariant holds again.
proof fn lemma_kill_finish_preserves_wf(s0: Store, s1: Store, gidx: int, ki: int, ti: int)
    requires
        s0.wf(),
        0 <= gidx < s0.games@.len(),
        s0.games@[gidx].status == GameStatus::InProgress,
        kill_rows(s0.players@, s1.players@, ki, ti),
        s0.players@[ki].game_id == s0.games@[gidx].id,
        s0.players@[ti].game_id == s0.games@[gidx].id,
        s1.games@ == s0.games@.update(gidx, s1.games@[gidx]),
        s1.games@[gidx].id == s0.games@[gidx].id,
        s1.games@[gidx].code == s0.games@[gidx].code,
        s1.games@[gidx].host_id == s0.games@[gidx].host_id,
        s1.games@[gidx].status == GameStatus::Finished,
        s1.games@[gidx].winner_id == Some(s0.players@[ki].id),
        s1.rings@ == s0.rings@,
        s1.versions@ == s0.versions@,
        s1.next_game_id == s0.next_game_id,
        s1.next_player_id == s0.next_player_id,
    ensures
        s1.wf(),
{
    let games0 = s0.games@;
    let games1 = s1.games@;
    let players0 = s0.players@;
    let players1 = s1.players@;
    let gid = games0[gidx].id;
    lemma_kill_players_wf(s0, s1, gidx, ki, ti);
    assert(s1.games_wf()) by {
        assert forall|i: int, j: int| 0 <= i < j < games1.len() implies games1[i].id
            < games1[j].id by {
            assert(games1[i].id == games0[i].id);
            assert(games1[j].id == games0[j].id);
        }
        assert forall|i: int| 0 <= i < games1.len() implies games1[i].id < s1.next_game_id by {
            assert(games1[i].id == games0[i].id);
        }
        assert forall|i: int, j: int| 0 <= i < j < games1.len() implies (
        #[trigger] games1[i]).code@ != (#[trigger] games1[j]).code@ by {
            assert(games1[i].code == games0[i].code);
            assert(games1[j].code == games0[j].code);
        }
        assert forall|i: int| 0 <= i < games1.len() implies ((#[trigger] games1[i]).winner_id
            is Some <==> games1[i].status == GameStatus::Finished) by {
            if i != gidx {
                assert(games1[i] == games0[i]);
            }
        }
        assert forall|i: int|
            0 <= i < games1.len() && (#[trigger] games1[i]).winner_id is Some implies
            has_player_id(players1, games1[i].id, games1[i].winner_id->0) by {
            if i != gidx {
                assert(games1[i] == games0[i]);
                assert(has_player_id(players0, games0[i].id, games0[i].winner_id->0));
                let w = choose|w: int|
                    0 <= w < players0.len() && #[trigger] players0[w].id == games0[i].winner_id->0
                        && players0[w].game_id == games0[i].id;
                assert(same_identity(players1[w], players0[w]));
            } else {
                assert(same_identity(players1[ki], players0[ki]));
                assert(players1[ki].id == games1[gidx].winner_id->0);
                assert(players1[ki].game_id == games1[gidx].id);
            }
        }
        assert forall|i: int| 0 <= i < games1.len() implies has_player_id(
            players1,
            (#[trigger] games1[i]).id,
            games1[i].host_id,
        ) by {
            assert(games1[i].id == games0[i].id);
            assert(games1[i].host_id == games0[i].host_id) by {
                if i != gidx {
                    assert(games1[i] == games0[i]);
                }
            }
            assert(has_player_id(players0, games0[i].id, games0[i].host_id));
            let w = choose|w: int|
                0 <= w < players0.len() && #[trigger] players0[w].id == games0[i].host_id
                    && players0[w].game_id == games0[i].id;
            assert(same_identity(players1[w], players0[w]));
        }
    }
    assert(s1.rings_wf()) by {
        assert forall|g: int|
            0 <= g < games1.len() && (#[trigger] games1[g]).status
                == GameStatus::InProgress implies {
            &&& s1.rings@.dom().contains(games1[g].id)
            &&& ring_ok(players1, games1[g].id, s1.rings@[games1[g].id])
            &&& s1.rings@[games1[g].id].len() >= 2
        } by {
            assert(g != gidx);
            assert(games1[g] == games0[g]);
            let g2 = games0[g].id;
            assert(g2 != gid) by {
                if g < gidx {
                    assert(games0[g].id < games0[gidx].id);
                } else {
                    assert(games0[gidx].id < games0[g].id);
                }
            }
            assert forall|i: int| 0 <= i < players0.len() implies ((#[trigger] players1[i]).game_id
                == g2 <==> (#[trigger] players0[i]).game_id == g2) by {
                assert(same_identity(players1[i], players0[i]));
            }
            assert forall|i: int|
                0 <= i < players0.len() && (#[trigger] players0[i]).game_id == g2 implies
                players1[i] == players0[i] by {
                assert(i != ki && i != ti);
            }
            lemma_ring_ok_untouched(players0, players1, g2, s0.rings@[g2]);
        }
    }
}

/// After a spliced kill — the target dead, the killer pointing at the
/// target's old target, the ring shortened by one — the store invariant
/// holds again.
proof fn lemma_kill_splice_preserves_wf(
    s0: Store,
    s1: Store,
    gidx: int,
    ki: int,
    ti: int,
    new_ring: Seq<u64>,
)
    requires
        s0.wf(),
        0 <= gidx < s0.games@.len(),
        s0.games@[gidx].status == GameStatus::InProgress,
        kill_rows(s0.players@, s1.players@, ki, ti),
        s0.players@[ki].game_id == s0.games@[gidx].id,
        s0.players@[ti].game_id == s0.games@[gidx].id,
        s1.games@ == s0.games@,
        s1.rings@ == s0.rings@.insert(s0.games@[gidx].id, new_ring),
        ring_ok(s1.players@, s0.games@[gidx].id, new_ring),
        new_ring.len() >= 2,
        s1.versions@ == s0.versions@,
        s1.next_game_id == s0.next_game_id,
        s1.next_player_id == s0.next_player_id,
    ensures
        s1.wf(),
{
    let games0 = s0.games@;
    let players0 = s0.players@;
    let players1 = s1.players@;
    let gid = games0[gidx].id;
    lemma_kill_players_wf(s0, s1, gidx, ki, ti);
    assert(s1.games_wf()) by {
        assert forall|i: int|
            0 <= i < games0.len() && (#[trigger] games0[i]).winner_id is Some implies
            has_player_id(players1, games0[i].id, games0[i].winner_id->0) by {
            assert(has_player_id(players0, games0[i].id, games0[i].winner_id->0));
            let w = choose|w: int|
                0 <= w < players0.len() && #[trigger] players0[w].id == games0[i].winner_id->0
                    && players0[w].game_id == games0[i].id;
            assert(same_identity(players1[w], players0[w]));
        }
        assert forall|i: int| 0 <= i < games0.len() implies has_player_id(
            players1,
            (#[trigger] games0[i]).id,
            games0[i].host_id,
        ) by {
            assert(has_player_id(players0, games0[i].id, games0[i].host_id));
            let w = choose|w: int|
                0 <= w < players0.len() && #[trigger] players0[w].id == games0[i].host_id
                    && players0[w].game_id == games0[i].id;
            assert(same_identity(players1[w], players0[w]));
        }
    }
    assert(s1.rings_wf()) by {
        assert forall|g: int|
            0 <= g < games0.len() && (#[trigger] games0[g]).status
                == GameStatus::InProgress implies {
            &&& s1.rings@.dom().contains(games0[g].id)
            &&& ring_ok(players1, games0[g].id, s1.rings@[games0[g].id])
            &&& s1.rings@[games0[g].id].len() >= 2
        } by {
            if g == gidx {
                assert(s1.rings@[gid] == new_ring);
            } else {
                let g2 = games0[g].id;
                assert(g2 != gid) by {
                    if g < gidx {
                        assert(games0[g].id < games0[gidx].id);
                    } else {
                        assert(games0[gidx].id < games0[g].id);
                    }
                }
                assert(s1.rings@[g2] == s0.rings@[g2]);
                assert forall|i: int| 0 <= i < players0.len() implies ((
                #[trigger] players1[i]).game_id == g2 <==> (#[trigger] players0[i]).game_id
                    == g2) by {
                    assert(same_identity(players1[i], players0[i]));
                }
                assert forall|i: int|
                    0 <= i < players0.len() && (#[trigger] players0[i]).game_id == g2 implies
                    players1[i] == players0[i] by {
                    assert(i != ki && i != ti);
                }
                lemma_ring_ok_untouched(players0, players1, g2, s0.rings@[g2]);
            }
        }
    }
}

} // verus!
