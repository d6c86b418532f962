//! Lobby management: opening a game and its lobby, and admitting, rejecting
//! or reconnecting joining players.

use crate::codes::{generate_game_code, is_game_code, new_auth_token, new_secret_code, uuid_ok, GAME_CODE_LEN};
use crate::errors::AppError;
use crate::models::{fold_name, has_game_id, has_player_id, lemma_has_game_id_push, lemma_has_player_id_push, lower_of, players_of, Game, GameStatus, Player};
use crate::payloads::{GameCreatedPayload, GameJoinedPayload};
use crate::ring::lemma_ring_ok_push;
use crate::store::{bumped, code_taken, lemma_the_game_idx_is, lemma_the_member_idx_is, member_with_key, the_game_idx, the_member_idx, version_of, Store};
use vstd::prelude::*;

verus! {

/// How often a fresh game code is drawn before game creation reports the
/// collision as a store failure instead of blocking; no operation may block
/// indefinitely.
pub const MAX_CODE_ATTEMPTS: usize = 64;

impl Store {
    /// Everything a game creation changes, given the fresh game's code and
    /// the creator's name: one new game in its lobby, one new player hosting
    /// it, both counters advanced, and the game's change counter bumped.
    pub open spec fn create_post(
        self,
        new: Store,
        game_code: Seq<char>,
        player_name: Seq<char>,
        p: GameCreatedPayload,
    ) -> bool {
        let g = new.games@.last();
        let np = new.players@.last();
        &&& new.games@ == self.games@.push(g)
        &&& new.players@ == self.players@.push(np)
        &&& g.id == self.next_game_id
        &&& g.code@ == game_code
        &&& g.status == GameStatus::Lobby
        &&& g.host_id == np.id
        &&& g.winner_id is None
        &&& np.id == self.next_player_id
        &&& np.game_id == g.id
        &&& np.name@ == player_name
        &&& np.name_key@ == lower_of(player_name)
        &&& np.is_alive
        &&& np.target_id is None
        &&& np.secret_code@.len() == 36
        &&& uuid_ok(np.secret_code@)
        &&& np.auth_token@.len() == 36
        &&& p.game_code@ == game_code
        &&& p.player_id == np.id
        &&& p.player_secret@ == np.secret_code@
        &&& p.auth_token@ == np.auth_token@
        &&& p.game == g
        &&& p.players@.len() == 1
        &&& p.players@[0] == np
        &&& new.next_game_id == self.next_game_id + 1
        &&& new.next_player_id == self.next_player_id + 1
        &&& version_of(new.versions@, game_code) == bumped(version_of(self.versions@, game_code))
        &&& forall|c: Seq<char>|
            c != game_code ==> version_of(new.versions@, c) == version_of(self.versions@, c)
        &&& new.rings@ == self.rings@
    }

    /// Create a game under the given code, with its first player (the
    /// creator) as host. Fails only when the code is already taken or the
    /// store has exhausted its identifiers; both are store failures, as a
    /// caller cannot provoke them with well-chosen input.
    pub fn create_game_with_code(&mut self, player_name: String, game_code: String) -> (r: Result<
        GameCreatedPayload,
        AppError,
    >)
        requires
            old(self).wf(),
        ensures
            final(self).wf(),
            r is Err <==> (code_taken(old(self).games@, game_code@) || old(self).next_game_id
                == u64::MAX || old(self).next_player_id == u64::MAX),
            r is Err ==> *final(self) == *old(self) && r->Err_0 == AppError::InternalServerError,
            r is Ok ==> old(self).create_post(*final(self), game_code@, player_name@, r->Ok_0),
    {
        match self.find_game_idx(&game_code) {
            Some(g) => {
                proof {
                    assert(code_taken(self.games@, game_code@)) by {
                        assert(self.games@[g as int].code@ == game_code@);
                    }
                }
                return Err(AppError::InternalServerError);
            },
            None => {},
        }
        if self.next_game_id == u64::MAX || self.next_player_id == u64::MAX {
            return Err(AppError::InternalServerError);
        }
        let ghost s0 = *self;
        let gid = self.next_game_id;
        let pid = self.next_player_id;
        let secret = new_secret_code();
        let token = new_auth_token();
        let name_key = fold_name(player_name.as_str());
        let game = Game {
            id: gid,
            code: game_code.clone(),
            status: GameStatus::Lobby,
            host_id: pid,
            winner_id: None,
        };
        let player = Player {
            id: pid,
            game_id: gid,
            name: player_name.clone(),
            name_key,
            secret_code: secret.clone(),
            auth_token: token.clone(),
            is_alive: true,
            target_id: None,
        };
        let ghost g = game;
        let ghost np = player;
        self.games.push(game.clone());
        self.players.push(player.clone());
        self.next_game_id = gid + 1;
        self.next_player_id = pid + 1;
        proof {
            lemma_create_preserves_wf(s0, *self, g, np);
        }
        self.bump_game_version(&game_code);
        let players = vec![player];
        Ok(
            GameCreatedPayload {
                game_code,
                player_id: pid,
                player_secret: secret,
                auth_token: token,
                players,
                game,
            },
        )
    }

    /// Why a join of game `code` under the name `name` is turned away, if it
    /// is: an unknown code, a game past its lobby phase, a name whose holder
    /// was already eliminated, or (only ever after a reconnection was ruled
    /// out) an exhausted player counter.
    pub open spec fn join_error(self, code: Seq<char>, name: Seq<char>) -> Option<AppError> {
        if !code_taken(self.games@, code) {
            Some(AppError::NotFound)
        } else {
            let g = the_game_idx(self.games@, code);
            let gid = self.games@[g].id;
            if self.games@[g].status != GameStatus::Lobby {
                Some(AppError::UnprocessableEntity)
            } else if member_with_key(self.players@, gid, lower_of(name)) {
                if self.players@[the_member_idx(self.players@, gid, lower_of(name))].is_alive {
                    None
                } else {
                    Some(AppError::Forbidden)
                }
            } else if self.next_player_id == u64::MAX {
                Some(AppError::InternalServerError)
            } else {
                None
            }
        }
    }

    /// A join that succeeds by recognising `name` as an alive member of the
    /// lobby: a reconnection, which changes no game state and hands back the
    /// member's existing identity and credentials.
    pub open spec fn join_is_reconnect(self, code: Seq<char>, name: Seq<char>) -> bool {
        &&& code_taken(self.games@, code)
        &&& self.games@[the_game_idx(self.games@, code)].status == GameStatus::Lobby
        &&& member_with_key(
            self.players@,
            self.games@[the_game_idx(self.games@, code)].id,
            lower_of(name),
        )
    }

    /// Join the lobby of the game with code `game_code` under `player_name`,
    /// or reconnect as that player if the (case-insensitively) same name is
    /// already present and alive. The validation order and the error of each
    /// rejected case are fixed by [`Store::join_error`].
    pub fn join_game(&mut self, game_code: String, player_name: String) -> (r: Result<
        GameJoinedPayload,
        AppError,
    >)
        requires
            old(self).wf(),
        ensures
            final(self).wf(),
            r is Err <==> old(self).join_error(game_code@, player_name@) is Some,
            r is Err ==> *final(self) == *old(self) && Some(r->Err_0) == old(self).join_error(
                game_code@,
                player_name@,
            ),
            r is Ok ==> ({
                let p = r->Ok_0;
                let g = the_game_idx(old(self).games@, game_code@);
                let gid = old(self).games@[g].id;
                &&& final(self).games@ == old(self).games@
                &&& final(self).next_game_id == old(self).next_game_id
                &&& final(self).rings@ == old(self).rings@
                &&& p.game_code@ == game_code@
                &&& p.game == old(self).games@[g]
                &&& p.players@ == players_of(final(self).players@, gid)
                &&& version_of(final(self).versions@, game_code@) == bumped(
                    version_of(old(self).versions@, game_code@),
                )
                &&& forall|c: Seq<char>|
                    c != game_code@ ==> version_of(final(self).versions@, c) == version_of(
                        old(self).versions@,
                        c,
                    )
                &&& if old(self).join_is_reconnect(game_code@, player_name@) {
                    let j = the_member_idx(old(self).players@, gid, lower_of(player_name@));
                    &&& final(self).players@ == old(self).players@
                    &&& final(self).next_player_id == old(self).next_player_id
                    &&& p.player_id == old(self).players@[j].id
                    &&& p.player_secret@ == old(self).players@[j].secret_code@
                    &&& p.auth_token@ == old(self).players@[j].auth_token@
                } else {
                    let np = final(self).players@.last();
                    &&& final(self).players@ == old(self).players@.push(np)
                    &&& final(self).next_player_id == old(self).next_player_id + 1
                    &&& np.id == old(self).next_player_id
                    &&& np.game_id == gid
                    &&& np.name@ == player_name@
                    &&& np.name_key@ == lower_of(player_name@)
                    &&& np.is_alive
                    &&& np.target_id is None
                    &&& np.secret_code@.len() == 36
                    &&& uuid_ok(np.secret_code@)
                    &&& np.auth_token@.len() == 36
                    &&& p.player_id == np.id
                    &&& p.player_secret@ == np.secret_code@
                    &&& p.auth_token@ == np.auth_token@
                }
            }),
    {
        let gidx = match self.find_game_idx(&game_code) {
            None => {
                return Err(AppError::NotFound);
            },
            Some(x) => x,
        };
        proof {
            lemma_the_game_idx_is(self.games@, game_code@, gidx as int);
        }
        let game = self.games[gidx].clone();
        if !matches!(game.status, GameStatus::Lobby) {
            return Err(AppError::UnprocessableEntity);
        }
        let key = fold_name(player_name.as_str());
        match self.find_member_idx_by_key(game.id, &key) {
            Some(j) => {
                proof {
                    lemma_the_member_idx_is(
                        self.players@,
                        game.id,
                        lower_of(player_name@),
                        j as int,
                    );
                }
                if self.players[j].is_alive {
                    // reconnection: hand back the existing identity unchanged
                    let member = self.players[j].clone();
                    self.bump_game_version(&game_code);
                    let players = self.get_players_by_game_id(game.id);
                    Ok(
                        GameJoinedPayload {
                            game_code,
                            player_id: member.id,
                            player_secret: member.secret_code,
                            auth_token: member.auth_token,
                            players,
                            game,
                        },
                    )
                } else {
                    Err(AppError::Forbidden)
                }
            },
            None => {
                if self.next_player_id == u64::MAX {
                    return Err(AppError::InternalServerError);
                }
                let ghost s0 = *self;
                let pid = self.next_player_id;
                let secret = new_secret_code();
                let token = new_auth_token();
                let player = Player {
                    id: pid,
                    game_id: game.id,
                    name: player_name,
                    name_key: key,
                    secret_code: secret.clone(),
                    auth_token: token.clone(),
                    is_alive: true,
                    target_id: None,
                };
                let ghost np = player;
                self.players.push(player.clone());
                self.next_player_id = pid + 1;
                proof {
                    lemma_join_preserves_wf(s0, *self, gidx as int, np);
                }
                self.bump_game_version(&game_code);
                let players = self.get_players_by_game_id(game.id);
                Ok(
                    GameJoinedPayload {
                        game_code,
                        player_id: pid,
                        player_secret: secret,
                        auth_token: token,
                        players,
                        game,
                    },
                )
            },
        }
    }

    /// No stored game wears a code that a fresh draw could produce. This
    /// holds in particular of an empty store, and on any store satisfying
    /// it a creation cannot collide and so cannot fail.
    pub open spec fn no_game_shaped_code(self) -> bool {
        forall|g: int|
            0 <= g < self.games@.len() ==> !is_game_code(
                (#[trigger] self.games@[g]).code@,
                GAME_CODE_LEN as int,
            )
    }

    /// Create a game under a freshly drawn code: the operation a new host
    /// invokes. Codes are drawn until one misses every existing game; a
    /// bounded number of draws keeps the operation from blocking, and
    /// running out of draws is reported as a store failure. Where no stored
    /// code could collide with a draw (a fresh store above all) and the
    /// identifier counters are not exhausted, success is owed: the very
    /// first draw is accepted.
    pub fn create_game(&mut self, player_name: String) -> (r: Result<GameCreatedPayload, AppError>)
        requires
            old(self).wf(),
        ensures
            final(self).wf(),
            r is Err ==> *final(self) == *old(self) && r->Err_0 == AppError::InternalServerError,
            r is Ok ==> ({
                let p = r->Ok_0;
                &&& is_game_code(p.game_code@, GAME_CODE_LEN as int)
                &&& !code_taken(old(self).games@, p.game_code@)
                &&& old(self).create_post(*final(self), p.game_code@, player_name@, p)
            }),
            old(self).no_game_shaped_code() && old(self).next_game_id < u64::MAX && old(
                self,
            ).next_player_id < u64::MAX ==> r is Ok,
    {
        let mut attempts: usize = 0;
        while attempts < MAX_CODE_ATTEMPTS
            invariant
                *self == *old(self),
                old(self).wf(),
                attempts > 0 ==> !old(self).no_game_shaped_code(),
            decreases MAX_CODE_ATTEMPTS - attempts,
        {
            let game_code = generate_game_code(GAME_CODE_LEN);
            let found = self.find_game_idx(&game_code);
            if found.is_none() {
                proof {
                    assert(!code_taken(self.games@, game_code@));
                }
                return self.create_game_with_code(player_name.clone(), game_code);
            }
            proof {
                // a collision witnesses a stored game-shaped code
                let gci = found->Some_0 as int;
                assert(self.games@[gci].code@ == game_code@);
                assert(is_game_code(self.games@[gci].code@, GAME_CODE_LEN as int));
            }
            attempts = attempts + 1;
        }
        Err(AppError::InternalServerError)
    }
}

/// After pushing one player into a lobby game under a folded name nobody in
/// that game holds, and advancing the player counter, the store invariant
/// holds again.
proof fn lemma_join_preserves_wf(s0: Store, s1: Store, gidx: int, np: Player)
    requires
        s0.wf(),
        0 <= gidx < s0.games@.len(),
        s0.games@[gidx].status == GameStatus::Lobby,
        np.game_id == s0.games@[gidx].id,
        np.id == s0.next_player_id,
        s0.next_player_id < u64::MAX,
        np.is_alive,
        np.target_id is None,
        !member_with_key(s0.players@, np.game_id, np.name_key@),
        s1.games@ == s0.games@,
        s1.players@ == s0.players@.push(np),
        s1.versions@ == s0.versions@,
        s1.rings@ == s0.rings@,
        s1.next_game_id == s0.next_game_id,
        s1.next_player_id == s0.next_player_id + 1,
    ensures
        s1.wf(),
{
    let games0 = s0.games@;
    let players0 = s0.players@;
    let players1 = s1.players@;
    let plen = players0.len() as int;

    assert(s1.games_wf()) by {
        assert forall|i: int| 0 <= i < games0.len() implies has_player_id(
            s1.players@,
            (#[trigger] games0[i]).id,
            games0[i].host_id,
        ) by {
            lemma_has_player_id_push(players0, np, games0[i].id, games0[i].host_id);
        }
        assert forall|i: int|
            0 <= i < games0.len() && (#[trigger] games0[i]).winner_id is Some implies
            has_player_id(s1.players@, games0[i].id, games0[i].winner_id->0) by {
            lemma_has_player_id_push(players0, np, games0[i].id, games0[i].winner_id->0);
        }
    }

    assert(s1.players_wf()) by {
        assert forall|i: int| 0 <= i < players1.len() implies has_game_id(
            s1.games@,
            (#[trigger] players1[i]).game_id,
        ) by {
            if i < plen {
                assert(players1[i] == players0[i]);
            } else {
                assert(players1[i] == np);
                assert(games0[gidx].id == np.game_id);
            }
        }
        assert forall|i: int, j: int|
            0 <= i < j < players1.len() && (#[trigger] players1[i]).game_id == (
            #[trigger] players1[j]).game_id implies players1[i].name_key@
            != players1[j].name_key@ by {
            if j < plen {
                assert(players1[i] == players0[i]);
                assert(players1[j] == players0[j]);
            } else {
                assert(players1[i] == players0[i]);
                assert(players1[j] == np);
            }
        }
    }

    assert(s1.rings_wf()) by {
        assert forall|k: int|
            0 <= k < games0.len() && (#[trigger] games0[k]).status
                == GameStatus::InProgress implies {
            &&& s1.rings@.dom().contains(games0[k].id)
            &&& crate::ring::ring_ok(s1.players@, games0[k].id, s1.rings@[games0[k].id])
            &&& s1.rings@[games0[k].id].len() >= 2
        } by {
            assert(k != gidx);
            assert(np.game_id != games0[k].id) by {
                if k < gidx {
                    assert(games0[k].id < games0[gidx].id);
                } else {
                    assert(games0[gidx].id < games0[k].id);
                }
            }
            lemma_ring_ok_push(players0, games0[k].id, s0.rings@[games0[k].id], np);
        }
    }
}

/// After pushing one fresh game and its host player and advancing both
/// counters, the store invariant holds again.
proof fn lemma_create_preserves_wf(s0: Store, s1: Store, g: Game, np: Player)
    requires
        s0.wf(),
        s0.next_game_id < u64::MAX,
        s0.next_player_id < u64::MAX,
        !code_taken(s0.games@, g.code@),
        s1.games@ == s0.games@.push(g),
        s1.players@ == s0.players@.push(np),
        s1.versions@ == s0.versions@,
        s1.rings@ == s0.rings@,
        s1.next_game_id == s0.next_game_id + 1,
        s1.next_player_id == s0.next_player_id + 1,
        g.id == s0.next_game_id,
        g.status == GameStatus::Lobby,
        g.winner_id is None,
        g.host_id == np.id,
        np.id == s0.next_player_id,
        np.game_id == g.id,
        np.is_alive,
        np.target_id is None,
    ensures
        s1.wf(),
{
    let games0 = s0.games@;
    let games1 = s1.games@;
    let players0 = s0.players@;
    let players1 = s1.players@;
    let glen = games0.len() as int;
    let plen = players0.len() as int;

    // every game an existing player belongs to has an id below the new one
    assert forall|i: int| 0 <= i < plen implies (#[trigger] players0[i]).game_id != g.id by {
        assert(has_game_id(games0, players0[i].game_id));
        let k = choose|k: int| 0 <= k < games0.len() && #[trigger] games0[k].id
            == players0[i].game_id;
        assert(games0[k].id < s0.next_game_id);
    }

    assert(s1.games_wf()) by {
        assert forall|i: int| 0 <= i < games1.len() implies has_player_id(
            s1.players@,
            (#[trigger] games1[i]).id,
            games1[i].host_id,
        ) by {
            if i < glen {
                assert(games1[i] == games0[i]);
                lemma_has_player_id_push(players0, np, games0[i].id, games0[i].host_id);
            } else {
                assert(games1[i] == g);
                assert(players1[plen] == np);
            }
        }
        assert forall|i: int|
            0 <= i < games1.len() && (#[trigger] games1[i]).winner_id is Some implies
            has_player_id(s1.players@, games1[i].id, games1[i].winner_id->0) by {
            assert(i < glen);
            assert(games1[i] == games0[i]);
            lemma_has_player_id_push(players0, np, games0[i].id, games0[i].winner_id->0);
        }
    }

    assert(s1.players_wf()) by {
        assert forall|i: int| 0 <= i < players1.len() implies has_game_id(
            s1.games@,
            (#[trigger] players1[i]).game_id,
        ) by {
            if i < plen {
                assert(players1[i] == players0[i]);
                lemma_has_game_id_push(games0, g, players0[i].game_id);
            } else {
                assert(players1[i] == np);
                assert(games1[glen] == g);
            }
        }
    }

    assert(s1.rings_wf()) by {
        assert forall|k: int|
            0 <= k < games1.len() && (#[trigger] games1[k]).status
                == GameStatus::InProgress implies {
            &&& s1.rings@.dom().contains(games1[k].id)
            &&& crate::ring::ring_ok(s1.players@, games1[k].id, s1.rings@[games1[k].id])
            &&& s1.rings@[games1[k].id].len() >= 2
        } by {
            assert(k < glen);
            assert(games1[k] == games0[k]);
            assert(np.game_id != games0[k].id) by {
                assert(games0[k].id < s0.next_game_id);
            }
            lemma_ring_ok_push(players0, games0[k].id, s0.rings@[games0[k].id], np);
        }
    }
}

} // verus!
