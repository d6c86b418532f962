//! The authoritative game state and every operation of the game lifecycle:
//! lobby formation, ring assignment, kill processing, departures, and the
//! per-game change counters that transport layers poll.

use crate::errors::AppError;
use crate::models::{has_game_id, has_player_id, Game, GameInfo, GameStatus, Player};
use crate::ring::ring_ok;
use vstd::prelude::*;

verus! {

/// The monotonically increasing change counter of one game code.
#[derive(Debug)]
pub struct VersionEntry {
    pub code: String,
    pub value: u64,
}

/// Some game carries the code `code`.
pub open spec fn code_taken(games: Seq<Game>, code: Seq<char>) -> bool {
    exists|g: int| 0 <= g < games.len() && (#[trigger] games[g]).code@ == code
}

/// The index of the game carrying `code`; meaningful under `code_taken`,
/// where game codes being unique makes it the only one.
pub open spec fn the_game_idx(games: Seq<Game>, code: Seq<char>) -> int {
    choose|g: int| 0 <= g < games.len() && (#[trigger] games[g]).code@ == code
}

/// Some player of the game `gid` has the folded name `key`.
pub open spec fn member_with_key(players: Seq<Player>, gid: u64, key: Seq<char>) -> bool {
    exists|i: int|
        0 <= i < players.len() && (#[trigger] players[i]).game_id == gid && players[i].name_key@
            == key
}

/// The index of the player of game `gid` with folded name `key`; meaningful
/// under `member_with_key`, where folded names being unique within a game
/// makes it the only one.
pub open spec fn the_member_idx(players: Seq<Player>, gid: u64, key: Seq<char>) -> int {
    choose|i: int|
        0 <= i < players.len() && (#[trigger] players[i]).game_id == gid && players[i].name_key@
            == key
}

/// Some player of the game `gid` holds the session token `token`.
pub open spec fn member_with_token(players: Seq<Player>, gid: u64, token: Seq<char>) -> bool {
    exists|i: int|
        0 <= i < players.len() && (#[trigger] players[i]).game_id == gid && players[i].auth_token@
            == token
}

/// `i` is the first index holding a player of game `gid` with session token
/// `token`.
pub open spec fn is_first_member_by_token(
    players: Seq<Player>,
    gid: u64,
    token: Seq<char>,
    i: int,
) -> bool {
    &&& 0 <= i < players.len()
    &&& players[i].game_id == gid
    &&& players[i].auth_token@ == token
    &&& forall|k: int|
        0 <= k < i ==> !((#[trigger] players[k]).game_id == gid && players[k].auth_token@ == token)
}

/// The first index holding a player of game `gid` with session token
/// `token`; meaningful under `member_with_token`.
pub open spec fn first_member_by_token(players: Seq<Player>, gid: u64, token: Seq<char>) -> int {
    choose|i: int| is_first_member_by_token(players, gid, token, i)
}

/// Any index seen to be the first holder of `token` within game `gid` is
/// `first_member_by_token`.
pub proof fn lemma_first_member_by_token_is(
    players: Seq<Player>,
    gid: u64,
    token: Seq<char>,
    i: int,
)
    requires
        is_first_member_by_token(players, gid, token, i),
    ensures
        member_with_token(players, gid, token),
        first_member_by_token(players, gid, token) == i,
{
    assert(member_with_token(players, gid, token)) by {
        assert(players[i].game_id == gid && players[i].auth_token@ == token);
    }
    let t = first_member_by_token(players, gid, token);
    assert(is_first_member_by_token(players, gid, token, t));
    if t < i {
        assert(!(players[t].game_id == gid && players[t].auth_token@ == token));
    } else if i < t {
        assert(!(players[i].game_id == gid && players[i].auth_token@ == token));
    }
}

/// Any index seen to be the first holder of `secret` within game `gid` is
/// `first_member_by_secret`.
pub proof fn lemma_first_member_by_secret_is(
    players: Seq<Player>,
    gid: u64,
    secret: Seq<char>,
    i: int,
)
    requires
        is_first_member_by_secret(players, gid, secret, i),
    ensures
        member_with_secret(players, gid, secret),
        first_member_by_secret(players, gid, secret) == i,
{
    assert(member_with_secret(players, gid, secret)) by {
        assert(players[i].game_id == gid && players[i].secret_code@ == secret);
    }
    let t = first_member_by_secret(players, gid, secret);
    assert(is_first_member_by_secret(players, gid, secret, t));
    if t < i {
        assert(!(players[t].game_id == gid && players[t].secret_code@ == secret));
    } else if i < t {
        assert(!(players[i].game_id == gid && players[i].secret_code@ == secret));
    }
}

/// Some player, of any game, holds the session token `token`.
pub open spec fn holder_with_token(players: Seq<Player>, token: Seq<char>) -> bool {
    exists|i: int| 0 <= i < players.len() && (#[trigger] players[i]).auth_token@ == token
}

/// `i` is the first index holding `token`, over all games.
pub open spec fn is_first_holder(players: Seq<Player>, token: Seq<char>, i: int) -> bool {
    &&& 0 <= i < players.len()
    &&& players[i].auth_token@ == token
    &&& forall|k: int| 0 <= k < i ==> (#[trigger] players[k]).auth_token@ != token
}

/// The first index holding `token` over all games; meaningful under
/// `holder_with_token`.
pub open spec fn first_holder_idx(players: Seq<Player>, token: Seq<char>) -> int {
    choose|i: int| is_first_holder(players, token, i)
}

/// Any index seen to be the first holder of `token` is `first_holder_idx`.
pub proof fn lemma_first_holder_idx_is(players: Seq<Player>, token: Seq<char>, i: int)
    requires
        is_first_holder(players, token, i),
    ensures
        holder_with_token(players, token),
        first_holder_idx(players, token) == i,
{
    assert(holder_with_token(players, token)) by {
        assert(players[i].auth_token@ == token);
    }
    let t = first_holder_idx(players, token);
    assert(is_first_holder(players, token, t));
    if t < i {
        assert(players[t].auth_token@ != token);
    } else if i < t {
        assert(players[i].auth_token@ != token);
    }
}

/// Some player of the game `gid` carries the secret code `secret`.
pub open spec fn member_with_secret(players: Seq<Player>, gid: u64, secret: Seq<char>) -> bool {
    exists|i: int|
        0 <= i < players.len() && (#[trigger] players[i]).game_id == gid && players[i].secret_code@
            == secret
}

/// `i` is the first index holding a player of game `gid` with secret code
/// `secret`.
pub open spec fn is_first_member_by_secret(
    players: Seq<Player>,
    gid: u64,
    secret: Seq<char>,
    i: int,
) -> bool {
    &&& 0 <= i < players.len()
    &&& players[i].game_id == gid
    &&& players[i].secret_code@ == secret
    &&& forall|k: int|
        0 <= k < i ==> !((#[trigger] players[k]).game_id == gid && players[k].secret_code@
            == secret)
}

/// The first index holding a player of game `gid` with secret code
/// `secret`; meaningful under `member_with_secret`.
pub open spec fn first_member_by_secret(players: Seq<Player>, gid: u64, secret: Seq<char>) -> int {
    choose|i: int| is_first_member_by_secret(players, gid, secret, i)
}

/// With unique game codes, `the_game_idx` is exactly the index of any game
/// seen to carry the code.
pub proof fn lemma_the_game_idx_is(games: Seq<Game>, code: Seq<char>, g: int)
    requires
        forall|i: int, j: int|
            0 <= i < j < games.len() ==> (#[trigger] games[i]).code@ != (#[trigger] games[j]).code@,
        0 <= g < games.len(),
        games[g].code@ == code,
    ensures
        code_taken(games, code),
        the_game_idx(games, code) == g,
{
    assert(code_taken(games, code));
    let t = the_game_idx(games, code);
    assert(0 <= t < games.len() && games[t].code@ == code);
    if t < g {
        assert(games[t].code@ != games[g].code@);
    } else if g < t {
        assert(games[g].code@ != games[t].code@);
    }
}

/// With folded names unique within a game, `the_member_idx` is exactly the
/// index of any member seen to carry the folded name.
pub proof fn lemma_the_member_idx_is(players: Seq<Player>, gid: u64, key: Seq<char>, j: int)
    requires
        forall|a: int, b: int|
            0 <= a < b < players.len() && (#[trigger] players[a]).game_id == (
            #[trigger] players[b]).game_id ==> players[a].name_key@ != players[b].name_key@,
        0 <= j < players.len(),
        players[j].game_id == gid,
        players[j].name_key@ == key,
    ensures
        member_with_key(players, gid, key),
        the_member_idx(players, gid, key) == j,
{
    assert(member_with_key(players, gid, key));
    let t = the_member_idx(players, gid, key);
    assert(0 <= t < players.len() && players[t].game_id == gid && players[t].name_key@ == key);
    if t < j {
        assert(players[t].name_key@ != players[j].name_key@);
    } else if j < t {
        assert(players[j].name_key@ != players[t].name_key@);
    }
}

/// No two entries carry the same game code.
pub open spec fn versions_unique(versions: Seq<VersionEntry>) -> bool {
    forall|i: int, j: int|
        0 <= i < j < versions.len() ==> (#[trigger] versions[i]).code@ != (
        #[trigger] versions[j]).code@
}

/// The change counter recorded for `code`: the value of its entry, or 0
/// while no entry exists.
pub open spec fn version_of(versions: Seq<VersionEntry>, code: Seq<char>) -> u64
    decreases versions.len(),
{
    if versions.len() == 0 {
        0
    } else if versions.last().code@ == code {
        versions.last().value
    } else {
        version_of(versions.drop_last(), code)
    }
}

/// A counter after one bump: one higher, saturating at the top of `u64`.
pub open spec fn bumped(v: u64) -> u64 {
    if v < u64::MAX {
        (v + 1) as u64
    } else {
        v
    }
}

/// With unique codes, the counter of `code` is the value of any entry that
/// carries `code`.
proof fn lemma_version_of_at(versions: Seq<VersionEntry>, code: Seq<char>, i: int)
    requires
        versions_unique(versions),
        0 <= i < versions.len(),
        versions[i].code@ == code,
    ensures
        version_of(versions, code) == versions[i].value,
    decreases versions.len(),
{
    if i < versions.len() - 1 {
        assert(versions.last().code@ != code);
        assert(versions_unique(versions.drop_last())) by {
            assert(forall|a: int|
                0 <= a < versions.len() - 1 ==> versions.drop_last()[a] == versions[a]);
        }
        lemma_version_of_at(versions.drop_last(), code, i);
    }
}

/// The counter of a code with no entry is 0.
proof fn lemma_version_of_absent(versions: Seq<VersionEntry>, code: Seq<char>)
    requires
        forall|j: int| 0 <= j < versions.len() ==> (#[trigger] versions[j]).code@ != code,
    ensures
        version_of(versions, code) == 0,
    decreases versions.len(),
{
    if versions.len() > 0 {
        lemma_version_of_absent(versions.drop_last(), code);
    }
}

/// The authoritative store of every game and player. All game rules are
/// stated over this one value; a transport layer owns a single `Store` and
/// funnels every request through its methods.
pub struct Store {
    /// Every game, in creation order; a game is removed only when its lobby
    /// empties before the game has started.
    pub games: Vec<Game>,
    /// Every player of every game, in creation order; a player is removed
    /// only when leaving a lobby.
    pub players: Vec<Player>,
    /// Change counter per game code; counters outlive their game.
    pub versions: Vec<VersionEntry>,
    /// Next identity to assign to a game.
    pub next_game_id: u64,
    /// Next identity to assign to a player.
    pub next_player_id: u64,
    /// For each game in progress, the cyclic order in which the alive
    /// players target one another: the witness of the ring invariant.
    pub rings: Ghost<Map<u64, Seq<u64>>>,
}

impl Store {
    /// Games are well formed: identities strictly increase (so they are
    /// unique and below the counter), codes are unique, a winner is recorded
    /// exactly for finished games and is then a player of the game, and the
    /// host of every game is one of its players.
    pub open spec fn games_wf(self) -> bool {
        &&& forall|i: int, j: int|
            0 <= i < j < self.games@.len() ==> #[trigger] self.games@[i].id < #[trigger] self.games@[j].id
        &&& forall|i: int|
            0 <= i < self.games@.len() ==> #[trigger] self.games@[i].id < self.next_game_id
        &&& forall|i: int, j: int|
            0 <= i < j < self.games@.len() ==> (#[trigger] self.games@[i]).code@ != (
            #[trigger] self.games@[j]).code@
        &&& forall|i: int|
            0 <= i < self.games@.len() ==> ((#[trigger] self.games@[i]).winner_id is Some <==> self.games@[i].status
                == GameStatus::Finished)
        &&& forall|i: int|
            0 <= i < self.games@.len() && (#[trigger] self.games@[i]).winner_id is Some
                ==> has_player_id(self.players@, self.games@[i].id, self.games@[i].winner_id->0)
        &&& forall|i: int|
            0 <= i < self.games@.len() ==> has_player_id(
                self.players@,
                (#[trigger] self.games@[i]).id,
                self.games@[i].host_id,
            )
    }

    /// Players are well formed: identities strictly increase, every player
    /// belongs to an existing game, folded names are unique within a game,
    /// and every member of a game still in its lobby is alive with no
    /// target.
    pub open spec fn players_wf(self) -> bool {
        &&& forall|i: int, j: int|
            0 <= i < j < self.players@.len() ==> #[trigger] self.players@[i].id
                < #[trigger] self.players@[j].id
        &&& forall|i: int|
            0 <= i < self.players@.len() ==> #[trigger] self.players@[i].id < self.next_player_id
        &&& forall|i: int|
            0 <= i < self.players@.len() ==> has_game_id(
                self.games@,
                (#[trigger] self.players@[i]).game_id,
            )
        &&& forall|i: int, j: int|
            0 <= i < j < self.players@.len() && (#[trigger] self.players@[i]).game_id == (
            #[trigger] self.players@[j]).game_id ==> self.players@[i].name_key@
                != self.players@[j].name_key@
        &&& forall|i: int, g: int|
            0 <= i < self.players@.len() && 0 <= g < self.games@.len()
                && (#[trigger] self.players@[i]).game_id == (#[trigger] self.games@[g]).id
                && self.games@[g].status == GameStatus::Lobby ==> self.players@[i].is_alive
                && self.players@[i].target_id is None
    }

    /// Every game in progress carries a ring: a single directed cycle of
    /// `target_id` edges over exactly its alive players, of length at least
    /// two.
    pub open spec fn rings_wf(self) -> bool {
        forall|g: int|
            0 <= g < self.games@.len() && (#[trigger] self.games@[g]).status
                == GameStatus::InProgress ==> {
                &&& self.rings@.dom().contains(self.games@[g].id)
                &&& ring_ok(self.players@, self.games@[g].id, self.rings@[self.games@[g].id])
                &&& self.rings@[self.games@[g].id].len() >= 2
            }
    }

    /// Change counters are well formed: one entry per game code.
    pub open spec fn versions_wf(self) -> bool {
        forall|i: int, j: int|
            0 <= i < j < self.versions@.len() ==> (#[trigger] self.versions@[i]).code@ != (
            #[trigger] self.versions@[j]).code@
    }

    /// The store invariant: established by [`Store::new`], preserved by
    /// every operation.
    pub open spec fn wf(self) -> bool {
        &&& self.games_wf()
        &&& self.players_wf()
        &&& self.rings_wf()
        &&& self.versions_wf()
    }

    /// An empty store: no games, no players, counters at their start.
    pub fn new() -> (r: Store)
        ensures
            r.wf(),
            r.games@.len() == 0,
            r.players@.len() == 0,
            r.versions@.len() == 0,
            r.next_game_id == 1,
            r.next_player_id == 1,
            crate::models::keys_folded(r.players@),
            crate::models::secrets_wellformed(r.players@),
    {
        Store {
            games: Vec::new(),
            players: Vec::new(),
            versions: Vec::new(),
            next_game_id: 1,
            next_player_id: 1,
            rings: Ghost(Map::empty()),
        }
    }

    /// Index of the game with code `code`, if any. Codes are unique, so the
    /// match is the only one.
    pub(crate) fn find_game_idx(&self, code: &String) -> (r: Option<usize>)
        ensures
            match r {
                Some(g) => g < self.games@.len() && self.games@[g as int].code@ == code@,
                None => forall|g: int|
                    0 <= g < self.games@.len() ==> (#[trigger] self.games@[g]).code@ != code@,
            },
    {
        let mut g: usize = 0;
        while g < self.games.len()
            invariant
                g <= self.games@.len(),
                forall|k: int| 0 <= k < g ==> (#[trigger] self.games@[k]).code@ != code@,
            decreases self.games@.len() - g,
        {
            if self.games[g].code == *code {
                return Some(g);
            }
            g = g + 1;
        }
        None
    }

    /// Index of the change-counter entry for `code`, if any.
    fn find_version_idx(&self, code: &String) -> (r: Option<usize>)
        ensures
            match r {
                Some(i) => i < self.versions@.len() && self.versions@[i as int].code@ == code@,
                None => forall|j: int|
                    0 <= j < self.versions@.len() ==> (#[trigger] self.versions@[j]).code@
                        != code@,
            },
    {
        let mut i: usize = 0;
        while i < self.versions.len()
            invariant
                i <= self.versions@.len(),
                forall|k: int| 0 <= k < i ==> (#[trigger] self.versions@[k]).code@ != code@,
            decreases self.versions@.len() - i,
        {
            if self.versions[i].code == *code {
                return Some(i);
            }
            i = i + 1;
        }
        None
    }

    /// The current change counter of the game code `code`; 0 while nothing
    /// has happened under that code.
    pub fn get_game_version(&self, code: &String) -> (v: u64)
        requires
            self.versions_wf(),
        ensures
            v == version_of(self.versions@, code@),
    {
        match self.find_version_idx(code) {
            Some(i) => {
                proof {
                    lemma_version_of_at(self.versions@, code@, i as int);
                }
                self.versions[i].value
            },
            None => {
                proof {
                    lemma_version_of_absent(self.versions@, code@);
                }
                0
            },
        }
    }

    /// Raise the change counter of `code` by one (saturating only at the
    /// very top of `u64`), leaving every other counter and all game state
    /// untouched. Returns the new counter.
    pub fn bump_game_version(&mut self, code: &String) -> (v: u64)
        requires
            old(self).versions_wf(),
        ensures
            final(self).versions_wf(),
            v == version_of(final(self).versions@, code@),
            version_of(final(self).versions@, code@) == bumped(
                version_of(old(self).versions@, code@),
            ),
            forall|c: Seq<char>|
                c != code@ ==> version_of(final(self).versions@, c) == version_of(
                    old(self).versions@,
                    c,
                ),
            final(self).games@ == old(self).games@,
            final(self).players@ == old(self).players@,
            final(self).next_game_id == old(self).next_game_id,
            final(self).next_player_id == old(self).next_player_id,
            final(self).rings@ == old(self).rings@,
    {
        let ghost vs0 = self.versions@;
        match self.find_version_idx(code) {
            Some(i) => {
                let v0 = self.versions[i].value;
                let v1 = if v0 < u64::MAX {
                    v0 + 1
                } else {
                    v0
                };
                let entry = VersionEntry { code: self.versions[i].code.clone(), value: v1 };
                self.versions.set(i, entry);
                proof {
                    let vs1 = self.versions@;
                    assert(versions_unique(vs1)) by {
                        assert(forall|a: int|
                            0 <= a < vs1.len() ==> (#[trigger] vs1[a]).code@ == vs0[a].code@);
                    }
                    lemma_version_of_at(vs0, code@, i as int);
                    lemma_version_of_at(vs1, code@, i as int);
                    assert forall|c: Seq<char>| c != code@ implies version_of(vs1, c) == version_of(
                        vs0,
                        c,
                    ) by {
                        if exists|j: int| 0 <= j < vs0.len() && (#[trigger] vs0[j]).code@ == c {
                            let j = choose|j: int|
                                0 <= j < vs0.len() && (#[trigger] vs0[j]).code@ == c;
                            assert(j != i);
                            assert(vs1[j] == vs0[j]);
                            lemma_version_of_at(vs0, c, j);
                            lemma_version_of_at(vs1, c, j);
                        } else {
                            assert(forall|j: int|
                                0 <= j < vs0.len() ==> (#[trigger] vs0[j]).code@ != c);
                            assert(forall|j: int|
                                0 <= j < vs1.len() ==> (#[trigger] vs1[j]).code@ != c);
                            lemma_version_of_absent(vs0, c);
                            lemma_version_of_absent(vs1, c);
                        }
                    }
                }
                v1
            },
            None => {
                self.versions.push(VersionEntry { code: code.clone(), value: 1 });
                proof {
                    let vs1 = self.versions@;
                    lemma_version_of_absent(vs0, code@);
                    assert(vs1.last().code@ == code@);
                    assert(version_of(vs1, code@) == 1);
                    assert forall|c: Seq<char>| c != code@ implies version_of(vs1, c) == version_of(
                        vs0,
                        c,
                    ) by {
                        assert(vs1.drop_last() =~= vs0);
                    }
                }
                1
            },
        }
    }

    /// The change-poll answer for `code`: whether the game has changed since
    /// the client last looked, and the version to poll with next.
    pub fn check_for_changes(&self, code: &String, client_version: u64) -> (r:
        crate::payloads::ChangedResponse)
        requires
            self.versions_wf(),
        ensures
            r.current_version == version_of(self.versions@, code@),
            r.changed == (version_of(self.versions@, code@) > client_version),
    {
        let current_version = self.get_game_version(code);
        crate::payloads::ChangedResponse { changed: current_version > client_version, current_version }
    }

    /// Index of the first player (anywhere) whose auth token is `token`.
    pub(crate) fn find_player_idx_by_token(&self, token: &String) -> (r: Option<usize>)
        ensures
            match r {
                Some(i) => i < self.players@.len() && self.players@[i as int].auth_token@ == token@
                    && forall|k: int|
                    0 <= k < i ==> (#[trigger] self.players@[k]).auth_token@ != token@,
                None => forall|k: int|
                    0 <= k < self.players@.len() ==> (#[trigger] self.players@[k]).auth_token@
                        != token@,
            },
    {
        let mut i: usize = 0;
        while i < self.players.len()
            invariant
                i <= self.players@.len(),
                forall|k: int| 0 <= k < i ==> (#[trigger] self.players@[k]).auth_token@ != token@,
            decreases self.players@.len() - i,
        {
            if self.players[i].auth_token == *token {
                return Some(i);
            }
            i = i + 1;
        }
        None
    }

    /// Index of the first player of the game `gid` whose auth token is
    /// `token`.
    pub(crate) fn find_member_idx_by_token(&self, gid: u64, token: &String) -> (r: Option<usize>)
        ensures
            match r {
                Some(i) => i < self.players@.len() && self.players@[i as int].game_id == gid
                    && self.players@[i as int].auth_token@ == token@ && forall|k: int|
                    0 <= k < i ==> !((#[trigger] self.players@[k]).game_id == gid
                        && self.players@[k].auth_token@ == token@),
                None => forall|k: int|
                    0 <= k < self.players@.len() ==> !((#[trigger] self.players@[k]).game_id == gid
                        && self.players@[k].auth_token@ == token@),
            },
    {
        let mut i: usize = 0;
        while i < self.players.len()
            invariant
                i <= self.players@.len(),
                forall|k: int|
                    0 <= k < i ==> !((#[trigger] self.players@[k]).game_id == gid
                        && self.players@[k].auth_token@ == token@),
            decreases self.players@.len() - i,
        {
            if self.players[i].game_id == gid && self.players[i].auth_token == *token {
                return Some(i);
            }
            i = i + 1;
        }
        None
    }

    /// Index of the first player of the game `gid` whose secret code is
    /// `secret`.
    pub(crate) fn find_member_idx_by_secret(&self, gid: u64, secret: &String) -> (r: Option<usize>)
        ensures
            match r {
                Some(i) => i < self.players@.len() && self.players@[i as int].game_id == gid
                    && self.players@[i as int].secret_code@ == secret@ && forall|k: int|
                    0 <= k < i ==> !((#[trigger] self.players@[k]).game_id == gid
                        && self.players@[k].secret_code@ == secret@),
                None => forall|k: int|
                    0 <= k < self.players@.len() ==> !((#[trigger] self.players@[k]).game_id == gid
                        && self.players@[k].secret_code@ == secret@),
            },
    {
        let mut i: usize = 0;
        while i < self.players.len()
            invariant
                i <= self.players@.len(),
                forall|k: int|
                    0 <= k < i ==> !((#[trigger] self.players@[k]).game_id == gid
                        && self.players@[k].secret_code@ == secret@),
            decreases self.players@.len() - i,
        {
            if self.players[i].game_id == gid && self.players[i].secret_code == *secret {
                return Some(i);
            }
            i = i + 1;
        }
        None
    }

    /// Index of the first player of the game `gid` whose folded name is
    /// `key`. Folded names are unique within a game, so any match is the
    /// only one.
    pub(crate) fn find_member_idx_by_key(&self, gid: u64, key: &String) -> (r: Option<usize>)
        ensures
            match r {
                Some(i) => i < self.players@.len() && self.players@[i as int].game_id == gid
                    && self.players@[i as int].name_key@ == key@,
                None => forall|k: int|
                    0 <= k < self.players@.len() ==> !((#[trigger] self.players@[k]).game_id == gid
                        && self.players@[k].name_key@ == key@),
            },
    {
        let mut i: usize = 0;
        while i < self.players.len()
            invariant
                i <= self.players@.len(),
                forall|k: int|
                    0 <= k < i ==> !((#[trigger] self.players@[k]).game_id == gid
                        && self.players@[k].name_key@ == key@),
            decreases self.players@.len() - i,
        {
            if self.players[i].game_id == gid && self.players[i].name_key == *key {
                return Some(i);
            }
            i = i + 1;
        }
        None
    }

    /// Index of the player with id `pid`. Ids are unique, so any match is
    /// the only one.
    pub(crate) fn find_player_idx_by_id(&self, pid: u64) -> (r: Option<usize>)
        ensures
            match r {
                Some(i) => i < self.players@.len() && self.players@[i as int].id == pid,
                None => forall|k: int|
                    0 <= k < self.players@.len() ==> (#[trigger] self.players@[k]).id != pid,
            },
    {
        let mut i: usize = 0;
        while i < self.players.len()
            invariant
                i <= self.players@.len(),
                forall|k: int| 0 <= k < i ==> (#[trigger] self.players@[k]).id != pid,
            decreases self.players@.len() - i,
        {
            if self.players[i].id == pid {
                return Some(i);
            }
            i = i + 1;
        }
        None
    }

    /// The first player (of any game) holding the session token `token`.
    pub fn get_player_by_auth_token(&self, token: &String) -> (r: Option<Player>)
        ensures
            match r {
                Some(p) => exists|i: int|
                    0 <= i < self.players@.len() && #[trigger] self.players@[i] == p
                        && p.auth_token@ == token@,
                None => forall|k: int|
                    0 <= k < self.players@.len() ==> (#[trigger] self.players@[k]).auth_token@
                        != token@,
            },
    {
        match self.find_player_idx_by_token(token) {
            Some(i) => Some(self.players[i].clone()),
            None => None,
        }
    }

    /// The player of the game `gid` whose name folds like `name`, if any:
    /// the case-insensitive name lookup of the lobby. Under the key
    /// discipline (every row's key is the fold of its name, which the
    /// operations maintain from the empty store on) the match is stated
    /// over the names themselves.
    pub fn get_player_by_name(&self, gid: u64, name: &String) -> (r: Option<Player>)
        ensures
            match r {
                Some(p) => exists|i: int|
                    0 <= i < self.players@.len() && #[trigger] self.players@[i] == p && p.game_id
                        == gid && p.name_key@ == crate::models::lower_of(name@),
                None => forall|k: int|
                    0 <= k < self.players@.len() ==> !((#[trigger] self.players@[k]).game_id == gid
                        && self.players@[k].name_key@ == crate::models::lower_of(name@)),
            },
            crate::models::keys_folded(self.players@) ==> match r {
                Some(p) => crate::models::lower_of(p.name@) == crate::models::lower_of(name@),
                None => forall|k: int|
                    0 <= k < self.players@.len() && (#[trigger] self.players@[k]).game_id == gid
                        ==> crate::models::lower_of(self.players@[k].name@)
                        != crate::models::lower_of(name@),
            },
    {
        let key = crate::models::fold_name(name.as_str());
        match self.find_member_idx_by_key(gid, &key) {
            Some(i) => {
                proof {
                    if crate::models::keys_folded(self.players@) {
                        assert(self.players@[i as int].name_key@ == crate::models::lower_of(
                            self.players@[i as int].name@,
                        ));
                    }
                }
                Some(self.players[i].clone())
            },
            None => {
                proof {
                    if crate::models::keys_folded(self.players@) {
                        assert forall|k: int|
                            0 <= k < self.players@.len() && (#[trigger] self.players@[k]).game_id
                                == gid implies crate::models::lower_of(self.players@[k].name@)
                            != crate::models::lower_of(name@) by {
                            assert(self.players@[k].name_key@ == crate::models::lower_of(
                                self.players@[k].name@,
                            ));
                        }
                    }
                }
                None
            },
        }
    }

    /// All players of the game `gid`, in creation order.
    pub fn get_players_by_game_id(&self, gid: u64) -> (r: Vec<Player>)
        ensures
            r@ == crate::models::players_of(self.players@, gid),
    {
        let mut r: Vec<Player> = Vec::new();
        let mut i: usize = 0;
        while i < self.players.len()
            invariant
                i <= self.players@.len(),
                r@ == crate::models::players_of(self.players@.subrange(0, i as int), gid),
            decreases self.players@.len() - i,
        {
            proof {
                crate::models::lemma_players_of_take_one_more(self.players@, gid, i as int);
            }
            if self.players[i].game_id == gid {
                r.push(self.players[i].clone());
            }
            i = i + 1;
        }
        proof {
            assert(self.players@.subrange(0, self.players@.len() as int) =~= self.players@);
        }
        r
    }

    /// How one member is shown to the requesting player `req_id`: identity
    /// and liveness in the open, the current target by display name, and the
    /// secret code only on the requester's own entry.
    pub open spec fn member_view_ok(
        players: Seq<Player>,
        p: Player,
        req_id: u64,
        v: crate::payloads::PlayerGameState,
    ) -> bool {
        &&& v.id == p.id
        &&& v.name == p.name
        &&& v.is_alive == p.is_alive
        &&& v.secret_code == if p.id == req_id {
            Some(p.secret_code)
        } else {
            None
        }
        &&& match p.target_id {
            None => v.target_name is None,
            Some(t) => if crate::models::has_id(players, t) {
                v.target_name == Some(players[crate::models::the_player_idx(players, t)].name)
            } else {
                v.target_name is None
            },
        }
    }

    /// The game with code `game_code` and its members as shown to the
    /// holder of `auth_token`: every member's own secret code is visible
    /// only to that member. An unknown token is turned away as `Forbidden`
    /// before the game is looked at; an unknown code as `NotFound`.
    pub fn get_game_state(&self, game_code: &String, auth_token: &String) -> (r: Result<
        crate::payloads::GameStateResponse,
        AppError,
    >)
        requires
            self.wf(),
        ensures
            r is Err ==> (r->Err_0 == AppError::Forbidden && !holder_with_token(
                self.players@,
                auth_token@,
            )) || (r->Err_0 == AppError::NotFound && holder_with_token(self.players@, auth_token@)
                && !code_taken(self.games@, game_code@)),
            r is Ok ==> holder_with_token(self.players@, auth_token@) && code_taken(
                self.games@,
                game_code@,
            ),
            r is Ok ==> ({
                let resp = r->Ok_0;
                let req = self.players@[first_holder_idx(self.players@, auth_token@)];
                let g = the_game_idx(self.games@, game_code@);
                let roster = crate::models::players_of(self.players@, self.games@[g].id);
                &&& resp.game == self.games@[g]
                &&& resp.version == version_of(self.versions@, game_code@)
                &&& resp.players@.len() == roster.len()
                &&& forall|j: int|
                    0 <= j < roster.len() ==> Store::member_view_ok(
                        self.players@,
                        roster[j],
                        req.id,
                        #[trigger] resp.players@[j],
                    )
            }),
    {
        let req = match self.find_player_idx_by_token(auth_token) {
            None => {
                return Err(AppError::Forbidden);
            },
            Some(i) => {
                proof {
                    lemma_first_holder_idx_is(self.players@, auth_token@, i as int);
                }
                self.players[i].clone()
            },
        };
        let gidx = match self.find_game_idx(game_code) {
            None => {
                return Err(AppError::NotFound);
            },
            Some(x) => x,
        };
        proof {
            lemma_the_game_idx_is(self.games@, game_code@, gidx as int);
        }
        let game = self.games[gidx].clone();
        let members = self.get_players_by_game_id(game.id);
        let mut shown: Vec<crate::payloads::PlayerGameState> = Vec::new();
        let mut m: usize = 0;
        while m < members.len()
            invariant
                self.wf(),
                m <= members@.len(),
                shown@.len() == m,
                forall|j: int|
                    0 <= j < m ==> Store::member_view_ok(
                        self.players@,
                        members@[j],
                        req.id,
                        #[trigger] shown@[j],
                    ),
            decreases members@.len() - m,
        {
            let p = &members[m];
            let target_name: Option<String> = match p.target_id {
                None => None,
                Some(t) => match self.find_player_idx_by_id(t) {
                    Some(w) => {
                        proof {
                            let w0 = crate::models::the_player_idx(self.players@, t);
                            assert(0 <= w0 < self.players@.len() && self.players@[w0].id == t) by {
                                assert(self.players@[w as int].id == t);
                            }
                            if w0 < w as int {
                                assert(self.players@[w0].id < self.players@[w as int].id);
                            } else if (w as int) < w0 {
                                assert(self.players@[w as int].id < self.players@[w0].id);
                            }
                        }
                        Some(self.players[w].name.clone())
                    },
                    None => None,
                },
            };
            let secret_code: Option<String> = if p.id == req.id {
                Some(p.secret_code.clone())
            } else {
                None
            };
            shown.push(
                crate::payloads::PlayerGameState {
                    id: p.id,
                    name: p.name.clone(),
                    is_alive: p.is_alive,
                    target_name,
                    secret_code,
                },
            );
            m = m + 1;
        }
        let version = self.get_game_version(game_code);
        Ok(crate::payloads::GameStateResponse { game, players: shown, version })
    }

    /// A summary of every game of the store: its code, its phase and how
    /// many players it holds.
    pub fn get_all_games(&self) -> (r: Vec<GameInfo>)
        ensures
            r@.len() == self.games@.len(),
            forall|g: int|
                0 <= g < self.games@.len() ==> {
                    &&& (#[trigger] r@[g]).code == self.games@[g].code
                    &&& r@[g].status == self.games@[g].status
                    &&& r@[g].player_count == crate::models::players_of(
                        self.players@,
                        self.games@[g].id,
                    ).len()
                },
    {
        let mut r: Vec<GameInfo> = Vec::new();
        let mut g: usize = 0;
        while g < self.games.len()
            invariant
                g <= self.games@.len(),
                r@.len() == g,
                forall|k: int|
                    0 <= k < g ==> {
                        &&& (#[trigger] r@[k]).code == self.games@[k].code
                        &&& r@[k].status == self.games@[k].status
                        &&& r@[k].player_count == crate::models::players_of(
                            self.players@,
                            self.games@[k].id,
                        ).len()
                    },
            decreases self.games@.len() - g,
        {
            let members = self.get_players_by_game_id(self.games[g].id);
            r.push(
                GameInfo {
                    code: self.games[g].code.clone(),
                    status: self.games[g].status,
                    player_count: members.len() as u64,
                },
            );
            g = g + 1;
        }
        r
    }

    /// The game with code `code`, if any.
    pub fn get_game_by_code(&self, code: &String) -> (r: Option<Game>)
        ensures
            match r {
                Some(game) => exists|g: int|
                    0 <= g < self.games@.len() && #[trigger] self.games@[g] == game && game.code@
                        == code@,
                None => forall|g: int|
                    0 <= g < self.games@.len() ==> (#[trigger] self.games@[g]).code@ != code@,
            },
    {
        match self.find_game_idx(code) {
            Some(g) => Some(self.games[g].clone()),
            None => None,
        }
    }
}

} // verus!
