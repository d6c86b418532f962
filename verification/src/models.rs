use vstd::prelude::*;

verus! {

/// What `str::to_lowercase` yields: the case-folded form of a string, a
/// function of its characters alone. Player names are compared through it,
/// so that a name is taken case-insensitively.
pub uninterp spec fn lower_of(s: Seq<char>) -> Seq<char>;

/// Relies on `str::to_lowercase`: the folded form of `s`, depending on the
/// characters of `s` alone.
#[verifier::external_body]
pub fn fold_name(s: &str) -> (r: String)
    ensures
        r@ == lower_of(s@),
{
    s.to_lowercase()
}

/// Phase of a game. The only legal order of transitions is
/// `Lobby -> InProgress -> Finished`.
#[derive(Clone, Copy, Debug, PartialEq, Eq, Structural)]
pub enum GameStatus {
    Lobby,
    InProgress,
    Finished,
}

impl GameStatus {
    /// The fixed label of each phase.
    pub open spec fn spec_label(self) -> Seq<char> {
        match self {
            GameStatus::Lobby => "LOBBY"@,
            GameStatus::InProgress => "IN_PROGRESS"@,
            GameStatus::Finished => "FINISHED"@,
        }
    }

    /// Phase name as shown to clients.
    pub fn label(&self) -> (r: String)
        ensures
            r@ == self.spec_label(),
    {
        match self {
            GameStatus::Lobby => "LOBBY".to_owned(),
            GameStatus::InProgress => "IN_PROGRESS".to_owned(),
            GameStatus::Finished => "FINISHED".to_owned(),
        }
    }
}

/// One participant of one game. A player belongs to exactly one game for its
/// whole lifetime; players reference each other only through `target_id`.
#[derive(Debug, PartialEq)]
pub struct Player {
    /// Store-assigned identity, unique across the whole store.
    pub id: u64,
    /// The owning game's id.
    pub game_id: u64,
    /// Display name, as the player entered it.
    pub name: String,
    /// Folded form of `name`, kept so that the case-insensitive uniqueness
    /// rule can be enforced by plain equality.
    pub name_key: String,
    /// Unguessable value shown only to whoever targets this player; a killer
    /// presents it to prove a valid elimination.
    pub secret_code: String,
    /// Unguessable session credential; the sole means of authenticating
    /// actions as this player.
    pub auth_token: String,
    /// Starts `true`; flips to `false` at most once, on elimination or on a
    /// departure after the game has started.
    pub is_alive: bool,
    /// The current assignment: `Some` exactly while the player holds a live
    /// target (between game start and either elimination or victory).
    pub target_id: Option<u64>,
}

/// One game. Owns its players' lifecycle; deleted only while still in the
/// lobby and only once the lobby has emptied entirely.
#[derive(Debug, PartialEq)]
pub struct Game {
    /// Store-assigned identity, unique across the whole store.
    pub id: u64,
    /// Short human-facing join code, unique among the games of the store.
    pub code: String,
    /// Current phase.
    pub status: GameStatus,
    /// The player who may start the game; renegotiated if the original host
    /// leaves during the lobby phase.
    pub host_id: u64,
    /// Set exactly when `status == Finished`.
    pub winner_id: Option<u64>,
}

/// Summary of one game, as listed to clients.
#[derive(Debug, PartialEq)]
pub struct GameInfo {
    pub code: String,
    pub status: GameStatus,
    pub player_count: u64,
}

impl Clone for Player {
    fn clone(&self) -> (r: Self)
        ensures
            r == *self,
    {
        Player {
            id: self.id,
            game_id: self.game_id,
            name: self.name.clone(),
            name_key: self.name_key.clone(),
            secret_code: self.secret_code.clone(),
            auth_token: self.auth_token.clone(),
            is_alive: self.is_alive,
            target_id: self.target_id,
        }
    }
}

impl Clone for Game {
    fn clone(&self) -> (r: Self)
        ensures
            r == *self,
    {
        Game {
            id: self.id,
            code: self.code.clone(),
            status: self.status,
            host_id: self.host_id,
            winner_id: self.winner_id,
        }
    }
}

impl Clone for GameInfo {
    fn clone(&self) -> (r: Self)
        ensures
            r == *self,
    {
        GameInfo { code: self.code.clone(), status: self.status, player_count: self.player_count }
    }
}

/// The players that belong to the game `gid`, in store order.
pub open spec fn players_of(players: Seq<Player>, gid: u64) -> Seq<Player> {
    players.filter(|p: Player| p.game_id == gid)
}

/// Extending a prefix by one element extends its game filtering by that
/// element exactly when the element belongs to the game.
pub proof fn lemma_players_of_take_one_more(players: Seq<Player>, gid: u64, i: int)
    requires
        0 <= i < players.len(),
    ensures
        players_of(players.subrange(0, i + 1), gid) == if players[i].game_id == gid {
            players_of(players.subrange(0, i), gid).push(players[i])
        } else {
            players_of(players.subrange(0, i), gid)
        },
{
    reveal_with_fuel(Seq::<_>::filter, 2);
    let s = players.subrange(0, i + 1);
    assert(s.len() > 0);
    assert(s.drop_last() =~= players.subrange(0, i));
    assert(s.last() == players[i]);
}

/// Every element of the game filtering belongs to the game and is one of
/// the base rows.
pub proof fn lemma_players_of_member(players: Seq<Player>, gid: u64, m: int)
    requires
        0 <= m < players_of(players, gid).len(),
    ensures
        players_of(players, gid)[m].game_id == gid,
        exists|i: int|
            0 <= i < players.len() && #[trigger] players[i] == players_of(players, gid)[m],
    decreases players.len(),
{
    reveal_with_fuel(Seq::<_>::filter, 2);
    let f = players_of(players, gid);
    if players.len() > 0 {
        let prefix = players.drop_last();
        if players.last().game_id == gid && m == f.len() - 1 {
            assert(players[players.len() - 1] == f[m]);
        } else {
            lemma_players_of_member(prefix, gid, m);
            assert(players_of(prefix, gid)[m] == f[m]);
            let i = choose|i: int|
                0 <= i < prefix.len() && #[trigger] prefix[i] == players_of(prefix, gid)[m];
            assert(players[i] == f[m]);
        }
    }
}

/// How many players of the game `gid` are still alive.
pub open spec fn count_alive(players: Seq<Player>, gid: u64) -> int
    decreases players.len(),
{
    if players.len() == 0 {
        0
    } else {
        count_alive(players.drop_last(), gid) + if players.last().game_id == gid
            && players.last().is_alive {
            1int
        } else {
            0int
        }
    }
}

/// `a` and `b` are the same player record as far as identity goes: only
/// `is_alive` and `target_id` may differ.
pub open spec fn same_identity(a: Player, b: Player) -> bool {
    &&& a.id == b.id
    &&& a.game_id == b.game_id
    &&& a.name == b.name
    &&& a.name_key == b.name_key
    &&& a.secret_code == b.secret_code
    &&& a.auth_token == b.auth_token
}

/// Some player, of any game, carries the id `pid`.
pub open spec fn has_id(players: Seq<Player>, pid: u64) -> bool {
    exists|i: int| 0 <= i < players.len() && (#[trigger] players[i]).id == pid
}

/// Every stored row's `name_key` really is the folded form of its `name`:
/// the discipline that makes key equality mean case-insensitive name
/// equality. Established by the empty store and carried across every
/// operation; the row-shape lemmas of the laws module transport it.
pub open spec fn keys_folded(players: Seq<Player>) -> bool {
    forall|i: int|
        0 <= i < players.len() ==> (#[trigger] players[i]).name_key@ == lower_of(players[i].name@)
}

/// Every stored row's secret code has the generated shape: 36 characters
/// in the form the secret parser accepts. Established by the empty store
/// and carried across every operation, so the kill format gate can never
/// mask a stored secret.
pub open spec fn secrets_wellformed(players: Seq<Player>) -> bool {
    forall|i: int|
        0 <= i < players.len() ==> (#[trigger] players[i]).secret_code@.len() == 36
            && crate::codes::uuid_ok(players[i].secret_code@)
}

/// The index of the player with id `pid`; meaningful where such a player
/// exists, and unique once player ids are unique.
pub open spec fn the_player_idx(players: Seq<Player>, pid: u64) -> int {
    choose|i: int| 0 <= i < players.len() && (#[trigger] players[i]).id == pid
}

/// Counting alive members one row further counts the row exactly when it is
/// an alive member.
pub proof fn lemma_count_alive_take_one_more(players: Seq<Player>, gid: u64, i: int)
    requires
        0 <= i < players.len(),
    ensures
        count_alive(players.subrange(0, i + 1), gid) == count_alive(players.subrange(0, i), gid)
            + if players[i].game_id == gid && players[i].is_alive {
            1int
        } else {
            0int
        },
{
    let s = players.subrange(0, i + 1);
    assert(s.len() > 0);
    assert(s.drop_last() =~= players.subrange(0, i));
    assert(s.last() == players[i]);
}

/// Replacing one row changes the alive count exactly by the difference of
/// the two rows' contributions.
pub proof fn lemma_count_alive_update(players: Seq<Player>, gid: u64, i: int, p: Player)
    requires
        0 <= i < players.len(),
    ensures
        count_alive(players.update(i, p), gid) == count_alive(players, gid) - (
        if players[i].game_id == gid && players[i].is_alive {
            1int
        } else {
            0int
        }) + (
        if p.game_id == gid && p.is_alive {
            1int
        } else {
            0int
        }),
    decreases players.len(),
{
    let upd = players.update(i, p);
    if i == players.len() - 1 {
        assert(upd.drop_last() =~= players.drop_last());
        assert(upd.last() == p);
    } else {
        assert(upd.drop_last() =~= players.drop_last().update(i, p));
        assert(upd.last() == players.last());
        lemma_count_alive_update(players.drop_last(), gid, i, p);
    }
}

/// The set of ids of the alive players of the game `gid`.
pub open spec fn alive_ids(players: Seq<Player>, gid: u64) -> Set<u64> {
    Set::new(
        |id: u64|
            exists|i: int|
                0 <= i < players.len() && #[trigger] players[i].id == id && players[i].game_id
                    == gid && players[i].is_alive,
    )
}

/// Some player of the game `gid` carries the id `pid`.
pub open spec fn has_player_id(players: Seq<Player>, gid: u64, pid: u64) -> bool {
    exists|i: int|
        0 <= i < players.len() && #[trigger] players[i].id == pid && players[i].game_id == gid
}

/// Some game of the store carries the id `gid`.
pub open spec fn has_game_id(games: Seq<Game>, gid: u64) -> bool {
    exists|i: int| 0 <= i < games.len() && #[trigger] games[i].id == gid
}

/// `a` and `b` agree on every field except possibly the target assignment.
pub open spec fn eq_except_target(a: Player, b: Player) -> bool {
    &&& a.id == b.id
    &&& a.game_id == b.game_id
    &&& a.name == b.name
    &&& a.name_key == b.name_key
    &&& a.secret_code == b.secret_code
    &&& a.auth_token == b.auth_token
    &&& a.is_alive == b.is_alive
}

/// Membership of a player id in a game survives adding another player.
pub proof fn lemma_has_player_id_push(players: Seq<Player>, p: Player, gid: u64, pid: u64)
    requires
        has_player_id(players, gid, pid),
    ensures
        has_player_id(players.push(p), gid, pid),
{
    let i = choose|i: int|
        0 <= i < players.len() && #[trigger] players[i].id == pid && players[i].game_id == gid;
    assert(players.push(p)[i] == players[i]);
}

/// Membership of a player id in a game survives removing a different
/// player's row.
pub proof fn lemma_has_player_id_remove(players: Seq<Player>, li: int, gid: u64, pid: u64)
    requires
        0 <= li < players.len(),
        has_player_id(players, gid, pid),
        players[li].id != pid,
    ensures
        has_player_id(players.remove(li), gid, pid),
{
    let w = choose|w: int|
        0 <= w < players.len() && #[trigger] players[w].id == pid && players[w].game_id == gid;
    assert(w != li);
    if w < li {
        assert(players.remove(li)[w] == players[w]);
    } else {
        assert(players.remove(li)[w - 1] == players[w]);
    }
}

/// Presence of a game id survives removing a different game's row.
pub proof fn lemma_has_game_id_remove(games: Seq<Game>, g: int, gid: u64)
    requires
        0 <= g < games.len(),
        has_game_id(games, gid),
        games[g].id != gid,
    ensures
        has_game_id(games.remove(g), gid),
{
    let w = choose|w: int| 0 <= w < games.len() && #[trigger] games[w].id == gid;
    assert(w != g);
    if w < g {
        assert(games.remove(g)[w] == games[w]);
    } else {
        assert(games.remove(g)[w - 1] == games[w]);
    }
}

/// Presence of a game id survives adding another game.
pub proof fn lemma_has_game_id_push(games: Seq<Game>, g: Game, gid: u64)
    requires
        has_game_id(games, gid),
    ensures
        has_game_id(games.push(g), gid),
{
    let i = choose|i: int| 0 <= i < games.len() && #[trigger] games[i].id == gid;
    assert(games.push(g)[i] == games[i]);
}

} // verus!
