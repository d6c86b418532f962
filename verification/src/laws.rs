//! The laws of the game, stated once over the whole store and proved from
//! what the operations' contracts maintain: the target relation of a
//! running game is one single closed cycle, mutual targeting means a final
//! duel, a dead target refuses every further kill the same way, a
//! reconnecting join is idempotent, and the credential discipline — every
//! row's key the fold of its name, every stored secret of the generated
//! shape — carries from the empty store across each operation's stated
//! row changes.

use crate::errors::AppError;
use crate::kill::kill_validation;
use crate::models::{alive_ids, count_alive, keys_folded, lower_of, secrets_wellformed, Player};
use crate::ring::{lemma_member_edge, lemma_ring_len_is_alive_count, ring_edge, ring_next, ring_ok};
use crate::store::{code_taken, first_member_by_token, is_first_member_by_secret, lemma_first_member_by_secret_is, lemma_the_game_idx_is, member_with_key, member_with_token, the_game_idx, the_member_idx, Store};
use vstd::prelude::*;

verus! {

/// In every game in progress, the alive players' `target_id` edges form
/// one single closed cycle spanning exactly the alive players: the game's
/// ring, whose length is the number of alive players, at least two.
#[verifier::spinoff_prover]
#[verifier::rlimit(100)]
pub proof fn lemma_ring_spans_alive_players(s: Store, g: int)
    requires
        s.wf(),
        0 <= g < s.games@.len(),
        s.games@[g].status == crate::models::GameStatus::InProgress,
    ensures
        ring_ok(s.players@, s.games@[g].id, s.rings@[s.games@[g].id]),
        s.rings@[s.games@[g].id].len() == count_alive(s.players@, s.games@[g].id),
        s.rings@[s.games@[g].id].len() >= 2,
{
    let gid = s.games@[g].id;
    let players = s.players@;
    assert forall|a: int, b: int| 0 <= a < b < players.len() implies #[trigger] players[a].id
        != #[trigger] players[b].id by {
        assert(players[a].id < players[b].id);
    }
    lemma_ring_len_is_alive_count(players, gid, s.rings@[gid]);
}

/// In every game in progress, every alive player holds exactly one target,
/// and that target is another alive player of the same game.
#[verifier::spinoff_prover]
#[verifier::rlimit(100)]
pub proof fn lemma_every_alive_player_has_alive_target(s: Store, g: int, i: int)
    requires
        s.wf(),
        0 <= g < s.games@.len(),
        s.games@[g].status == crate::models::GameStatus::InProgress,
        0 <= i < s.players@.len(),
        s.players@[i].game_id == s.games@[g].id,
        s.players@[i].is_alive,
    ensures
        s.players@[i].target_id is Some,
        alive_ids(s.players@, s.games@[g].id).contains(s.players@[i].target_id->0),
        s.players@[i].target_id != Some(s.players@[i].id),
{
    let gid = s.games@[g].id;
    let players = s.players@;
    let ring = s.rings@[gid];
    let n = ring.len() as int;
    assert forall|a: int, b: int| 0 <= a < b < players.len() implies #[trigger] players[a].id
        != #[trigger] players[b].id by {
        assert(players[a].id < players[b].id);
    }
    let m = lemma_member_edge(players, gid, ring, i);
    let t = players[i].target_id->0;
    assert(t == ring_next(ring, m));
    let mt: int = if m + 1 < n {
        m + 1
    } else {
        0
    };
    assert(ring[mt] == t);
    assert(ring_edge(players, gid, ring[mt], ring_next(ring, mt)));
    let w = choose|w: int|
        0 <= w < players.len() && #[trigger] players[w].id == ring[mt] && players[w].game_id == gid
            && players[w].is_alive && players[w].target_id == Some(ring_next(ring, mt));
    assert(alive_ids(players, gid).contains(t)) by {
        assert(players[w].id == t);
    }
    // no self-loop: the ring has at least two members and no duplicates
    if players[i].target_id == Some(players[i].id) {
        if m + 1 < n {
            assert(ring[m + 1] == ring[m]);
        } else {
            assert(ring[0] == ring[m]);
        }
    }
}

/// In every game in progress, no two alive players share a target.
#[verifier::spinoff_prover]
#[verifier::rlimit(100)]
pub proof fn lemma_no_two_players_share_a_target(s: Store, g: int, i: int, j: int)
    requires
        s.wf(),
        0 <= g < s.games@.len(),
        s.games@[g].status == crate::models::GameStatus::InProgress,
        0 <= i < s.players@.len(),
        0 <= j < s.players@.len(),
        i != j,
        s.players@[i].game_id == s.games@[g].id,
        s.players@[j].game_id == s.games@[g].id,
        s.players@[i].is_alive,
        s.players@[j].is_alive,
    ensures
        s.players@[i].target_id != s.players@[j].target_id,
{
    let gid = s.games@[g].id;
    let players = s.players@;
    let ring = s.rings@[gid];
    let n = ring.len() as int;
    assert forall|a: int, b: int| 0 <= a < b < players.len() implies #[trigger] players[a].id
        != #[trigger] players[b].id by {
        assert(players[a].id < players[b].id);
    }
    let mi = lemma_member_edge(players, gid, ring, i);
    let mj = lemma_member_edge(players, gid, ring, j);
    assert(players[i].id != players[j].id) by {
        if i < j {
            assert(players[i].id < players[j].id);
        } else {
            assert(players[j].id < players[i].id);
        }
    }
    assert(mi != mj);
    if players[i].target_id == players[j].target_id {
        assert(ring_next(ring, mi) == ring_next(ring, mj));
        if mi + 1 < n && mj + 1 < n {
            assert(ring[mi + 1] == ring[mj + 1]);
        } else if mi + 1 < n {
            assert(ring[mi + 1] == ring[0]);
        } else {
            assert(ring[0] == ring[mj + 1]);
        }
    }
}

/// Two players targeting each other are the last two standing: the next
/// valid kill among them ends the game.
#[verifier::spinoff_prover]
#[verifier::rlimit(100)]
pub proof fn lemma_mutual_targets_mean_final_duel(s: Store, g: int, ki: int, ti: int)
    requires
        s.wf(),
        0 <= g < s.games@.len(),
        s.games@[g].status == crate::models::GameStatus::InProgress,
        0 <= ki < s.players@.len(),
        0 <= ti < s.players@.len(),
        ki != ti,
        s.players@[ki].game_id == s.games@[g].id,
        s.players@[ti].game_id == s.games@[g].id,
        s.players@[ki].is_alive,
        s.players@[ti].is_alive,
        s.players@[ki].target_id == Some(s.players@[ti].id),
        s.players@[ti].target_id == Some(s.players@[ki].id),
    ensures
        count_alive(s.players@, s.games@[g].id) == 2,
{
    let gid = s.games@[g].id;
    let ring = s.rings@[gid];
    let players = s.players@;
    let n = ring.len() as int;
    assert forall|a: int, b: int| 0 <= a < b < players.len() implies #[trigger] players[a].id
        != #[trigger] players[b].id by {
        assert(players[a].id < players[b].id);
    }
    lemma_ring_len_is_alive_count(players, gid, ring);
    let mk = lemma_member_edge(players, gid, ring, ki);
    let mt = lemma_member_edge(players, gid, ring, ti);
    assert(players[ki].id != players[ti].id);
    assert(mk != mt);
    assert(ring_next(ring, mk) == players[ti].id);
    assert(ring_next(ring, mt) == players[ki].id);
    if mk + 1 < n {
        assert(ring[mk + 1] == ring[mt]);
        assert(mt == mk + 1);
        if mt + 1 < n {
            assert(ring[mt + 1] == ring[mk]);
            assert(mk == mt + 1);
        } else {
            assert(ring[0] == ring[mk]);
            assert(mk == 0);
        }
    } else {
        assert(ring[0] == ring[mt]);
        assert(mt == 0);
        assert(mt + 1 < n || n == 1);
        assert(ring[mt + 1] == ring[mk]);
        assert(mk == mt + 1);
    }
}

/// Of two kill attempts on the same target, only the first can succeed:
/// a kill leaves the fallen target answering its secret at the very same
/// row, only no longer alive. Together with
/// [`lemma_kill_on_dead_target_fails`] and `process_kill`'s contract this
/// gives the race rule: after one successful kill, every further attempt on
/// the same secret is refused, deterministically, and changes nothing.
pub proof fn lemma_dead_target_still_answers_secret(
    players0: Seq<Player>,
    players1: Seq<Player>,
    gid: u64,
    secret: Seq<char>,
    ki: int,
    ti: int,
)
    requires
        crate::kill::kill_rows(players0, players1, ki, ti),
        is_first_member_by_secret(players0, gid, secret, ti),
    ensures
        is_first_member_by_secret(players1, gid, secret, ti),
        !players1[ti].is_alive,
{
    assert(crate::models::same_identity(players1[ti], players0[ti]));
    assert forall|k: int|
        0 <= k < ti implies !((#[trigger] players1[k]).game_id == gid
            && players1[k].secret_code@ == secret) by {
        if k != ki {
            assert(players1[k] == players0[k]);
        } else {
            assert(crate::models::same_identity(players1[ki], players0[ki]));
        }
    }
}

/// A kill aimed at a fallen member fails, whoever claims it: with the
/// secret resolving to a row that is no longer alive, the validation chain
/// stops with `Forbidden` — at the dead target, or even earlier at a dead
/// claimant — and by `process_kill`'s contract the store stays untouched.
#[verifier::spinoff_prover]
#[verifier::rlimit(100)]
pub proof fn lemma_kill_on_dead_target_fails(
    s: Store,
    code: Seq<char>,
    token: Seq<char>,
    secret: Seq<char>,
    g: int,
    ti: int,
)
    requires
        crate::codes::uuid_ok(secret),
        forall|i: int, j: int|
            0 <= i < j < s.games@.len() ==> (#[trigger] s.games@[i]).code@ != (
            #[trigger] s.games@[j]).code@,
        0 <= g < s.games@.len(),
        s.games@[g].code@ == code,
        is_first_member_by_secret(s.players@, s.games@[g].id, secret, ti),
        !s.players@[ti].is_alive,
        member_with_token(s.players@, s.games@[g].id, token),
    ensures
        s.kill_error(code, token, secret) == Some(AppError::Forbidden),
{
    let gid = s.games@[g].id;
    lemma_the_game_idx_is(s.games@, code, g);
    lemma_first_member_by_secret_is(s.players@, gid, secret, ti);
    let kb = first_member_by_token(s.players@, gid, token);
    assert(kill_validation(s.players@[kb], s.players@[ti], s.games@[g].status) == Some(
        AppError::Forbidden,
    ));
}

/// The credential discipline — folded keys and well-formed secrets — is
/// untouched by any change that keeps every row's identity: eliminations,
/// target reassignments and departures after the lobby all qualify, as the
/// operations' postconditions state row identity for them.
pub proof fn lemma_identity_rows_keep_discipline(players0: Seq<Player>, players1: Seq<Player>)
    requires
        players1.len() == players0.len(),
        forall|i: int|
            0 <= i < players0.len() ==> crate::models::same_identity(
                #[trigger] players1[i],
                players0[i],
            ),
    ensures
        keys_folded(players0) ==> keys_folded(players1),
        secrets_wellformed(players0) ==> secrets_wellformed(players1),
{
    if keys_folded(players0) {
        assert forall|i: int| 0 <= i < players1.len() implies (#[trigger] players1[i]).name_key@
            == lower_of(players1[i].name@) by {
            assert(crate::models::same_identity(players1[i], players0[i]));
        }
    }
    if secrets_wellformed(players0) {
        assert forall|i: int| 0 <= i < players1.len() implies (
        #[trigger] players1[i]).secret_code@.len() == 36 && crate::codes::uuid_ok(
            players1[i].secret_code@,
        ) by {
            assert(crate::models::same_identity(players1[i], players0[i]));
        }
    }
}

/// The credential discipline survives admitting one row whose key is the
/// fold of its name and whose secret has the generated shape — exactly
/// what the creation and join postconditions state of a new row.
pub proof fn lemma_pushed_row_keeps_discipline(players0: Seq<Player>, np: Player)
    ensures
        keys_folded(players0) && np.name_key@ == lower_of(np.name@) ==> keys_folded(
            players0.push(np),
        ),
        secrets_wellformed(players0) && np.secret_code@.len() == 36 && crate::codes::uuid_ok(
            np.secret_code@,
        ) ==> secrets_wellformed(players0.push(np)),
{
    let players1 = players0.push(np);
    if keys_folded(players0) && np.name_key@ == lower_of(np.name@) {
        assert forall|i: int| 0 <= i < players1.len() implies (#[trigger] players1[i]).name_key@
            == lower_of(players1[i].name@) by {
            if i < players0.len() {
                assert(players1[i] == players0[i]);
            } else {
                assert(players1[i] == np);
            }
        }
    }
    if secrets_wellformed(players0) && np.secret_code@.len() == 36 && crate::codes::uuid_ok(
        np.secret_code@,
    ) {
        assert forall|i: int| 0 <= i < players1.len() implies (
        #[trigger] players1[i]).secret_code@.len() == 36 && crate::codes::uuid_ok(
            players1[i].secret_code@,
        ) by {
            if i < players0.len() {
                assert(players1[i] == players0[i]);
            } else {
                assert(players1[i] == np);
            }
        }
    }
}

/// The credential discipline survives removing one row — a departure from
/// a lobby.
pub proof fn lemma_removed_row_keeps_discipline(players0: Seq<Player>, li: int)
    requires
        0 <= li < players0.len(),
    ensures
        keys_folded(players0) ==> keys_folded(players0.remove(li)),
        secrets_wellformed(players0) ==> secrets_wellformed(players0.remove(li)),
{
    let players1 = players0.remove(li);
    if keys_folded(players0) {
        assert forall|i: int| 0 <= i < players1.len() implies (#[trigger] players1[i]).name_key@
            == lower_of(players1[i].name@) by {
            if i < li {
                assert(players1[i] == players0[i]);
            } else {
                assert(players1[i] == players0[i + 1]);
            }
        }
    }
    if secrets_wellformed(players0) {
        assert forall|i: int| 0 <= i < players1.len() implies (
        #[trigger] players1[i]).secret_code@.len() == 36 && crate::codes::uuid_ok(
            players1[i].secret_code@,
        ) by {
            if i < li {
                assert(players1[i] == players0[i]);
            } else {
                assert(players1[i] == players0[i + 1]);
            }
        }
    }
}

/// The format check of `process_kill` never hides a stored secret: under
/// the secret discipline, whatever secret any row carries is one the
/// parser accepts, so a kill that presents a stored secret is never
/// refused as malformed.
pub proof fn lemma_format_gate_never_masks_a_stored_secret(players: Seq<Player>, i: int)
    requires
        0 <= i < players.len(),
    ensures
        secrets_wellformed(players) ==> crate::codes::uuid_ok(players[i].secret_code@),
{
}

/// Reconnection is idempotent: while the holder of a (case-insensitively)
/// taken name is alive in a lobby, a join under that name is accepted — it
/// returns that very member's identity unchanged and, by `join_game`'s
/// contract, adds no row.
#[verifier::spinoff_prover]
#[verifier::rlimit(100)]
pub proof fn lemma_reconnecting_join_is_accepted(s: Store, code: Seq<char>, name: Seq<char>)
    requires
        s.wf(),
        s.join_is_reconnect(code, name),
    ensures
        s.join_error(code, name) is None,
        s.players@[the_member_idx(
            s.players@,
            s.games@[the_game_idx(s.games@, code)].id,
            lower_of(name),
        )].is_alive,
{
    let g = the_game_idx(s.games@, code);
    let gid = s.games@[g].id;
    assert(code_taken(s.games@, code));
    let t = the_game_idx(s.games@, code);
    assert(0 <= t < s.games@.len() && s.games@[t].code@ == code);
    let j = the_member_idx(s.players@, gid, lower_of(name));
    assert(member_with_key(s.players@, gid, lower_of(name)));
    assert(0 <= j < s.players@.len() && s.players@[j].game_id == gid && s.players@[j].name_key@
        == lower_of(name));
    // a lobby member is always alive
    assert(s.players@[j].is_alive);
}

/// A name just taken stays taken: after a join has created a new member
/// under `name`, a further join under the same name is a reconnection —
/// accepted, and answering with the existing member's identity.
#[verifier::spinoff_prover]
#[verifier::rlimit(100)]
pub proof fn lemma_join_then_rejoin_reconnects(
    s0: Store,
    s1: Store,
    code: Seq<char>,
    name: Seq<char>,
    np: Player,
)
    requires
        s0.wf(),
        s1.wf(),
        code_taken(s0.games@, code),
        s0.games@[the_game_idx(s0.games@, code)].status == crate::models::GameStatus::Lobby,
        s1.games@ == s0.games@,
        s1.players@ == s0.players@.push(np),
        np.game_id == s0.games@[the_game_idx(s0.games@, code)].id,
        np.name_key@ == lower_of(name),
        np.is_alive,
    ensures
        s1.join_is_reconnect(code, name),
        s1.join_error(code, name) is None,
{
    let g = the_game_idx(s0.games@, code);
    let gid = s0.games@[g].id;
    assert(0 <= g < s0.games@.len() && s0.games@[g].code@ == code);
    assert(the_game_idx(s1.games@, code) == g);
    assert(member_with_key(s1.players@, gid, lower_of(name))) by {
        assert(s1.players@[s0.players@.len() as int] == np);
    }
    assert(s1.join_is_reconnect(code, name));
    lemma_reconnecting_join_is_accepted(s1, code, name);
}

} // verus!
