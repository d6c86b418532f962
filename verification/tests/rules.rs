use hitman::codes::{generate_game_code, secret_format_ok};
use hitman::errors::AppError;
use hitman::models::GameStatus;
use hitman::store::Store;

#[test]
fn scenario_host_kills_guest() {
    // create with "Host", join "Guest", start: the two target each other;
    // Host kills Guest with Guest's secret and the game is over
    let mut store = Store::new();
    let created = store.create_game("Host".to_string()).unwrap();
    let code = created.game_code.clone();
    let joined = store.join_game(code.clone(), "Guest".to_string()).unwrap();

    let rows = store.start_game_by_token(&code, &created.auth_token.clone()).unwrap();
    let host_row = rows.iter().find(|p| p.name == "Host").unwrap();
    let guest_row = rows.iter().find(|p| p.name == "Guest").unwrap();
    assert_eq!(host_row.target_id, Some(guest_row.id));
    assert_eq!(guest_row.target_id, Some(host_row.id));

    let kill = store
        .process_kill(&code, &created.auth_token.clone(), &joined.player_secret.clone())
        .unwrap();
    assert!(kill.game_over);
    assert!(kill.new_target_name.is_none());
    assert_eq!(kill.eliminated_player_name, "Guest");

    let game = store.get_game_by_code(&code).unwrap();
    let final_rows = store.get_players_by_game_id(game.id);
    assert!(!final_rows.iter().find(|p| p.name == "Guest").unwrap().is_alive);
}

#[test]
fn twenty_kills_leave_ten_survivors_on_one_cycle() {
    // 30 players started; after 20 sequential valid kills by whoever holds a
    // live target, exactly 10 remain alive and still form a single cycle
    let mut store = Store::new();
    let created = store.create_game("Runner_1".to_string()).unwrap();
    let code = created.game_code.clone();
    let mut creds = vec![(created.auth_token.clone(), created.player_secret.clone())];
    for i in 2..=30 {
        let joined = store.join_game(code.clone(), format!("Runner_{}", i)).unwrap();
        creds.push((joined.auth_token.clone(), joined.player_secret.clone()));
    }
    store.start_game_by_token(&code, &creds[0].0.clone()).unwrap();
    let game = store.get_game_by_code(&code).unwrap();

    let mut kills = 0;
    let mut idx = 0;
    while kills < 20 {
        let rows = store.get_players_by_game_id(game.id);
        let (token, _) = &creds[idx % creds.len()];
        let killer = rows.iter().find(|p| &p.auth_token == token).unwrap();
        if killer.is_alive && killer.target_id.is_some() {
            let target = rows.iter().find(|p| p.id == killer.target_id.unwrap()).unwrap();
            let secret = target.secret_code.clone();
            let kill = store.process_kill(&code, &token.clone(), &secret).unwrap();
            assert!(!kill.game_over);
            kills += 1;
        }
        idx += 1;
    }

    let rows = store.get_players_by_game_id(game.id);
    let alive: Vec<_> = rows.iter().filter(|p| p.is_alive).collect();
    assert_eq!(alive.len(), 10);
    // following targets from any survivor walks a single closed cycle over
    // all ten of them
    let mut seen = std::collections::HashSet::new();
    let mut current = alive[0];
    for _ in 0..10 {
        assert!(seen.insert(current.id), "cycle revisited a player too early");
        let next_id = current.target_id.expect("every survivor must have a target");
        let next = alive.iter().find(|p| p.id == next_id);
        current = next.expect("a survivor targets someone no longer alive");
    }
    assert_eq!(current.id, alive[0].id, "the cycle must close after ten steps");
    assert_eq!(seen.len(), 10);
}

#[test]
fn start_with_one_player_is_unprocessable() {
    let mut store = Store::new();
    let created = store.create_game("Solo".to_string()).unwrap();
    let r = store.start_game_by_token(&created.game_code.clone(), &created.auth_token.clone());
    assert_eq!(r.unwrap_err(), AppError::UnprocessableEntity);
}

#[test]
fn malformed_secret_is_rejected_before_anything_else() {
    let mut store = Store::new();
    let created = store.create_game("Host".to_string()).unwrap();
    let code = created.game_code.clone();
    store.join_game(code.clone(), "Guest".to_string()).unwrap();
    store.start_game_by_token(&code, &created.auth_token.clone()).unwrap();
    let before = store.get_game_version(&code);
    let r = store.process_kill(&code, &created.auth_token.clone(), &"not-a-secret".to_string());
    assert_eq!(r.unwrap_err(), AppError::UnprocessableEntity);
    // the rejected attempt touched nothing, not even the change counter
    assert_eq!(store.get_game_version(&code), before);
    assert!(!secret_format_ok("not-a-secret"));
    assert!(secret_format_ok(&created.player_secret));
    assert_eq!(created.player_secret.len(), 36);
    assert_eq!(created.auth_token.len(), 36);
}

#[test]
fn second_kill_on_same_target_is_forbidden() {
    let mut store = Store::new();
    let created = store.create_game("First".to_string()).unwrap();
    let code = created.game_code.clone();
    let second = store.join_game(code.clone(), "Second".to_string()).unwrap();
    let third = store.join_game(code.clone(), "Third".to_string()).unwrap();
    store.start_game_by_token(&code, &created.auth_token.clone()).unwrap();

    let game = store.get_game_by_code(&code).unwrap();
    let rows = store.get_players_by_game_id(game.id);
    let first_row = rows.iter().find(|p| p.name == "First").unwrap();
    let target_row = rows.iter().find(|p| p.id == first_row.target_id.unwrap()).unwrap();
    let target_secret = target_row.secret_code.clone();

    store.process_kill(&code, &created.auth_token.clone(), &target_secret).unwrap();
    // the same secret now names a dead player: everyone is refused
    for token in [&created.auth_token, &second.auth_token, &third.auth_token] {
        let r = store.process_kill(&code, &token.clone(), &target_secret.clone());
        assert_eq!(r.unwrap_err(), AppError::Forbidden);
    }
}

#[test]
fn join_is_idempotent_for_alive_reconnection() {
    let mut store = Store::new();
    let created = store.create_game("Casey".to_string()).unwrap();
    let code = created.game_code.clone();
    let first = store.join_game(code.clone(), "Morgan".to_string()).unwrap();
    // the same name again, in any casing, reconnects: same identity, no new row
    let again = store.join_game(code.clone(), "MORGAN".to_string()).unwrap();
    assert_eq!(again.player_id, first.player_id);
    assert_eq!(again.player_secret, first.player_secret);
    assert_eq!(again.auth_token, first.auth_token);
    assert_eq!(again.players.len(), 2);
}

#[test]
fn join_after_elimination_is_forbidden() {
    let mut store = Store::new();
    let created = store.create_game("Hunter".to_string()).unwrap();
    let code = created.game_code.clone();
    store.join_game(code.clone(), "Prey".to_string()).unwrap();
    store.start_game_by_token(&code, &created.auth_token.clone()).unwrap();
    // no joining once the game has started
    let r = store.join_game(code.clone(), "Latecomer".to_string());
    assert_eq!(r.unwrap_err(), AppError::UnprocessableEntity);
}

#[test]
fn join_unknown_game_is_not_found() {
    let mut store = Store::new();
    store.create_game("Somebody".to_string()).unwrap();
    let r = store.join_game("O0O0".to_string(), "Nobody".to_string());
    assert_eq!(r.unwrap_err(), AppError::NotFound);
}

#[test]
fn kill_with_unknown_token_is_unauthorized() {
    let mut store = Store::new();
    let created = store.create_game("Host".to_string()).unwrap();
    let code = created.game_code.clone();
    store.join_game(code.clone(), "Guest".to_string()).unwrap();
    store.start_game_by_token(&code, &created.auth_token.clone()).unwrap();
    let r = store.process_kill(&code, &hitman::codes::new_auth_token(), &created.player_secret.clone());
    assert_eq!(r.unwrap_err(), AppError::Unauthorized);
}

#[test]
fn kill_in_lobby_is_unprocessable() {
    let mut store = Store::new();
    let created = store.create_game("Host".to_string()).unwrap();
    let code = created.game_code.clone();
    let joined = store.join_game(code.clone(), "Guest".to_string()).unwrap();
    let r = store.process_kill(&code, &created.auth_token.clone(), &joined.player_secret.clone());
    assert_eq!(r.unwrap_err(), AppError::UnprocessableEntity);
}

#[test]
fn leaving_a_lobby_hands_the_host_role_on() {
    let mut store = Store::new();
    let created = store.create_game("Founder".to_string()).unwrap();
    let code = created.game_code.clone();
    let second = store.join_game(code.clone(), "Settler".to_string()).unwrap();
    store.join_game(code.clone(), "Visitor".to_string()).unwrap();

    store.leave_game(&code, &created.auth_token.clone()).unwrap();
    let game = store.get_game_by_code(&code).unwrap();
    assert_eq!(game.host_id, second.player_id, "the earliest remaining member hosts");
    let rows = store.get_players_by_game_id(game.id);
    assert_eq!(rows.len(), 2);
    assert!(rows.iter().all(|p| p.name != "Founder"));
}

#[test]
fn last_member_leaving_deletes_the_lobby() {
    let mut store = Store::new();
    let created = store.create_game("Loner".to_string()).unwrap();
    let code = created.game_code.clone();
    store.leave_game(&code, &created.auth_token.clone()).unwrap();
    assert!(store.get_game_by_code(&code).is_none());
}

#[test]
fn leaving_mid_game_splices_the_ring() {
    let mut store = Store::new();
    let created = store.create_game("Stayer_1".to_string()).unwrap();
    let code = created.game_code.clone();
    let mut tokens = vec![("Stayer_1".to_string(), created.auth_token.clone())];
    for i in 2..=4 {
        let name = format!("Stayer_{}", i);
        let joined = store.join_game(code.clone(), name.clone()).unwrap();
        tokens.push((name, joined.auth_token.clone()));
    }
    store.start_game_by_token(&code, &created.auth_token.clone()).unwrap();
    let game = store.get_game_by_code(&code).unwrap();

    let rows = store.get_players_by_game_id(game.id);
    let leaver = rows.iter().find(|p| p.name == "Stayer_3").unwrap();
    let pred = rows.iter().find(|p| p.target_id == Some(leaver.id)).unwrap();
    let leaver_target = leaver.target_id.unwrap();
    let leaver_token = tokens.iter().find(|t| t.0 == "Stayer_3").unwrap().1.clone();

    store.leave_game(&code, &leaver_token).unwrap();
    let rows_after = store.get_players_by_game_id(game.id);
    let leaver_after = rows_after.iter().find(|p| p.name == "Stayer_3").unwrap();
    assert!(!leaver_after.is_alive);
    let pred_after = rows_after.iter().find(|p| p.id == pred.id).unwrap();
    assert_eq!(pred_after.target_id, Some(leaver_target), "the predecessor inherits the leaver's target");
    assert_eq!(rows_after.iter().filter(|p| p.is_alive).count(), 3);
}

#[test]
fn version_counter_moves_with_every_change() {
    let mut store = Store::new();
    let created = store.create_game("Watcher".to_string()).unwrap();
    let code = created.game_code.clone();
    let v1 = store.get_game_version(&code);
    assert_eq!(v1, 1);
    let poll = store.check_for_changes(&code, v1);
    assert!(!poll.changed);
    store.join_game(code.clone(), "Other".to_string()).unwrap();
    let poll2 = store.check_for_changes(&code, v1);
    assert!(poll2.changed);
    assert_eq!(poll2.current_version, 2);
    assert_eq!(store.bump_game_version(&code), 3);
    assert_eq!(store.get_game_version(&"UNSEEN".to_string()), 0);
}

#[test]
fn game_state_hides_other_players_secrets() {
    let mut store = Store::new();
    let created = store.create_game("Viewer".to_string()).unwrap();
    let code = created.game_code.clone();
    store.join_game(code.clone(), "Other".to_string()).unwrap();
    let state = store.get_game_state(&code, &created.auth_token.clone()).unwrap();
    assert_eq!(state.players.len(), 2);
    let own = state.players.iter().find(|p| p.name == "Viewer").unwrap();
    let other = state.players.iter().find(|p| p.name == "Other").unwrap();
    assert_eq!(own.secret_code.as_deref(), Some(created.player_secret.as_str()));
    assert!(other.secret_code.is_none());
}

#[test]
fn generated_game_codes_use_the_unambiguous_charset() {
    for _ in 0..50 {
        let code = generate_game_code(4);
        assert_eq!(code.len(), 4);
        for c in code.chars() {
            let ok = (c.is_ascii_uppercase() && c != 'O') || (c.is_ascii_digit() && c != '0');
            assert!(ok, "unexpected game-code character: {}", c);
        }
    }
}

#[test]
fn name_folding_is_case_insensitive() {
    let mut store = Store::new();
    let created = store.create_game("Ada".to_string()).unwrap();
    let code = created.game_code.clone();
    let game = store.get_game_by_code(&code).unwrap();
    let found = store.get_player_by_name(game.id, &"aDa".to_string());
    assert_eq!(found.unwrap().name, "Ada");
    assert!(store.get_player_by_name(game.id, &"Eve".to_string()).is_none());
}

#[test]
fn game_status_labels() {
    assert_eq!(GameStatus::Lobby.label(), "LOBBY");
    assert_eq!(GameStatus::InProgress.label(), "IN_PROGRESS");
    assert_eq!(GameStatus::Finished.label(), "FINISHED");
    assert_eq!(AppError::NotFound.status_code(), 404);
    assert_eq!(AppError::InternalServerError.status_code(), 500);
    assert_eq!(AppError::Unauthorized.status_code(), 401);
}

#[test]
fn all_games_lists_codes_and_member_counts() {
    let mut store = Store::new();
    let a = store.create_game("One".to_string()).unwrap();
    let b = store.create_game("Two".to_string()).unwrap();
    store.join_game(b.game_code.clone(), "Three".to_string()).unwrap();
    let infos = store.get_all_games();
    assert_eq!(infos.len(), 2);
    assert_eq!(infos[0].code, a.game_code);
    assert_eq!(infos[0].player_count, 1);
    assert_eq!(infos[1].code, b.game_code);
    assert_eq!(infos[1].player_count, 2);
    assert_eq!(infos[0].status, GameStatus::Lobby);
}
