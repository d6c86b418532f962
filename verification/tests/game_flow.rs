use hitman::models::{GameStatus, Player};
use hitman::store::Store;

fn setup_game_with_n_players(store: &mut Store, num_players: usize) -> (String, Vec<(String, String, String)>) {
    assert!(num_players > 0, "Cannot setup a game with zero players.");
    let host_name = format!("Player_{}", 1);
    let created = store.create_game(host_name.clone()).unwrap();
    let game_code = created.game_code.clone();
    let mut players = vec![(host_name, created.auth_token.clone(), created.player_secret.clone())];
    for i in 2..=num_players {
        let player_name = format!("Player_{}", i);
        let joined = store.join_game(game_code.clone(), player_name.clone()).unwrap();
        players.push((player_name, joined.auth_token.clone(), joined.player_secret.clone()));
    }
    (game_code, players)
}

fn row_by_name<'a>(rows: &'a [Player], name: &str) -> &'a Player {
    rows.iter().find(|p| p.name == name).unwrap()
}

fn name_of_id(rows: &[Player], id: u64) -> String {
    rows.iter().find(|p| p.id == id).unwrap().name.clone()
}

fn target_name_of(rows: &[Player], name: &str) -> String {
    let row = row_by_name(rows, name);
    name_of_id(rows, row.target_id.unwrap())
}

fn secret_of<'a>(players: &'a [(String, String, String)], name: &str) -> &'a str {
    &players.iter().find(|p| p.0 == name).unwrap().2
}

fn token_of<'a>(players: &'a [(String, String, String)], name: &str) -> &'a str {
    &players.iter().find(|p| p.0 == name).unwrap().1
}

#[test]
fn test_create_game() {
    let mut store = Store::new();
    let created = store.create_game("The Host".to_string()).expect("create_game failed");
    assert!(!created.game_code.is_empty());
    assert_eq!(created.players.len(), 1);
    assert_eq!(created.players[0].name, "The Host");
}

#[test]
fn test_join_game() {
    let mut store = Store::new();
    let (game_code, players) = setup_game_with_n_players(&mut store, 2);
    let game = store.get_game_by_code(&game_code).unwrap();
    let players_in_game = store.get_players_by_game_id(game.id);
    assert_eq!(players_in_game.len(), 2);
    assert!(players.iter().all(|p| players_in_game.iter().any(|pig| pig.name == p.0)));
}

#[test]
fn test_start_game_success() {
    let mut store = Store::new();
    let (game_code, players) = setup_game_with_n_players(&mut store, 2);
    let host_token = token_of(&players, "Player_1").to_string();
    let started = store
        .start_game_by_token(&game_code, &host_token)
        .expect("host should be able to start the game");
    let host = row_by_name(&started, "Player_1");
    let player_2 = row_by_name(&started, "Player_2");
    assert!(host.target_id.is_some(), "Host should have a target.");
    assert!(player_2.target_id.is_some(), "Player 2 should have a target.");
    assert_ne!(
        host.target_id, player_2.target_id,
        "Targets should be different."
    );
}

#[test]
fn test_start_game_by_non_host_fails() {
    let mut store = Store::new();
    let (game_code, players) = setup_game_with_n_players(&mut store, 2);
    let non_host_token = token_of(&players, "Player_2").to_string();
    let r = store.start_game_by_token(&game_code, &non_host_token);
    assert_eq!(
        r.unwrap_err().status_code(),
        403,
        "Non-host player should not be able to start the game."
    );
}

#[test]
fn test_large_game_target_assignment() {
    let mut store = Store::new();
    let num_players = 30;
    let (game_code, players) = setup_game_with_n_players(&mut store, num_players);
    let host_token = players[0].1.clone();
    store.start_game_by_token(&game_code, &host_token).unwrap();

    let game = store.get_game_by_code(&game_code).unwrap();
    let rows = store.get_players_by_game_id(game.id);
    assert_eq!(rows.len(), num_players);

    // every player has a target
    assert!(
        rows.iter().all(|p| p.target_id.is_some()),
        "Not all players were assigned a target."
    );

    // all targets are unique
    let mut target_ids = std::collections::HashSet::new();
    for row in &rows {
        let target_id = row.target_id.unwrap();
        assert!(
            target_ids.insert(target_id),
            "Duplicate target found: {}",
            target_id
        );
    }
    assert_eq!(
        target_ids.len(),
        num_players,
        "The number of unique targets should match the number of players."
    );

    // no two players target each other
    for row_a in &rows {
        let target_of_a = target_name_of(&rows, &row_a.name);
        let target_of_b = target_name_of(&rows, &target_of_a);
        assert_ne!(
            row_a.name, target_of_b,
            "Found a reciprocal target: {} and {} are targeting each other.",
            row_a.name, target_of_a
        );
    }
}

#[test]
fn test_kill_and_target_reassignment() {
    let mut store = Store::new();
    let (game_code, players) = setup_game_with_n_players(&mut store, 3);
    let host_token = players[0].1.clone();
    store.start_game_by_token(&game_code, &host_token).unwrap();

    let game = store.get_game_by_code(&game_code).unwrap();
    let rows = store.get_players_by_game_id(game.id);
    let killer_name = "Player_1";
    let target_name = target_name_of(&rows, killer_name);
    let killer_token = token_of(&players, killer_name).to_string();
    let target_secret = secret_of(&players, &target_name).to_string();

    let kill = store.process_kill(&game_code, &killer_token, &target_secret).unwrap();
    assert_eq!(kill.killer_name, killer_name);
    assert_eq!(kill.eliminated_player_name, target_name);
    assert!(!kill.game_over);
    assert!(kill.new_target_name.is_some());
    assert_ne!(kill.new_target_name.as_deref(), Some(target_name.as_str()));

    let final_rows = store.get_players_by_game_id(game.id);
    let killer_final = row_by_name(&final_rows, killer_name);
    let reported = kill.new_target_name.unwrap();
    assert_eq!(name_of_id(&final_rows, killer_final.target_id.unwrap()), reported);
}

#[test]
fn test_invalid_kill_wrong_target() {
    let mut store = Store::new();
    let (game_code, players) = setup_game_with_n_players(&mut store, 3);
    let host_token = players[0].1.clone();
    store.start_game_by_token(&game_code, &host_token).unwrap();

    let game = store.get_game_by_code(&game_code).unwrap();
    let rows = store.get_players_by_game_id(game.id);
    let p1_target = target_name_of(&rows, "Player_1");
    let wrong_target = players
        .iter()
        .find(|p| p.0 != p1_target && p.0 != "Player_1")
        .unwrap();
    let p1_token = players[0].1.clone();
    let r = store.process_kill(&game_code, &p1_token, &wrong_target.2.clone());
    assert_eq!(
        r.unwrap_err().status_code(),
        403,
        "Should not be able to kill a player who is not the target."
    );
}

#[test]
fn test_winning_kill() {
    let mut store = Store::new();
    let (game_code, players) = setup_game_with_n_players(&mut store, 2);
    let host_token = players[0].1.clone();
    store.start_game_by_token(&game_code, &host_token).unwrap();

    let game = store.get_game_by_code(&game_code).unwrap();
    let rows = store.get_players_by_game_id(game.id);
    let winner_name = "Player_1";
    let loser_name = target_name_of(&rows, winner_name);
    let winner_token = token_of(&players, winner_name).to_string();
    let loser_secret = secret_of(&players, &loser_name).to_string();

    let kill = store.process_kill(&game_code, &winner_token, &loser_secret).unwrap();
    assert_eq!(kill.killer_name, winner_name);
    assert_eq!(kill.eliminated_player_name, loser_name);
    assert!(kill.game_over);
    assert!(kill.new_target_name.is_none());

    let final_rows = store.get_players_by_game_id(game.id);
    let winner_final = row_by_name(&final_rows, winner_name);
    let loser_final = row_by_name(&final_rows, &loser_name);
    assert!(winner_final.is_alive);
    assert!(!loser_final.is_alive);
    assert!(winner_final.target_id.is_none(), "Winner should have no target.");
    let final_game = store.get_game_by_code(&game_code).unwrap();
    assert_eq!(final_game.status, GameStatus::Finished);
    assert_eq!(final_game.winner_id, Some(winner_final.id));
}

#[test]
fn test_game_with_many_players() {
    let mut store = Store::new();
    let num_players = 333;
    let (game_code, players) = setup_game_with_n_players(&mut store, num_players);
    let host_token = players[0].1.clone();
    store.start_game_by_token(&game_code, &host_token).unwrap();
    let game = store.get_game_by_code(&game_code).unwrap();

    let num_kills_to_perform = 111;
    let mut num_kills_performed = 0;
    let mut killer_player_index = 0;

    while num_kills_performed < num_kills_to_perform {
        let rows = store.get_players_by_game_id(game.id);
        let killer = &players[killer_player_index];
        let killer_row = rows
            .iter()
            .find(|p| p.name == killer.0)
            .expect("Killer not found in game state");
        if killer_row.is_alive {
            let target_name = name_of_id(&rows, killer_row.target_id.unwrap());
            let target_secret = secret_of(&players, &target_name).to_string();
            let kill = store.process_kill(&game_code, &killer.1.clone(), &target_secret).unwrap();
            assert_eq!(kill.killer_name, killer.0);
            assert_eq!(kill.eliminated_player_name, target_name);
            assert!(!kill.game_over);
            num_kills_performed += 1;
        }
        killer_player_index += 1;
        if killer_player_index >= players.len() {
            panic!("Ran out of players to be killers before reaching the desired number of kills.");
        }
    }

    let final_rows = store.get_players_by_game_id(game.id);
    let alive_players = final_rows.iter().filter(|p| p.is_alive).count();
    assert_eq!(
        alive_players,
        num_players - num_kills_to_perform,
        "The number of alive players should be the initial number of players minus the number of kills."
    );
}
