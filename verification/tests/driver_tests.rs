use pw_engine::barrier::Barrier;
use pw_engine::driver::{Client, CommandError, Config, PlayerMessage, PwController};
use pw_engine::protocol::{Action, Command};
use pw_engine::rules::Planet;

fn planet(name: &str, owner: Option<usize>, ship_count: u64) -> Planet {
    Planet { name: name.to_string(), owner, ship_count }
}

fn client(id: usize, name: &str) -> Client {
    Client { id, player_name: name.to_string() }
}

fn two_player_controller() -> PwController {
    let conf = Config {
        planets: vec![
            planet("alpha", Some(0), 10),
            planet("beta", Some(1), 8),
            planet("gamma", None, 3),
        ],
        max_turns: 50,
    };
    PwController::new(conf, vec![client(0, "ada"), client(1, "grace")])
}

fn cmd(origin: &str, destination: &str, ship_count: u64) -> Command {
    Command { origin: origin.to_string(), destination: destination.to_string(), ship_count }
}

#[test]
fn validation_accepts_a_legal_move() {
    let c = two_player_controller();
    let d = c.parse_command(0, &cmd("alpha", "beta", 4)).unwrap();
    assert_eq!(d.origin, 0);
    assert_eq!(d.target, 1);
    assert_eq!(d.ship_count, 4);
}

#[test]
fn validation_rejects_unknown_origin() {
    let c = two_player_controller();
    assert_eq!(
        c.parse_command(0, &cmd("delta", "beta", 1)),
        Err(CommandError::OriginDoesNotExist)
    );
}

#[test]
fn validation_rejects_unknown_destination() {
    let c = two_player_controller();
    assert_eq!(
        c.parse_command(0, &cmd("alpha", "delta", 1)),
        Err(CommandError::DestinationDoesNotExist)
    );
}

#[test]
fn validation_rejects_foreign_origin() {
    let c = two_player_controller();
    assert_eq!(c.parse_command(0, &cmd("beta", "alpha", 1)), Err(CommandError::OriginNotOwned));
    assert_eq!(c.parse_command(0, &cmd("gamma", "alpha", 1)), Err(CommandError::OriginNotOwned));
}

#[test]
fn validation_rejects_overdraft() {
    let c = two_player_controller();
    assert_eq!(c.parse_command(0, &cmd("alpha", "beta", 11)), Err(CommandError::NotEnoughShips));
}

#[test]
fn validation_rejects_zero_ship_move() {
    let c = two_player_controller();
    assert_eq!(c.parse_command(0, &cmd("alpha", "beta", 0)), Err(CommandError::ZeroShipMove));
}

#[test]
fn unknown_origin_takes_precedence_over_destination() {
    let c = two_player_controller();
    assert_eq!(
        c.parse_command(0, &cmd("delta", "epsilon", 1)),
        Err(CommandError::OriginDoesNotExist)
    );
}

#[test]
fn exhaustion_order_decides_between_competing_commands() {
    // Two commands each requesting alpha's entire garrison: the first one
    // processed wins, the second fails on the emptied garrison.
    let mut c = two_player_controller();
    let action = Action { commands: vec![cmd("alpha", "beta", 10), cmd("alpha", "beta", 10)] };
    let verdicts = c.execute_action(0, &action);
    assert_eq!(verdicts, vec![None, Some(CommandError::NotEnoughShips)]);
    assert_eq!(c.state.planets[0].ship_count, 0);
}

#[test]
fn invalid_command_does_not_abort_the_rest() {
    let mut c = two_player_controller();
    let action = Action {
        commands: vec![cmd("delta", "beta", 1), cmd("alpha", "beta", 2), cmd("alpha", "beta", 0)],
    };
    let verdicts = c.execute_action(0, &action);
    assert_eq!(
        verdicts,
        vec![Some(CommandError::OriginDoesNotExist), None, Some(CommandError::ZeroShipMove)]
    );
    assert_eq!(c.state.planets[0].ship_count, 8);
    assert_eq!(c.state.expeditions.len(), 1);
}

#[test]
fn round_close_moves_the_resources() {
    let mut c = two_player_controller();
    let mut lock = Barrier::new(&vec![0, 1]);
    let msgs = vec![
        PlayerMessage { player: 0, action: Some(Action { commands: vec![cmd("alpha", "beta", 5)] }) },
    ];
    let (reports, _views) = c.step(&mut lock, &msgs);
    assert_eq!(reports.len(), 1);
    // Regeneration first: alpha 10+1, beta 8+1, gamma unowned stays 3.
    // Then 5 ships leave alpha; then the fleet lands on hostile beta (9 > 5).
    assert_eq!(c.state.planets[0].ship_count, 6);
    assert_eq!(c.state.planets[0].owner, Some(0));
    assert_eq!(c.state.planets[1].ship_count, 4);
    assert_eq!(c.state.planets[1].owner, Some(1));
    assert_eq!(c.state.planets[2].ship_count, 3);
    assert_eq!(c.state.planets[2].owner, None);
    assert_eq!(c.state.expeditions.len(), 0);
    assert_eq!(c.state.turn, 1);
}

#[test]
fn a_larger_fleet_takes_a_hostile_planet() {
    let mut c = two_player_controller();
    let mut lock = Barrier::new(&vec![0, 1]);
    let msgs = vec![
        PlayerMessage {
            player: 0,
            action: Some(Action { commands: vec![cmd("alpha", "gamma", 11)] }),
        },
    ];
    let (_reports, _views) = c.step(&mut lock, &msgs);
    // alpha regenerated to 11, emptied; gamma (neutral garrison 3) falls: 11 - 3.
    assert_eq!(c.state.planets[2].owner, Some(0));
    assert_eq!(c.state.planets[2].ship_count, 8);
}

#[test]
fn close_round_is_deterministic() {
    let build = || {
        let mut c = two_player_controller();
        let mut lock = Barrier::new(&vec![0, 1]);
        let msgs = vec![
            PlayerMessage {
                player: 0,
                action: Some(Action { commands: vec![cmd("alpha", "beta", 5)] }),
            },
            PlayerMessage {
                player: 1,
                action: Some(Action { commands: vec![cmd("beta", "alpha", 2)] }),
            },
        ];
        let _ = c.step(&mut lock, &msgs);
        c
    };
    let a = build();
    let b = build();
    assert_eq!(a.state.turn, b.state.turn);
    assert_eq!(a.state.planets.len(), b.state.planets.len());
    for (pa, pb) in a.state.planets.iter().zip(b.state.planets.iter()) {
        assert_eq!(pa.name, pb.name);
        assert_eq!(pa.owner, pb.owner);
        assert_eq!(pa.ship_count, pb.ship_count);
    }
    assert_eq!(a.state.alive, b.state.alive);
}

#[test]
fn views_are_rotated_so_the_viewer_is_player_zero() {
    let conf = Config {
        planets: vec![
            planet("alpha", Some(0), 10),
            planet("beta", Some(1), 8),
            planet("gamma", Some(2), 6),
        ],
        max_turns: 50,
    };
    let c = PwController::new(
        conf,
        vec![client(0, "ada"), client(1, "grace"), client(2, "edsger")],
    );
    let mut lock = Barrier::new(&vec![0, 1, 2]);
    let views = c.init(&mut lock);
    assert_eq!(views.len(), 3);
    for (viewer, view) in &views {
        // The viewer's own planet must show owner 0.
        assert_eq!(view.planets[*viewer].owner, Some(0));
    }
    let for_player_1 = views.iter().find(|(p, _)| *p == 1).map(|(_, v)| v).unwrap();
    // With 3 players, player 1 sees owners shifted by 2: 0 -> 2, 1 -> 0, 2 -> 1.
    assert_eq!(for_player_1.planets[0].owner, Some(2));
    assert_eq!(for_player_1.planets[1].owner, Some(0));
    assert_eq!(for_player_1.planets[2].owner, Some(1));
    assert_eq!(for_player_1.planets[0].name, "alpha");
    assert_eq!(for_player_1.turn, 0);
}

#[test]
fn outcome_appears_only_at_the_terminal_condition() {
    let conf = Config { planets: vec![planet("alpha", Some(0), 10)], max_turns: 1 };
    let mut c = PwController::new(conf, vec![client(0, "ada"), client(1, "grace")]);
    assert!(c.outcome().is_none());
    let mut lock = Barrier::new(&vec![0, 1]);
    let _ = c.step(&mut lock, &vec![]);
    // Turn bound reached; player 1 owns nothing and is eliminated.
    assert_eq!(c.outcome(), Some(vec![0]));
}

#[test]
fn disconnect_stops_addressing_the_client() {
    let mut c = two_player_controller();
    c.handle_disconnect(0);
    let mut lock = Barrier::new(&vec![0, 1]);
    let views = c.init(&mut lock);
    assert_eq!(views.len(), 1);
    assert_eq!(views[0].0, 1);
    // The player entity itself lives on.
    assert_eq!(c.state.alive, vec![true, true]);
}

#[test]
fn a_full_garrison_saturates_instead_of_overflowing() {
    let conf = Config {
        planets: vec![planet("alpha", Some(0), u64::MAX), planet("beta", Some(1), 1)],
        max_turns: 50,
    };
    let mut c = PwController::new(conf, vec![client(0, "ada"), client(1, "grace")]);
    let mut lock = Barrier::new(&vec![0, 1]);
    let _ = c.step(&mut lock, &vec![]);
    // Regeneration on a full garrison caps at the maximum.
    assert_eq!(c.state.planets[0].ship_count, u64::MAX);
    assert_eq!(c.state.planets[1].ship_count, 2);
}

#[test]
fn an_empty_round_still_advances_the_turn() {
    let mut c = two_player_controller();
    let mut lock = Barrier::new(&vec![0, 1]);
    let (reports, views) = c.step(&mut lock, &vec![]);
    assert_eq!(reports.len(), 0);
    assert_eq!(c.state.turn, 1);
    assert_eq!(views.len(), 2);
}

#[test]
fn game_info_lists_the_roster_names() {
    let c = two_player_controller();
    let info = c.game_info();
    assert_eq!(info.players, vec!["ada".to_string(), "grace".to_string()]);
}
