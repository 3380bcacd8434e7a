use pw_engine::driver::{Client, Config, MessageOutcome};
use pw_engine::protocol::{Action, Command};
use pw_engine::rules::Planet;
use pw_engine::session::{Controller, Message, SessionEnd, StepOutcome};

fn planet(name: &str, owner: Option<usize>, ship_count: u64) -> Planet {
    Planet { name: name.to_string(), owner, ship_count }
}

fn client(id: usize, name: &str) -> Client {
    Client { id, player_name: name.to_string() }
}

fn cmd(origin: &str, destination: &str, ship_count: u64) -> Command {
    Command { origin: origin.to_string(), destination: destination.to_string(), ship_count }
}

fn three_player_session() -> Controller {
    let conf = Config {
        planets: vec![
            planet("alpha", Some(0), 10),
            planet("beta", Some(1), 8),
            planet("gamma", Some(2), 6),
        ],
        max_turns: 50,
    };
    Controller::new(
        vec![client(0, "ada"), client(1, "grace"), client(2, "edsger")],
        conf,
    )
}

#[test]
fn end_to_end_round_with_disconnect_and_garbage() {
    let mut s = three_player_session();
    let views = s.start();
    assert_eq!(views.len(), 3);
    assert!(matches!(s.do_step(), StepOutcome::NotReady));

    // Player 0 submits a legal move.
    s.handle_message(
        0,
        Message::Data(Some(Action { commands: vec![cmd("alpha", "beta", 5)] })),
    );
    assert!(matches!(s.do_step(), StepOutcome::NotReady));

    // Player 1 disconnects before submitting: the round must not stall.
    s.handle_message(1, Message::Disconnected);
    assert!(matches!(s.do_step(), StepOutcome::NotReady));

    // Player 2 sends an unparsable payload: still counts as having acted.
    s.handle_message(2, Message::Data(None));

    let out = match s.do_step() {
        StepOutcome::RoundClosed(out) => out,
        _ => panic!("the round should close once everyone acted or vanished"),
    };

    // The parse failure is recorded with the player's id, distinctly from
    // any rule-error code.
    assert_eq!(out.reports.len(), 2);
    assert_eq!(out.reports[0].player, 0);
    assert!(matches!(&out.reports[0].outcome, MessageOutcome::Commands(v) if v == &vec![None]));
    assert_eq!(out.reports[1].player, 2);
    assert!(matches!(out.reports[1].outcome, MessageOutcome::ParseFailure));

    // The move is reflected after the rules advanced: alpha regenerated to
    // 11 and sent 5; the fleet broke on beta's regenerated garrison of 9.
    assert_eq!(s.game_controller.state.planets[0].ship_count, 6);
    assert_eq!(s.game_controller.state.planets[1].ship_count, 4);
    assert_eq!(s.game_controller.state.planets[1].owner, Some(1));
    assert_eq!(s.game_controller.state.turn, 1);

    // The next round only addresses the two clients still connected.
    assert_eq!(out.views.len(), 2);
    let mut prompted: Vec<usize> = out.views.iter().map(|(p, _)| *p).collect();
    prompted.sort();
    assert_eq!(prompted, vec![0, 2]);
}

#[test]
fn resubmission_replaces_the_pending_message() {
    let mut s = three_player_session();
    let _ = s.start();
    s.handle_message(
        0,
        Message::Data(Some(Action { commands: vec![cmd("alpha", "beta", 9)] })),
    );
    // The player changes their mind before the round closes.
    s.handle_message(
        0,
        Message::Data(Some(Action { commands: vec![cmd("alpha", "beta", 2)] })),
    );
    s.handle_message(1, Message::Data(None));
    s.handle_message(2, Message::Data(None));
    let out = match s.do_step() {
        StepOutcome::RoundClosed(out) => out,
        _ => panic!("the round should close"),
    };
    assert_eq!(out.reports.len(), 3);
    // Only the replacement ran: alpha 10 + 1 regenerated - 2 sent.
    assert_eq!(s.game_controller.state.planets[0].ship_count, 9);
}

#[test]
fn session_reaches_its_outcome() {
    let conf = Config {
        planets: vec![planet("alpha", Some(0), 10), planet("beta", Some(1), 8)],
        max_turns: 1,
    };
    let mut s = Controller::new(vec![client(0, "ada"), client(1, "grace")], conf);
    let _ = s.start();
    s.handle_message(0, Message::Data(None));
    s.handle_message(1, Message::Data(None));
    let out = match s.do_step() {
        StepOutcome::RoundClosed(out) => out,
        _ => panic!("the round should close"),
    };
    // Turn bound reached: no further round is opened.
    assert_eq!(out.views.len(), 0);
    match s.do_step() {
        StepOutcome::Finished(ranking) => assert_eq!(ranking, vec![0, 1]),
        _ => panic!("the game should be over"),
    }
}

#[test]
fn abrupt_stream_end_is_reported_as_incomplete() {
    let mut s = three_player_session();
    let _ = s.start();
    match s.stream_ended() {
        SessionEnd::Incomplete => {},
        SessionEnd::Outcome(_) => panic!("the game has not finished"),
    }
}

#[test]
fn stream_end_after_the_terminal_condition_yields_the_outcome() {
    let conf = Config { planets: vec![planet("alpha", Some(0), 10)], max_turns: 1 };
    let mut s = Controller::new(vec![client(0, "ada"), client(1, "grace")], conf);
    let _ = s.start();
    s.handle_message(0, Message::Data(None));
    s.handle_message(1, Message::Data(None));
    let _ = s.do_step();
    match s.stream_ended() {
        SessionEnd::Outcome(ranking) => assert_eq!(ranking, vec![0]),
        SessionEnd::Incomplete => panic!("the game finished"),
    }
}

#[test]
fn a_rule_error_is_recorded_with_its_code() {
    let mut s = three_player_session();
    let _ = s.start();
    s.handle_message(
        0,
        Message::Data(Some(Action { commands: vec![cmd("beta", "alpha", 1)] })),
    );
    s.handle_message(1, Message::Data(None));
    s.handle_message(2, Message::Data(None));
    let out = match s.do_step() {
        StepOutcome::RoundClosed(out) => out,
        _ => panic!("the round should close"),
    };
    match &out.reports[0].outcome {
        MessageOutcome::Commands(v) => {
            assert_eq!(v.len(), 1);
            assert_eq!(v[0], Some(pw_engine::driver::CommandError::OriginNotOwned));
        },
        MessageOutcome::ParseFailure => panic!("the payload parsed; the command broke a rule"),
    }
}
