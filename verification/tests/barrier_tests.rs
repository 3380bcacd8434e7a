use pw_engine::barrier::Barrier;

fn roster(ids: &[usize]) -> Vec<usize> {
    ids.to_vec()
}

#[test]
fn fresh_barrier_is_ready() {
    let b = Barrier::new(&roster(&[0, 1, 2]));
    assert!(b.is_ready());
}

#[test]
fn round_waits_until_everyone_acted() {
    let mut b = Barrier::new(&roster(&[0, 1, 2]));
    b.begin_round(&roster(&[0, 1, 2]));
    assert!(!b.is_ready());
    b.submit(0);
    assert!(!b.is_ready());
    b.submit(1);
    assert!(!b.is_ready());
    b.submit(2);
    assert!(b.is_ready());
}

#[test]
fn disconnect_discharges_a_waiting_player() {
    let mut b = Barrier::new(&roster(&[0, 1]));
    b.begin_round(&roster(&[0, 1]));
    b.submit(0);
    assert!(!b.is_ready());
    b.disconnect(1);
    assert!(b.is_ready());
}

#[test]
fn duplicate_submission_is_tolerated() {
    let mut b = Barrier::new(&roster(&[0, 1]));
    b.begin_round(&roster(&[0, 1]));
    b.submit(0);
    b.submit(0);
    assert!(!b.is_ready());
    b.submit(1);
    assert!(b.is_ready());
}

#[test]
fn disconnect_after_submit_changes_nothing() {
    let mut b = Barrier::new(&roster(&[0, 1]));
    b.begin_round(&roster(&[0, 1]));
    b.submit(0);
    assert!(!b.is_ready());
    // Player 0 already acted: their disconnect must not affect the round.
    b.disconnect(0);
    assert!(!b.is_ready());
    b.submit(1);
    assert!(b.is_ready());
}

#[test]
fn round_of_disconnected_players_is_immediately_ready() {
    let mut b = Barrier::new(&roster(&[0, 1, 2]));
    b.disconnect(0);
    b.disconnect(1);
    b.disconnect(2);
    b.begin_round(&roster(&[0, 1, 2]));
    assert!(b.is_ready());
}

#[test]
fn reconnect_does_not_reinstate_an_obligation() {
    let mut b = Barrier::new(&roster(&[0, 1]));
    b.begin_round(&roster(&[0, 1]));
    b.disconnect(0);
    b.connect(0);
    assert!(!b.is_ready());
    b.submit(1);
    assert!(b.is_ready());
}

#[test]
fn unsolicited_submission_is_a_no_op() {
    let mut b = Barrier::new(&roster(&[0, 1]));
    b.begin_round(&roster(&[0]));
    b.submit(1);
    assert!(!b.is_ready());
    b.submit(0);
    assert!(b.is_ready());
}

#[test]
fn eliminated_players_are_not_waited_on() {
    let mut b = Barrier::new(&roster(&[0, 1, 2]));
    b.set_alive(&roster(&[0, 2]));
    b.begin_round(&roster(&[0, 1, 2]));
    b.submit(0);
    assert!(!b.is_ready());
    b.submit(2);
    assert!(b.is_ready());
}
