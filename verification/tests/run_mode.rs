use gol::run_mode::GameOfLife;
use gol::run_mode::State;

#[test]
fn a_new_session_starts_paused() {
    let game = GameOfLife::new();
    assert!(matches!(game.state(), State::Paused));
}

#[test]
fn toggle_switches_to_playing() {
    let mut game = GameOfLife::new();
    game.toggle_state();
    assert!(matches!(game.state(), State::Playing));
}

#[test]
fn toggle_twice_returns_to_paused() {
    let mut game = GameOfLife::new();
    game.toggle_state();
    game.toggle_state();
    assert!(matches!(game.state(), State::Paused));
    game.toggle_state();
    assert!(matches!(game.state(), State::Playing));
}

#[test]
fn state_reads_do_not_change_the_state() {
    let game = GameOfLife::new();
    assert!(matches!(game.state(), State::Paused));
    assert!(matches!(game.state(), State::Paused));
}
