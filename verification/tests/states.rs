use genuary::app_state::AppState;
use genuary::compute_worker::{worker_step, WorkerStep};

#[test]
fn game_starts_at_menu() {
    assert_eq!(AppState::default(), AppState::Menu);
    assert_ne!(AppState::default(), AppState::InGame);
}

#[test]
fn worker_is_read_only_when_ready() {
    assert_eq!(worker_step(false), WorkerStep::Wait);
    assert_eq!(worker_step(true), WorkerStep::ReadThenWrite);
}
