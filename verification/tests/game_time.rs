use minesweeper::app_state::{game_state_handler, state_handler, AppState, Keys, StateAction};
use minesweeper::game_time::{clock_string, game_time_system, try_game_time_system, GameTime};
use std::time::Duration;

#[test]
fn new_clock_is_paused_at_zero() {
    let time = GameTime::new_paused();
    assert!(time.is_paused());
    assert_eq!(time.elapsed_secs(), 0);
    assert_eq!(time.to_string(), "00:00");
}

#[test]
fn paused_clock_does_not_count() {
    let mut time = GameTime::new_paused();
    time.tick(Duration::from_secs(5));
    assert_eq!(time.elapsed_secs(), 0);
    game_time_system(&mut time, Duration::from_secs(5), 0, 0);
    assert!(time.is_paused());
    assert_eq!(time.elapsed_secs(), 0);
}

#[test]
fn clock_starts_with_the_first_trigger_or_mark() {
    let mut time = GameTime::new_paused();
    game_time_system(&mut time, Duration::from_secs(2), 1, 0);
    assert!(!time.is_paused());
    assert_eq!(time.elapsed_secs(), 2);
    let mut time = GameTime::new_paused();
    game_time_system(&mut time, Duration::from_millis(1500), 0, 3);
    assert!(!time.is_paused());
    assert_eq!(time.elapsed_secs(), 1);
    game_time_system(&mut time, Duration::from_millis(1500), 0, 0);
    assert!(!time.is_paused());
    assert_eq!(time.elapsed_secs(), 3);
}

#[test]
fn clock_shows_minutes_and_seconds() {
    let mut time = GameTime::new_paused();
    time.unpause();
    assert!(!time.is_paused());
    time.tick(Duration::from_secs(187));
    assert_eq!(time.elapsed_secs(), 187);
    assert_eq!(time.to_string(), "03:07");
    time.tick(Duration::from_millis(999));
    assert_eq!(time.elapsed(), Duration::from_millis(187_999));
    assert_eq!(time.to_string(), "03:07");
    time.tick(Duration::from_millis(1));
    assert_eq!(time.to_string(), "03:08");
    time.pause();
    assert!(time.is_paused());
    assert_eq!(time.elapsed_secs(), 188);
}

#[test]
fn clock_text_pads_to_two_digits_and_caps_the_minutes() {
    assert_eq!(clock_string(0), "00:00");
    assert_eq!(clock_string(9), "00:09");
    assert_eq!(clock_string(59), "00:59");
    assert_eq!(clock_string(60), "01:00");
    assert_eq!(clock_string(600), "10:00");
    assert_eq!(clock_string(5999), "99:59");
    assert_eq!(clock_string(6000), "100:00");
    assert_eq!(clock_string(65535 * 60 + 59), "65535:59");
    assert_eq!(clock_string(4_000_000), "65535:40");
    assert_eq!(clock_string(u64::MAX), "65535:15");
}

#[test]
fn reset_clears_the_count_and_keeps_the_pause() {
    let mut time = GameTime::new_paused();
    time.unpause();
    time.tick(Duration::from_secs(61));
    time.reset();
    assert_eq!(time.elapsed_secs(), 0);
    assert!(!time.is_paused());
    time.tick(Duration::from_secs(1));
    time.pause();
    time.reset();
    assert!(time.is_paused());
    assert_eq!(time.to_string(), "00:00");
}

#[test]
fn clock_refuses_what_it_cannot_count() {
    let mut time = GameTime::new_paused();
    time.unpause();
    time.tick(Duration::from_secs(1));
    assert!(time.can_tick(Duration::from_secs(10)));
    assert!(time.can_tick(Duration::new(u64::MAX - 1, 999_999_999)));
    assert!(!time.can_tick(Duration::MAX));
    assert!(!time.try_tick(Duration::MAX));
    assert_eq!(time.elapsed_secs(), 1);
    assert!(time.try_tick(Duration::from_secs(1)));
    assert_eq!(time.elapsed_secs(), 2);
    time.reset();
    time.tick(Duration::from_secs(1));
    assert!(!try_game_time_system(&mut time, Duration::MAX, 0, 0));
    assert_eq!(time.elapsed_secs(), 1);
    assert!(!time.is_paused());
    assert!(try_game_time_system(&mut time, Duration::from_secs(4), 0, 0));
    assert_eq!(time.elapsed_secs(), 5);
    time.pause();
    assert!(try_game_time_system(&mut time, Duration::MAX, 0, 0));
    assert!(time.is_paused());
    assert_eq!(time.elapsed_secs(), 5);
    assert!(!try_game_time_system(&mut time, Duration::MAX, 1, 0));
    assert!(time.is_paused());
}

#[test]
fn generate_key_starts_a_round_and_resets_the_clock() {
    let keys = Keys { clear: false, generate: true, escape: false };
    let mut time = GameTime::new_paused();
    time.unpause();
    time.tick(Duration::from_secs(30));
    assert_eq!(state_handler(&AppState::Out, keys, &mut time), vec![StateAction::Replace(AppState::InGame)]);
    assert!(time.is_paused());
    assert_eq!(time.elapsed_secs(), 0);
    assert_eq!(state_handler(&AppState::InGame, keys, &mut time), vec![StateAction::Restart]);
    assert_eq!(
        state_handler(&AppState::GameOver, keys, &mut time),
        vec![StateAction::Replace(AppState::InGame)]
    );
    assert_eq!(state_handler(&AppState::Paused, keys, &mut time), vec![]);
}

#[test]
fn clear_and_escape_keys_leave_the_clock_alone() {
    let mut time = GameTime::new_paused();
    time.unpause();
    time.tick(Duration::from_secs(30));
    let clear = Keys { clear: true, generate: false, escape: false };
    assert_eq!(state_handler(&AppState::InGame, clear, &mut time), vec![StateAction::Replace(AppState::Out)]);
    assert_eq!(state_handler(&AppState::Paused, clear, &mut time), vec![]);
    assert_eq!(state_handler(&AppState::Out, clear, &mut time), vec![]);
    let escape = Keys { clear: false, generate: false, escape: true };
    assert_eq!(
        state_handler(&AppState::InGame, escape, &mut time),
        vec![StateAction::Push(AppState::Paused)]
    );
    assert_eq!(state_handler(&AppState::Paused, escape, &mut time), vec![StateAction::Pop]);
    assert_eq!(state_handler(&AppState::GameOver, escape, &mut time), vec![]);
    let none = Keys { clear: false, generate: false, escape: false };
    assert_eq!(state_handler(&AppState::InGame, none, &mut time), vec![]);
    assert!(!time.is_paused());
    assert_eq!(time.elapsed_secs(), 30);
}

#[test]
fn keys_of_one_frame_are_judged_by_the_same_state() {
    let all = Keys { clear: true, generate: true, escape: true };
    let mut time = GameTime::new_paused();
    assert_eq!(
        state_handler(&AppState::InGame, all, &mut time),
        vec![
            StateAction::Replace(AppState::Out),
            StateAction::Restart,
            StateAction::Push(AppState::Paused)
        ]
    );
    assert_eq!(state_handler(&AppState::Paused, all, &mut time), vec![StateAction::Pop]);
}

#[test]
fn explosion_ends_a_running_game() {
    assert_eq!(
        game_state_handler(&AppState::InGame, 1),
        Some(StateAction::Replace(AppState::GameOver))
    );
    assert_eq!(
        game_state_handler(&AppState::InGame, 3),
        Some(StateAction::Replace(AppState::GameOver))
    );
    assert_eq!(game_state_handler(&AppState::InGame, 0), None);
    assert_eq!(game_state_handler(&AppState::Paused, 1), None);
    assert_eq!(game_state_handler(&AppState::GameOver, 1), None);
    assert_eq!(game_state_handler(&AppState::Out, 2), None);
}
