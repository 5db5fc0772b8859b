//! The states of the application and the transitions that key presses and
//! explosions ask for.

use crate::game_time::GameTime;
use vstd::prelude::*;

verus! {

#[derive(Debug, Clone, Copy, Eq, PartialEq, Hash, Structural)]
pub enum AppState {
    InGame,
    Paused,
    GameOver,
    Out,
}

/// A change to the stack of states that the host is asked to make.
#[derive(Debug, Clone, Copy, Eq, PartialEq, Structural)]
pub enum StateAction {
    /// Replace the current state.
    Replace(AppState),
    /// Leave and enter the current state again.
    Restart,
    /// Put a state on top of the current one.
    Push(AppState),
    /// Go back to the state below the current one.
    Pop,
}

/// The keys that were pressed since the last frame.
#[derive(Debug, Clone, Copy, PartialEq, Eq, Structural)]
pub struct Keys {
    /// The key that clears the board.
    pub clear: bool,
    /// The key that generates a new board.
    pub generate: bool,
    /// The key that pauses and resumes.
    pub escape: bool,
}

/// What the clear key asks for: leaving a running game.
pub open spec fn on_clear(current: AppState) -> Seq<StateAction> {
    match current {
        AppState::InGame => seq![StateAction::Replace(AppState::Out)],
        _ => Seq::empty(),
    }
}

/// What the generate key asks for: a new game, unless the game is paused.
pub open spec fn on_generate(current: AppState) -> Seq<StateAction> {
    match current {
        AppState::InGame => seq![StateAction::Restart],
        AppState::Out => seq![StateAction::Replace(AppState::InGame)],
        AppState::GameOver => seq![StateAction::Replace(AppState::InGame)],
        AppState::Paused => Seq::empty(),
    }
}

/// What the escape key asks for: pausing a running game, resuming a paused one.
pub open spec fn on_escape(current: AppState) -> Seq<StateAction> {
    match current {
        AppState::InGame => seq![StateAction::Push(AppState::Paused)],
        AppState::Paused => seq![StateAction::Pop],
        _ => Seq::empty(),
    }
}

/// The actions that the pressed keys ask for in the state `current`, in the
/// order clear, generate, escape.
pub open spec fn key_actions(current: AppState, keys: Keys) -> Seq<StateAction> {
    (if keys.clear {
        on_clear(current)
    } else {
        Seq::empty()
    }) + (if keys.generate {
        on_generate(current)
    } else {
        Seq::empty()
    }) + (if keys.escape {
        on_escape(current)
    } else {
        Seq::empty()
    })
}

/// Turns the keys pressed in one frame into the actions to take on the
/// state stack, all judged by the state at the start of the frame. The
/// generate key also resets and pauses the game clock.
pub fn state_handler(current: &AppState, keys: Keys, game_time: &mut GameTime) -> (actions: Vec<
    StateAction,
>)
    ensures
        actions@ == key_actions(*current, keys),
        keys.generate ==> final(game_time).paused() && final(game_time).nanos() == 0,
        !keys.generate ==> *final(game_time) == *old(game_time),
{
    let mut actions: Vec<StateAction> = Vec::new();
    if keys.clear {
        match current {
            AppState::InGame => {
                actions.push(StateAction::Replace(AppState::Out));
            },
            _ => {},
        }
    }
    assert(actions@ =~= if keys.clear {
        on_clear(*current)
    } else {
        Seq::empty()
    });
    let ghost cleared = actions@;
    if keys.generate {
        game_time.reset();
        game_time.pause();
        match current {
            AppState::InGame => {
                actions.push(StateAction::Restart);
            },
            AppState::Out => {
                actions.push(StateAction::Replace(AppState::InGame));
            },
            AppState::GameOver => {
                actions.push(StateAction::Replace(AppState::InGame));
            },
            AppState::Paused => {},
        }
    }
    assert(actions@ =~= cleared + if keys.generate {
        on_generate(*current)
    } else {
        Seq::empty()
    });
    let ghost generated = actions@;
    if keys.escape {
        match current {
            AppState::InGame => {
                actions.push(StateAction::Push(AppState::Paused));
            },
            AppState::Paused => {
                actions.push(StateAction::Pop);
            },
            _ => {},
        }
    }
    assert(actions@ =~= generated + if keys.escape {
        on_escape(*current)
    } else {
        Seq::empty()
    });
    actions
}

/// Ends a running game once a mine has gone off: with at least one
/// explosion reported in the state `InGame` the state is to be set to
/// `GameOver`; otherwise nothing is to be done.
pub fn game_state_handler(current: &AppState, explosions: usize) -> (action: Option<StateAction>)
    ensures
        action == if explosions > 0 && *current == AppState::InGame {
            Some(StateAction::Replace(AppState::GameOver))
        } else {
            None
        },
{
    if explosions > 0 {
        match current {
            AppState::InGame => Some(StateAction::Replace(AppState::GameOver)),
            _ => None,
        }
    } else {
        None
    }
}

} // verus!
