//! The session's screens: the title, play, and the two endings.
use vstd::prelude::*;
use crate::game::{Game, Status};
use crate::ship::Controls;
use crate::tick::{reset_result, tick_result};

verus! {

/// Which screen the session shows.
#[derive(Clone, Copy, Debug, PartialEq, Eq, Structural)]
pub enum Phase {
    NotStarted,
    Playing,
    GameOver,
    Won,
}

pub struct Session {
    pub game: Game,
    pub phase: Phase,
}

/// The screen that follows play once a frame has run.
pub open spec fn after_play(s: Status) -> Phase {
    match s {
        Status::Playing => Phase::Playing,
        Status::GameOver => Phase::GameOver,
        Status::Won => Phase::Won,
    }
}

impl Session {
    pub open spec fn wf(&self) -> bool {
        self.game.wf()
    }

    /// A session on its title screen, over an arena of `width` by `height`
    /// pixels.
    pub fn new(width: u16, height: u16) -> (r: Session)
        requires
            width > 0,
            height > 0,
        ensures
            r.wf(),
            r.phase == Phase::NotStarted,
    {
        Session { game: Game::new(width, height), phase: Phase::NotStarted }
    }

    /// Run one frame of `dt` milliseconds. While playing, the game advances
    /// and the screen follows its status; on any other screen the game
    /// stands still until `confirm` starts it afresh. Returns whether the
    /// game advanced.
    pub fn frame(&mut self, dt: u16, keys: Controls, confirm: bool) -> (ticked: bool)
        requires
            old(self).wf(),
        ensures
            final(self).wf(),
            ticked == (old(self).phase == Phase::Playing),
            ticked ==> final(self).phase == after_play(final(self).game.status_spec()),
            ticked ==> tick_result(old(self).game, final(self).game, dt as int, keys),
            !ticked && confirm ==> reset_result(old(self).game, final(self).game),
            ticked ==> final(self).game.score >= old(self).game.score,
            !ticked && confirm ==> final(self).phase == Phase::Playing && final(self).game.score == 0,
            !ticked && !confirm ==> final(self).phase == old(self).phase && final(self).game.score
                == old(self).game.score && final(self).game.asteroids@ == old(self).game.asteroids@
                && final(self).game.lasers@ == old(self).game.lasers@ && final(self).game.player
                == old(self).game.player,
    {
        match self.phase {
            Phase::Playing => {
                self.game.tick(dt, keys);
                let s: Status = self.game.status();
                self.phase = match s {
                    Status::Playing => Phase::Playing,
                    Status::GameOver => Phase::GameOver,
                    Status::Won => Phase::Won,
                };
                true
            },
            _ => {
                if confirm {
                    self.game.reset();
                    self.phase = Phase::Playing;
                }
                false
            },
        }
    }
}

} // verus!
