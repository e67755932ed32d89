//! Screen states and the white wipe that separates them.

use crate::bits::{at_most, less, nan, scaled, ONE, ZERO};
use crate::identities::has_identity;
use vstd::prelude::*;

verus! {

/// Which screen the game is showing.
#[derive(Clone, Copy, Debug, PartialEq, Eq, Structural)]
pub enum Screen {
    Menu,
    Config,
    Playing,
}

impl Default for Screen {
    fn default() -> (screen: Self)
        ensures
            screen == Screen::Menu,
    {
        Screen::Menu
    }
}

/// Seconds the overlay takes to cover the screen, and again to clear it, by the
/// bit pattern: 0.22.
pub const WIPE_SECONDS: u32 = 0x3e61_47ae;

/// How far the overlay travels, chosen to cover any reasonable viewport.
pub const WIPE_SPAN: i16 = 2_400;

/// Fully cleared: 2, by its bit pattern.
pub const CLEARED: u32 = 0x4000_0000;

/// Progress of the wipe, if one is running.
#[derive(Clone, Copy, Debug, PartialEq, Eq, Structural)]
pub struct Transition {
    /// `None` when idle; otherwise from 0, covering, to 2, fully cleared, by
    /// its bit pattern.
    pub progress: Option<u32>,
    /// The screen to switch to at the moment the overlay covers everything.
    pub target: Option<Screen>,
}

impl Default for Transition {
    fn default() -> (transition: Self)
        ensures
            transition == (Transition { progress: None, target: None }),
    {
        Transition { progress: None, target: None }
    }
}

/// What a frame of a wipe shows.
#[derive(Clone, Copy, Debug, PartialEq, Eq, Structural)]
pub struct Wiped {
    /// The screen to switch to.
    pub switch: Option<Screen>,
    /// The overlay is on screen.
    pub visible: bool,
}

/// The first value is below one and the second is not: the screen is covered
/// now.
pub open spec fn covers(progress: u32, advanced: u32) -> bool {
    &&& !nan(progress) && scaled(progress) < scaled(ONE)
    &&& !nan(advanced) && scaled(advanced) >= scaled(ONE)
}

/// The overlay has left the screen.
pub open spec fn cleared(advanced: u32) -> bool {
    !nan(advanced) && scaled(advanced) >= scaled(CLEARED)
}

impl Transition {
    /// A wipe is running.
    pub open spec fn runs(self) -> bool {
        self.progress is Some
    }

    /// After a wipe was asked for.
    pub open spec fn started(self, target: Screen) -> Transition {
        if self.runs() {
            self
        } else {
            Transition { progress: Some(ZERO), target: Some(target) }
        }
    }

    /// After a frame that brings a running wipe so far.
    pub open spec fn wiped(self, advanced: u32) -> Transition {
        match self.progress {
            None => self,
            Some(progress) => Transition {
                progress: if cleared(advanced) {
                    None
                } else {
                    Some(advanced)
                },
                target: if covers(progress, advanced) {
                    None
                } else {
                    self.target
                },
            },
        }
    }

    /// The screen that a frame switches to, if it brings a running wipe so far.
    pub open spec fn switches(self, advanced: u32) -> Option<Screen> {
        match self.progress {
            None => None,
            Some(progress) => if covers(progress, advanced) {
                self.target
            } else {
                None
            },
        }
    }

    /// Begin a wipe towards a screen, ignoring repeat requests.
    pub fn start(&mut self, target: Screen)
        ensures
            *final(self) == old(self).started(target),
    {
        if self.progress.is_none() {
            self.progress = Some(ZERO);
            self.target = Some(target);
        }
    }

    /// Whether a wipe is currently running.
    pub fn is_running(&self) -> (running: bool)
        ensures
            running == self.runs(),
    {
        self.progress.is_some()
    }

    /// Drive a running wipe so far, switching screens at full cover.
    pub fn advance(&mut self, advanced: u32) -> (wiped: Wiped)
        ensures
            *final(self) == old(self).wiped(advanced),
            wiped == (Wiped {
                switch: old(self).switches(advanced),
                visible: old(self).runs() && !cleared(advanced),
            }),
    {
        proof {
            assert(!nan(ONE) && !nan(CLEARED));
        }
        let progress: u32 = match self.progress {
            Some(progress) => progress,
            None => {
                return Wiped { switch: None, visible: false };
            },
        };
        let mut switch: Option<Screen> = None;
        if less(progress, ONE) && at_most(ONE, advanced) {
            switch = self.target;
            self.target = None;
        }
        if at_most(CLEARED, advanced) {
            self.progress = None;
            return Wiped { switch, visible: false };
        }
        self.progress = Some(advanced);
        Wiped { switch, visible: true }
    }
}

/// The wipe after these frames.
pub open spec fn wiped_on(transition: Transition, frames: Seq<u32>) -> Transition
    decreases frames.len(),
{
    if frames.len() == 0 {
        transition
    } else {
        wiped_on(transition, frames.drop_last()).wiped(frames.last())
    }
}

/// A wipe that has switched screens does not switch again, however it goes on;
/// and while it runs, other requests change nothing.
pub proof fn law_a_wipe_switches_once(
    transition: Transition,
    advanced: u32,
    frames: Seq<u32>,
    later: u32,
    other: Screen,
)
    requires
        transition.switches(advanced) is Some,
    ensures
        wiped_on(transition.wiped(advanced), frames).switches(later) is None,
        transition.started(other) == transition,
{
    lemma_no_target(transition.wiped(advanced), frames);
}

proof fn lemma_no_target(transition: Transition, frames: Seq<u32>)
    requires
        transition.target is None,
    ensures
        wiped_on(transition, frames).target is None,
    decreases frames.len(),
{
    if frames.len() > 0 {
        lemma_no_target(transition, frames.drop_last());
    }
}

/// One of the players is among those hit.
pub open spec fn player_hit(hits: Seq<u64>, players: Seq<u64>) -> bool {
    exists|i: int| 0 <= i < hits.len() && players.contains(#[trigger] hits[i])
}

/// Go back to the title once a player has been hit.
pub fn return_after_defeat(hits: &[u64], players: &[u64], transition: &mut Transition)
    ensures
        *final(transition) == if player_hit(hits@, players@) {
            old(transition).started(Screen::Menu)
        } else {
            *old(transition)
        },
{
    let mut index: usize = 0;
    while index < hits.len()
        invariant
            index <= hits@.len(),
            *transition == *old(transition),
            forall|i: int| 0 <= i < index ==> !players@.contains(#[trigger] hits@[i]),
        decreases hits@.len() - index,
    {
        if has_identity(players, hits[index]) {
            assert(players@.contains(hits@[index as int]));
            transition.start(Screen::Menu);
            return;
        }
        index = index + 1;
    }
}

/// A wipe switches to its target on the one frame that brings it from below full
/// cover to it or beyond, and on no other.
pub proof fn law_screens_switch_at_full_cover(transition: Transition, progress: u32, advanced: u32)
    requires
        transition.progress == Some(progress),
        !nan(progress),
        !nan(advanced),
    ensures
        scaled(progress) < scaled(ONE) <= scaled(advanced) ==> transition.switches(advanced)
            == transition.target && transition.wiped(advanced).target is None,
        scaled(advanced) < scaled(ONE) || scaled(progress) >= scaled(ONE) ==> transition.switches(
            advanced,
        ) is None && transition.wiped(advanced).target == transition.target,
{
}

/// A wipe runs on, as far as it has come, until it has cleared the screen, and
/// then no longer; without one running nothing happens and nothing is switched.
pub proof fn law_wipes_run_until_they_clear(transition: Transition, advanced: u32)
    requires
        !nan(advanced),
    ensures
        transition.progress is Some && scaled(advanced) < scaled(CLEARED) ==> transition.wiped(
            advanced,
        ).progress == Some(advanced),
        transition.progress is Some && scaled(advanced) >= scaled(CLEARED) ==> transition.wiped(
            advanced,
        ).progress is None,
        transition.progress is None ==> transition.wiped(advanced) == transition
            && transition.switches(advanced) is None,
        transition.runs() <==> transition.progress is Some,
        scaled(advanced) >= scaled(CLEARED) <==> cleared(advanced),
{
}

/// A wipe that is asked for while none runs begins at nothing, towards the screen
/// that was asked for; while one runs the request changes nothing.
pub proof fn law_wipes_begin_when_asked(transition: Transition, target: Screen)
    ensures
        transition.progress is None ==> transition.started(target).progress == Some(0u32)
            && transition.started(target).target == Some(target),
        transition.progress is Some ==> transition.started(target) == transition,
{
}

/// A player is hit exactly when one of the players is among those hit.
pub proof fn law_players_are_hit_by_their_own_hits(hits: Seq<u64>, players: Seq<u64>, entity: u64)
    ensures
        hits.contains(entity) && players.contains(entity) ==> player_hit(hits, players),
        (forall|i: int| 0 <= i < hits.len() ==> !players.contains(#[trigger] hits[i]))
            ==> !player_hit(hits, players),
{
    if hits.contains(entity) && players.contains(entity) {
        let k = choose|k: int| 0 <= k < hits.len() && hits[k] == entity;
        assert(players.contains(hits[k]));
    }
}

} // verus!
