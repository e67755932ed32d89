//! Pairing a policy's answers with the frames they are about.
//!
//! The observation is player-centred at the instant it is encoded, so an answer
//! is drawn over the window it was computed for, not over wherever the player
//! has since moved to.

use crate::bits::{is_finite, less, nan, scaled, Vec2, ZERO};
use std::collections::VecDeque;
use vstd::prelude::*;

verus! {

/// Frames of player positions kept for pairing a reply with its observation.
///
/// Two seconds: far longer than inference takes, and short enough that a
/// stalled policy drops its stale answer instead of drawing it.
pub const ANCHOR_FRAMES: usize = 120;

/// Where the player was on each recent frame.
pub struct Anchors {
    recent: VecDeque<(u32, Vec2)>,
}

/// The latest of a list, as many as are kept.
pub open spec fn latest<T>(items: Seq<T>, kept: int) -> Seq<T> {
    if items.len() > kept {
        items.skip(items.len() - kept)
    } else {
        items
    }
}

/// The position recorded last for a frame.
pub open spec fn anchored(anchors: Seq<(u32, Vec2)>, frame: u32) -> Option<Vec2>
    decreases anchors.len(),
{
    if anchors.len() == 0 {
        None
    } else if anchors.last().0 == frame {
        Some(anchors.last().1)
    } else {
        anchored(anchors.drop_last(), frame)
    }
}

impl View for Anchors {
    type V = Seq<(u32, Vec2)>;

    closed spec fn view(&self) -> Seq<(u32, Vec2)> {
        self.recent@
    }
}

impl Default for Anchors {
    fn default() -> (anchors: Self)
        ensures
            anchors@ == Seq::<(u32, Vec2)>::empty(),
    {
        Anchors { recent: VecDeque::new() }
    }
}

impl Anchors {
    /// Record where the player is, forgetting what is too old.
    pub fn record(&mut self, frame: u32, position: Vec2)
        ensures
            final(self)@ == latest(old(self)@.push((frame, position)), ANCHOR_FRAMES as int),
    {
        self.recent.push_back((frame, position));
        let ghost all = self.recent@;
        assert(all == old(self)@.push((frame, position)));
        assert(all.skip(0) =~= all);
        while self.recent.len() > ANCHOR_FRAMES
            invariant
                self.recent@.len() <= all.len(),
                self.recent@ == all.skip(all.len() - self.recent@.len()),
                self.recent@.len() >= ANCHOR_FRAMES || self.recent@.len() == all.len(),
            decreases self.recent@.len(),
        {
            let _ = self.recent.pop_front();
            assert(self.recent@ =~= all.skip(all.len() - self.recent@.len()));
        }
    }

    /// Where the player was on a frame, if that is still known.
    pub fn find(&self, frame: u32) -> (position: Option<Vec2>)
        ensures
            position == anchored(self@, frame),
    {
        let mut index: usize = self.recent.len();
        assert(self.recent@.take(index as int) =~= self.recent@);
        while index > 0
            invariant
                index <= self.recent@.len(),
                anchored(self@, frame) == anchored(self.recent@.take(index as int), frame),
            decreases index,
        {
            let entry: (u32, Vec2) = self.recent[index - 1];
            proof {
                let seen = self.recent@.take(index as int);
                assert(seen.last() == entry);
                assert(seen.drop_last() =~= self.recent@.take(index - 1));
            }
            if entry.0 == frame {
                return Some(entry.1);
            }
            index = index - 1;
        }
        None
    }

    /// Forget every position: those of a dead run mean nothing to a new one.
    pub fn clear(&mut self)
        ensures
            final(self)@ == Seq::<(u32, Vec2)>::empty(),
    {
        self.recent.clear();
    }
}

/// The frames recorded one after the other.
pub open spec fn recorded(frames: Seq<(u32, Vec2)>) -> Seq<(u32, Vec2)>
    decreases frames.len(),
{
    if frames.len() == 0 {
        Seq::empty()
    } else {
        latest(recorded(frames.drop_last()).push(frames.last()), ANCHOR_FRAMES as int)
    }
}

/// However long a run, exactly its latest frames are known; and a frame that
/// was just recorded is found where it was recorded.
pub proof fn law_recent_frames_are_known(frames: Seq<(u32, Vec2)>, frame: u32, position: Vec2)
    ensures
        recorded(frames) == latest(frames, ANCHOR_FRAMES as int),
        anchored(recorded(frames.push((frame, position))), frame) == Some(position),
{
    lemma_recorded(frames);
    lemma_recorded(frames.push((frame, position)));
}

proof fn lemma_recorded(frames: Seq<(u32, Vec2)>)
    ensures
        recorded(frames) == latest(frames, ANCHOR_FRAMES as int),
    decreases frames.len(),
{
    if frames.len() > 0 {
        lemma_recorded(frames.drop_last());
        assert(recorded(frames) =~= latest(frames, ANCHOR_FRAMES as int));
    } else {
        assert(recorded(frames) =~= latest(frames, ANCHOR_FRAMES as int));
    }
}

/// The direction a policy answered with, or nowhere where it is not two finite
/// numbers.
pub fn answered_direction(values: &[u32]) -> (direction: Vec2)
    ensures
        direction == if values@.len() == 2 && (Vec2 { x: values@[0], y: values@[1] }).finite() {
            Vec2 { x: values@[0], y: values@[1] }
        } else {
            Vec2 { x: ZERO, y: ZERO }
        },
{
    if values.len() == 2 {
        let direction: Vec2 = Vec2 { x: values[0], y: values[1] };
        if direction.is_finite() {
            return direction;
        }
    }
    Vec2 { x: ZERO, y: ZERO }
}

/// The lowest and highest of these values, passing over what is not a number.
pub open spec fn bounds_of(values: Seq<u32>, low: u32, high: u32) -> bool {
    &&& values.contains(low) && !nan(low)
    &&& values.contains(high) && !nan(high)
    &&& forall|i: int|
        0 <= i < values.len() && !nan(#[trigger] values[i]) ==> scaled(low) <= scaled(values[i])
            <= scaled(high)
}

/// Some value is a number.
pub open spec fn any_number(values: Seq<u32>) -> bool {
    exists|i: int| 0 <= i < values.len() && !nan(#[trigger] values[i])
}

/// The range a field spans, if its ends are finite.
pub fn field_range(values: &[u32]) -> (range: Option<(u32, u32)>)
    ensures
        match range {
            Some((low, high)) => bounds_of(values@, low, high) && crate::bits::finite(low)
                && crate::bits::finite(high),
            None => any_number(values@) ==> exists|i: int|
                0 <= i < values@.len() && !nan(#[trigger] values@[i]) && !crate::bits::finite(
                    values@[i],
                ),
        },
{
    let mut range: Option<(u32, u32)> = None;
    let mut index: usize = 0;
    while index < values.len()
        invariant
            index <= values@.len(),
            match range {
                Some((low, high)) => {
                    &&& values@.contains(low) && !nan(low)
                    &&& values@.contains(high) && !nan(high)
                    &&& forall|i: int|
                        0 <= i < index && !nan(#[trigger] values@[i]) ==> scaled(low) <= scaled(
                            values@[i],
                        ) <= scaled(high)
                },
                None => forall|i: int| 0 <= i < index ==> nan(#[trigger] values@[i]),
            },
        decreases values@.len() - index,
    {
        let value: u32 = values[index];
        assert(values@.contains(value));
        if !crate::bits::is_nan(value) {
            range = match range {
                None => Some((value, value)),
                Some((low, high)) => Some(
                    (
                        if less(value, low) {
                            value
                        } else {
                            low
                        },
                        if less(high, value) {
                            value
                        } else {
                            high
                        },
                    ),
                ),
            };
        }
        index = index + 1;
    }
    match range {
        Some((low, high)) => {
            if is_finite(low) && is_finite(high) {
                Some((low, high))
            } else {
                proof {
                    let end = if crate::bits::finite(low) { high } else { low };
                    let i = choose|i: int| 0 <= i < values@.len() && values@[i] == end;
                    assert(!nan(values@[i]));
                }
                None
            }
        },
        None => None,
    }
}

/// The latest of a list are its last items in their order, all of them while they
/// are few.
pub proof fn law_the_latest_are_the_last(items: Seq<(u32, Vec2)>, kept: int, i: int)
    requires
        kept >= 0,
        0 <= i,
    ensures
        ({
            let left = latest(items, kept);
            &&& items.len() <= kept ==> left == items
            &&& items.len() > kept ==> left.len() == kept
            &&& i < left.len() ==> left[left.len() - 1 - i] == items[items.len() - 1 - i]
        }),
{
}

/// A frame is found where it was recorded last, and a frame that was not recorded
/// is not found.
pub proof fn law_frames_are_found_where_they_were(anchors: Seq<(u32, Vec2)>, frame: u32, at: int)
    ensures
        0 <= at < anchors.len() && anchors[at].0 == frame && (forall|k: int|
            at < k < anchors.len() ==> (#[trigger] anchors[k]).0 != frame) ==> anchored(
            anchors,
            frame,
        ) == Some(anchors[at].1),
        (forall|k: int| 0 <= k < anchors.len() ==> (#[trigger] anchors[k]).0 != frame) ==> anchored(
            anchors,
            frame,
        ) is None,
    decreases anchors.len(),
{
    if anchors.len() > 0 {
        let shorter = anchors.drop_last();
        law_frames_are_found_where_they_were(shorter, frame, at);
        assert(anchors[anchors.len() - 1] == anchors.last());
        if 0 <= at < shorter.len() && (forall|k: int|
            at < k < anchors.len() ==> (#[trigger] anchors[k]).0 != frame) {
            assert forall|k: int| at < k < shorter.len() implies (#[trigger] shorter[k]).0
                != frame by {
                assert(shorter[k] == anchors[k]);
            }
        }
        if forall|k: int| 0 <= k < anchors.len() ==> (#[trigger] anchors[k]).0 != frame {
            assert forall|k: int| 0 <= k < shorter.len() implies (#[trigger] shorter[k]).0
                != frame by {
                assert(shorter[k] == anchors[k]);
            }
        }
    }
}

/// The range of a field reaches from its least number to its greatest, and a field
/// without a number has none.
pub proof fn law_ranges_hold_every_number(values: Seq<u32>, low: u32, high: u32, i: int)
    requires
        bounds_of(values, low, high),
        0 <= i < values.len(),
        !nan(values[i]),
    ensures
        scaled(low) <= scaled(values[i]) <= scaled(high),
        values.contains(low) && values.contains(high),
        !nan(low) && !nan(high),
        any_number(values),
{
}

/// A field none of whose values is a number spans nothing.
pub proof fn law_fields_without_numbers(values: Seq<u32>)
    requires
        forall|i: int| 0 <= i < values.len() ==> nan(#[trigger] values[i]),
    ensures
        !any_number(values),
        forall|low: u32, high: u32| !#[trigger] bounds_of(values, low, high),
{
}

} // verus!
