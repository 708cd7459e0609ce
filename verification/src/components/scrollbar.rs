//! When a scrollbar shows, how it looks, and what the mouse does to it.
//!
//! Times are in milliseconds. Where on the thumb a drag took hold is a value of the caller's own.

use vstd::prelude::*;

verus! {

/// How long a scrollbar shows in full after the last scroll.
pub const FADE_OUT_DELAY: u64 = 2000;

/// How long it shows at all.
pub const FADE_OUT_DURATION: u64 = 3000;

/// A scrollbar between two frames.
#[derive(Clone, Copy, Debug)]
pub struct ScrollbarState<P: Copy> {
    pub dragging: bool,
    /// Where on the thumb the drag took hold.
    pub grip: P,
    /// Whether the mouse is over the track.
    pub hovered: bool,
    pub hovered_thumb: bool,
    pub last_scroll: Option<u64>,
}

/// How the thumb is painted.
#[derive(Clone, Copy, Debug, PartialEq, Eq)]
pub enum ThumbLook {
    /// Dragged, or under the mouse.
    Active,
    /// The mouse is over the track.
    Hovered,
    /// At rest, with its opacity in thousandths.
    Resting(u64),
}

/// What a press of the mouse does.
#[derive(Clone, Copy, Debug, PartialEq, Eq)]
pub enum Press {
    /// It is not on the track.
    Ignored,
    /// It takes hold of the thumb.
    Grabbed,
    /// The view goes where the track was pressed.
    Jump,
}

/// The time since the last scroll.
pub open spec fn elapsed(now: u64, then: u64) -> int {
    if now > then {
        now - then
    } else {
        0
    }
}

/// The opacity after some time, in thousandths.
pub open spec fn faded(time: int) -> int {
    if time < FADE_OUT_DELAY {
        1000
    } else if time < FADE_OUT_DURATION {
        FADE_OUT_DURATION - time
    } else {
        0
    }
}

impl<P: Copy> ScrollbarState<P> {
    pub fn new(grip: P) -> (s: Self)
        ensures
            s == (ScrollbarState {
                dragging: false,
                grip,
                hovered: false,
                hovered_thumb: false,
                last_scroll: None,
            }),
    {
        ScrollbarState { dragging: false, grip, hovered: false, hovered_thumb: false, last_scroll: None }
    }

    /// A scroll just happened.
    pub fn did_scroll(&mut self, now: u64)
        ensures
            *final(self) == (ScrollbarState { last_scroll: Some(now), ..*old(self) }),
    {
        self.last_scroll = Some(now);
    }

    /// Whether the scrollbar shows.
    pub open spec fn shows(self, now: u64) -> bool {
        self.dragging || self.hovered || (self.last_scroll matches Some(then) && elapsed(now, then)
            < FADE_OUT_DURATION)
    }

    /// The opacity in thousandths.
    pub open spec fn strength(self, now: u64) -> int {
        if self.dragging || self.hovered {
            1000
        } else {
            match self.last_scroll {
                Some(then) => faded(elapsed(now, then)),
                None => 0,
            }
        }
    }

    pub fn is_visible(&self, now: u64) -> (r: bool)
        ensures
            r == self.shows(now),
    {
        if self.dragging || self.hovered {
            return true;
        }
        match self.last_scroll {
            None => false,
            Some(then) => now.saturating_sub(then) < FADE_OUT_DURATION,
        }
    }

    pub fn opacity(&self, now: u64) -> (n: u64)
        ensures
            n == self.strength(now),
    {
        if self.dragging || self.hovered {
            return 1000;
        }
        match self.last_scroll {
            None => 0,
            Some(then) => {
                let time: u64 = now.saturating_sub(then);
                if time < FADE_OUT_DELAY {
                    1000
                } else if time < FADE_OUT_DURATION {
                    FADE_OUT_DURATION - time
                } else {
                    0
                }
            },
        }
    }

    /// How the thumb is painted, where there is something to scroll and the scrollbar shows.
    pub fn thumb(&self, overflows: bool, now: u64) -> (look: Option<ThumbLook>)
        ensures
            look == (if !overflows || !self.shows(now) {
                None
            } else if self.dragging || self.hovered_thumb {
                Some(ThumbLook::Active)
            } else if self.hovered {
                Some(ThumbLook::Hovered)
            } else {
                Some(ThumbLook::Resting(self.strength(now) as u64))
            }),
    {
        if !overflows || !self.is_visible(now) {
            return None;
        }
        if self.dragging || self.hovered_thumb {
            Some(ThumbLook::Active)
        } else if self.hovered {
            Some(ThumbLook::Hovered)
        } else {
            Some(ThumbLook::Resting(self.opacity(now)))
        }
    }

    /// A press of the mouse, on the track or not; on the thumb it comes with the grip.
    pub fn mouse_down(&mut self, on_track: bool, on_thumb: Option<P>, now: u64) -> (press: Press)
        ensures
            !on_track ==> press == Press::Ignored && *final(self) == *old(self),
            on_track ==> match on_thumb {
                Some(grip) => press == Press::Grabbed && *final(self) == (ScrollbarState {
                    dragging: true,
                    grip,
                    last_scroll: Some(now),
                    ..*old(self)
                }),
                None => press == Press::Jump && *final(self) == (ScrollbarState {
                    last_scroll: Some(now),
                    ..*old(self)
                }),
            },
    {
        if !on_track {
            return Press::Ignored;
        }
        self.last_scroll = Some(now);
        match on_thumb {
            Some(grip) => {
                self.dragging = true;
                self.grip = grip;
                Press::Grabbed
            },
            None => Press::Jump,
        }
    }

    /// A move of the mouse. Where the drag goes on and moves the view, the view follows. Tells
    /// whether the view follows, and whether anything changed that is painted.
    pub fn mouse_move(
        &mut self,
        on_track: bool,
        on_thumb: bool,
        button_held: bool,
        view_moves: bool,
        now: u64,
    ) -> (r: (bool, bool))
        ensures
            r.0 == (old(self).dragging && button_held && view_moves),
            r.1 == (r.0 || on_track != old(self).hovered || on_thumb != old(self).hovered_thumb),
            *final(self) == (ScrollbarState {
                hovered: on_track,
                hovered_thumb: on_thumb,
                last_scroll: if r.0 || (on_track && !old(self).hovered) {
                    Some(now)
                } else {
                    old(self).last_scroll
                },
                ..*old(self)
            }),
            !r.1 ==> *final(self) == *old(self),
    {
        let mut changed = false;
        if on_track != self.hovered {
            if on_track {
                self.last_scroll = Some(now);
            }
            changed = true;
        }
        if on_thumb != self.hovered_thumb {
            changed = true;
        }
        self.hovered = on_track;
        self.hovered_thumb = on_thumb;
        let follows = self.dragging && button_held && view_moves;
        if follows {
            self.last_scroll = Some(now);
            changed = true;
        }
        (follows, changed)
    }

    /// A release of the mouse ends the drag. Tells whether there was one.
    pub fn mouse_up(&mut self) -> (ended: bool)
        ensures
            ended == old(self).dragging,
            *final(self) == (ScrollbarState { dragging: false, ..*old(self) }),
    {
        let ended = self.dragging;
        self.dragging = false;
        ended
    }
}

/// A scrollbar shows exactly as long as its opacity is above nothing.
pub proof fn law_shows_while_opaque<P: Copy>(state: ScrollbarState<P>, now: u64)
    ensures
        state.shows(now) <==> state.strength(now) > 0,
        0 <= state.strength(now) <= 1000,
{
}

/// The opacity never grows while nothing happens.
pub proof fn law_fading<P: Copy>(state: ScrollbarState<P>, now: u64, later: u64)
    requires
        now <= later,
    ensures
        state.strength(later) <= state.strength(now),
{
}

/// A scrollbar that is neither held nor pointed at is fully opaque when a scroll just happened, and
/// gone once the time for fading is over; without any scroll it does not show.
pub proof fn law_scroll_brings_it_up<P: Copy>(state: ScrollbarState<P>, then: u64, now: u64)
    requires
        !state.dragging,
        !state.hovered,
    ensures
        state.last_scroll == Some(then) && now <= then ==> state.strength(now) == 1000,
        state.last_scroll == Some(then) && now <= then + FADE_OUT_DELAY - 1 ==> state.strength(now)
            == 1000,
        state.last_scroll == Some(then) && now >= then + FADE_OUT_DURATION ==> state.strength(now)
            == 0 && !state.shows(now),
        state.last_scroll is None ==> !state.shows(now),
{
}

} // verus!
