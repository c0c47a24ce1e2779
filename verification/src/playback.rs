//! The playing position: which frame is shown, and which comes next.

use vstd::prelude::*;

verus! {

/// The frame that is shown for a wanted index when there are `count` frames:
/// the index itself while it names a frame, else the last frame; 0 where
/// there is none.
pub open spec fn shown_index(index: nat, count: nat) -> nat {
    if count == 0 {
        0
    } else if index >= count {
        (count - 1) as nat
    } else {
        index
    }
}

/// The index that follows the shown one, the first frame following the last.
pub open spec fn following_index(index: nat, count: nat) -> nat {
    if count == 0 || shown_index(index, count) + 1 == count {
        0
    } else {
        shown_index(index, count) + 1
    }
}

/// Brings an index into the range of the frames: see `shown_index`.
pub fn clamp_index(index: usize, count: usize) -> (shown: usize)
    ensures
        shown == shown_index(index as nat, count as nat),
        count > 0 ==> shown < count,
{
    if count == 0 {
        0
    } else if index >= count {
        count - 1
    } else {
        index
    }
}

/// Steps to the next frame, from the last one back to the first: see
/// `following_index`.
pub fn next_index(index: usize, count: usize) -> (next: usize)
    ensures
        next == following_index(index as nat, count as nat),
        count > 0 ==> next < count,
{
    if count == 0 {
        return 0;
    }
    let shown = clamp_index(index, count);
    if shown + 1 == count {
        0
    } else {
        shown + 1
    }
}

/// The state of a player: the index of the current frame, and whether the
/// player moves on by itself.
#[derive(Clone, Copy, Debug)]
pub struct Playback {
    /// The index of the current frame. It may lie past the frames, since
    /// these change under it; `step` and `seek` bring it back.
    pub index: usize,
    /// Whether each step moves on to the next frame.
    pub playing: bool,
}

impl Playback {
    /// A player at the first frame, playing.
    pub fn new() -> (playback: Playback)
        ensures
            playback.index == 0,
            playback.playing,
    {
        Playback { index: 0, playing: true }
    }

    /// Stops a playing player and starts a stopped one; the frame stays.
    pub fn toggle(&mut self)
        ensures
            final(self).playing == !old(self).playing,
            final(self).index == old(self).index,
    {
        self.playing = !self.playing;
    }

    /// Moves to a chosen frame, or to the last one where the choice lies past
    /// the frames.
    pub fn seek(&mut self, index: usize, count: usize)
        ensures
            final(self).index == shown_index(index as nat, count as nat),
            final(self).playing == old(self).playing,
    {
        self.index = clamp_index(index, count);
    }

    /// One turn of the player over `count` frames. Returns the frame to show
    /// now, `None` where there are no frames, and leaves the player at the
    /// frame for the next turn: the following one while playing, the same one
    /// while stopped.
    pub fn step(&mut self, count: usize) -> (shown: Option<usize>)
        ensures
            final(self).playing == old(self).playing,
            count == 0 ==> shown is None && final(self).index == 0,
            count > 0 ==> shown == Some(shown_index(old(self).index as nat, count as nat) as usize),
            count > 0 && old(self).playing ==> final(self).index == following_index(
                old(self).index as nat,
                count as nat,
            ),
            count > 0 && !old(self).playing ==> final(self).index == shown_index(
                old(self).index as nat,
                count as nat,
            ),
    {
        if count == 0 {
            self.index = 0;
            return None;
        }
        let shown = clamp_index(self.index, count);
        if self.playing {
            self.index = next_index(self.index, count);
        } else {
            self.index = shown;
        }
        Some(shown)
    }
}

/// A shown index always names a frame, and an index that names a frame is
/// shown as it is.
pub proof fn lemma_shown_index_in_range(index: nat, count: nat)
    requires
        count > 0,
    ensures
        shown_index(index, count) < count,
        index < count ==> shown_index(index, count) == index,
{
}

/// Playing goes round the frames: the index that follows a frame is the next
/// one modulo the number of frames, and so names a frame again.
pub proof fn lemma_following_index_cycles(index: nat, count: nat)
    requires
        index < count,
    ensures
        following_index(index, count) == (index as int + 1) % (count as int),
        following_index(index, count) < count,
{
    let i = index as int;
    let n = count as int;
    if i + 1 < n {
        assert((i + 1) % n == i + 1) by (nonlinear_arith)
            requires
                0 <= i + 1 < n,
        ;
    } else {
        assert((i + 1) % n == 0) by (nonlinear_arith)
            requires
                i + 1 == n,
                n > 0,
        ;
    }
}

} // verus!
