use vstd::prelude::*;

verus! {

/// Number of movement keys that are tracked (forward, back, turn left,
/// turn right, strafe left, strafe right).
pub const KEY_COUNT: usize = 6;

/// How many frames a key stays active after its last press or repeat event:
/// at 60 frames a second, movement stops within about 50 ms of the last one.
pub const HOLD_FRAMES: u64 = 3;

/// Timer-decay key state: a key counts as held for a few frames after its
/// last press or repeat event, so movement stays smooth between keyboard
/// repeats and stops on its own when no release event ever arrives.
pub struct Keys {
    /// Frame number of the last press or repeat event of each key; 0 means
    /// "never pressed" or "released".
    pub timers: [u64; 6],
    /// Number of frames ticked so far.
    pub frame: u64,
}

impl Keys {
    /// Whether key `idx` counts as held in this state.
    pub open spec fn is_held(self, idx: int) -> bool {
        let t = self.timers[idx];
        &&& t > 0
        &&& (if self.frame >= t { self.frame - t } else { 0 }) < HOLD_FRAMES
    }

    pub fn new() -> (k: Self)
        ensures
            k.frame == 0,
            forall|i: int| 0 <= i < KEY_COUNT ==> k.timers[i] == 0,
    {
        Keys { timers: [0; 6], frame: 0 }
    }

    pub fn tick(&mut self)
        requires
            old(self).frame < u64::MAX,
        ensures
            final(self).frame == old(self).frame + 1,
            final(self).timers == old(self).timers,
    {
        self.frame = self.frame + 1;
    }

    pub fn press(&mut self, idx: usize)
        requires
            idx < KEY_COUNT,
        ensures
            final(self).frame == old(self).frame,
            final(self).timers@ == old(self).timers@.update(idx as int, old(self).frame),
    {
        self.timers[idx] = self.frame;
    }

    pub fn release(&mut self, idx: usize)
        requires
            idx < KEY_COUNT,
        ensures
            final(self).frame == old(self).frame,
            final(self).timers@ == old(self).timers@.update(idx as int, 0),
    {
        self.timers[idx] = 0;
    }

    pub fn held(&self, idx: usize) -> (r: bool)
        requires
            idx < KEY_COUNT,
        ensures
            r == self.is_held(idx as int),
    {
        self.timers[idx] > 0 && self.frame.saturating_sub(self.timers[idx]) < HOLD_FRAMES
    }
}

/// A key pressed on frame `f > 0` and not pressed or released since counts
/// as held exactly while fewer than `HOLD_FRAMES` frames have passed.
pub proof fn lemma_hold_window(k: Keys, idx: int, f: u64, n: u64)
    requires
        0 <= idx < KEY_COUNT,
        f > 0,
        k.timers[idx] == f,
        k.frame == f + n,
    ensures
        k.is_held(idx) <==> n < HOLD_FRAMES,
{
}

/// A key is never held right after its release event.
pub proof fn lemma_release_stops(k: Keys, idx: int)
    requires
        0 <= idx < KEY_COUNT,
        k.timers[idx] == 0,
    ensures
        !k.is_held(idx),
{
}

/// Pressing or releasing one key leaves the held state of every other key
/// unchanged, and ticking the frame counter changes no timer.
pub proof fn lemma_keys_independent(k1: Keys, k2: Keys, idx: int, j: int)
    requires
        0 <= idx < KEY_COUNT,
        0 <= j < KEY_COUNT,
        j != idx,
        k1.frame == k2.frame,
        forall|i: int| 0 <= i < KEY_COUNT && i != idx ==> k1.timers[i] == k2.timers[i],
    ensures
        k1.is_held(j) == k2.is_held(j),
{
}

} // verus!
