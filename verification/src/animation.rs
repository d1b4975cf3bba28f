//! Timing of animations: each shows its frames in turn, each frame for its
//! duration, and is done after the last.
use vstd::prelude::*;

verus! {

/// An animation's timing: the duration of each frame in milliseconds, the
/// frame shown, how long it has been shown, and whether the animation is over.
pub struct Animation {
    pub frame_durations: Vec<u32>,
    pub current_frame: usize,
    pub time_spent_in_current_frame: u32,
    pub done: bool,
}

/// All animations playing, and when they were last advanced.
pub struct AnimationSystem {
    pub animations: Vec<Animation>,
    pub start_time: u128,
}

/// The animation after `delta` more milliseconds: the time adds up; once it
/// reaches the current frame's duration, that duration is taken off and the
/// next frame comes, and after the last frame the animation is done. At most
/// one frame passes per step.
pub open spec fn advanced(a: Animation, delta: u32) -> Animation {
    let t = a.time_spent_in_current_frame + delta;
    let d = a.frame_durations@[a.current_frame as int];
    if t >= d {
        Animation {
            frame_durations: a.frame_durations,
            current_frame: (a.current_frame + 1) as usize,
            time_spent_in_current_frame: (t - d) as u32,
            done: a.done || a.current_frame + 1 >= a.frame_durations@.len(),
        }
    } else {
        Animation {
            frame_durations: a.frame_durations,
            current_frame: a.current_frame,
            time_spent_in_current_frame: t as u32,
            done: a.done,
        }
    }
}

/// The animation can take a step of `delta`: it is on one of its frames and
/// the time shown does not overflow.
pub open spec fn can_advance(a: Animation, delta: u32) -> bool {
    a.current_frame < a.frame_durations@.len() && a.time_spent_in_current_frame + delta <= u32::MAX
}

/// The animation rewound to its first frame.
pub open spec fn rewound(a: Animation) -> Animation {
    Animation { frame_durations: a.frame_durations, current_frame: 0, time_spent_in_current_frame: 0, done: false }
}

impl Animation {
    /// Lets `delta_time` milliseconds pass (see [`advanced`]).
    pub fn advance(&mut self, delta_time: u32)
        requires
            can_advance(*old(self), delta_time),
        ensures
            *final(self) == advanced(*old(self), delta_time),
    {
        let n = self.frame_durations.len();
        self.time_spent_in_current_frame = self.time_spent_in_current_frame + delta_time;
        let d = self.frame_durations[self.current_frame];
        if self.time_spent_in_current_frame >= d {
            self.time_spent_in_current_frame = self.time_spent_in_current_frame - d;
            self.current_frame = self.current_frame + 1;
            if self.current_frame >= n {
                self.done = true;
            }
        }
    }
}

impl AnimationSystem {
    /// No animations, started at time zero.
    pub fn new() -> (r: AnimationSystem)
        ensures
            r.animations@ == Seq::<Animation>::empty(),
            r.start_time == 0,
    {
        AnimationSystem { animations: Vec::new(), start_time: 0 }
    }

    /// Starts playing at `monotime`: every animation back to its first frame.
    pub fn init_render(&mut self, monotime: u128)
        ensures
            final(self).start_time == monotime,
            final(self).animations@ == old(self).animations@.map_values(|a: Animation| rewound(a)),
    {
        self.start_time = monotime;
        let mut rest: Vec<Animation> = Vec::new();
        std::mem::swap(&mut rest, &mut self.animations);
        let ghost orig = rest@;
        let mut reversed: Vec<Animation> = Vec::new();
        while rest.len() > 0
            invariant
                self.start_time == monotime,
                self.animations@ == Seq::<Animation>::empty(),
                rest@.len() + reversed@.len() == orig.len(),
                rest@ == orig.take(rest@.len() as int),
                forall|i: int| 0 <= i < reversed@.len() ==> #[trigger] reversed@[i] == rewound(orig[orig.len() - 1 - i]),
            decreases rest@.len(),
        {
            let a = rest.pop().unwrap();
            reversed.push(Animation {
                frame_durations: a.frame_durations,
                current_frame: 0,
                time_spent_in_current_frame: 0,
                done: false,
            });
        }
        while reversed.len() > 0
            invariant
                self.start_time == monotime,
                self.animations@.len() + reversed@.len() == orig.len(),
                forall|i: int| 0 <= i < reversed@.len() ==> #[trigger] reversed@[i] == rewound(orig[orig.len() - 1 - i]),
                forall|i: int| 0 <= i < self.animations@.len() ==> #[trigger] self.animations@[i] == rewound(orig[i]),
            decreases reversed@.len(),
        {
            let a = reversed.pop().unwrap();
            self.animations.push(a);
        }
        assert(self.animations@ =~= orig.map_values(|a: Animation| rewound(a)));
    }

    /// Advances every animation by the time since the last step (the
    /// difference truncated to 32 bits, as milliseconds) and returns whether
    /// all are done.
    pub fn advance(&mut self, monotime: u128) -> (all_done: bool)
        requires
            monotime >= old(self).start_time,
            forall|i: int|
                0 <= i < old(self).animations@.len() ==> can_advance(
                    #[trigger] old(self).animations@[i],
                    (monotime - old(self).start_time) as u32,
                ),
        ensures
            final(self).start_time == monotime,
            final(self).animations@ == old(self).animations@.map_values(
                |a: Animation| advanced(a, (monotime - old(self).start_time) as u32),
            ),
            all_done == forall|i: int| 0 <= i < final(self).animations@.len() ==> (#[trigger] final(self).animations@[i]).done,
    {
        let delta_time = (monotime - self.start_time) as u32;
        self.start_time = monotime;
        let mut rest: Vec<Animation> = Vec::new();
        std::mem::swap(&mut rest, &mut self.animations);
        let ghost orig = rest@;
        let mut reversed: Vec<Animation> = Vec::new();
        while rest.len() > 0
            invariant
                self.start_time == monotime,
                self.animations@ == Seq::<Animation>::empty(),
                rest@.len() + reversed@.len() == orig.len(),
                rest@ == orig.take(rest@.len() as int),
                forall|i: int| 0 <= i < orig.len() ==> can_advance(#[trigger] orig[i], delta_time),
                forall|i: int| 0 <= i < reversed@.len() ==> #[trigger] reversed@[i] == advanced(orig[orig.len() - 1 - i], delta_time),
            decreases rest@.len(),
        {
            let mut a = rest.pop().unwrap();
            assert(a == orig[rest@.len() as int]);
            a.advance(delta_time);
            reversed.push(a);
        }
        let mut all_done = true;
        while reversed.len() > 0
            invariant
                self.start_time == monotime,
                self.animations@.len() + reversed@.len() == orig.len(),
                forall|i: int| 0 <= i < reversed@.len() ==> #[trigger] reversed@[i] == advanced(orig[orig.len() - 1 - i], delta_time),
                forall|i: int| 0 <= i < self.animations@.len() ==> #[trigger] self.animations@[i] == advanced(orig[i], delta_time),
                all_done == forall|i: int| 0 <= i < self.animations@.len() ==> (#[trigger] self.animations@[i]).done,
            decreases reversed@.len(),
        {
            let a = reversed.pop().unwrap();
            if !a.done {
                all_done = false;
            }
            let ghost before = self.animations@;
            self.animations.push(a);
            proof {
                assert(self.animations@ == before.push(a));
                if all_done {
                    assert forall|i: int| 0 <= i < self.animations@.len() implies (#[trigger] self.animations@[i]).done by {
                        if i < before.len() {
                            assert(self.animations@[i] == before[i]);
                        }
                    }
                } else if a.done {
                    let w = choose|w: int| 0 <= w < before.len() && !(#[trigger] before[w]).done;
                    assert(self.animations@[w] == before[w]);
                } else {
                    assert(!self.animations@[before.len() as int].done);
                }
            }
        }
        assert(self.animations@ =~= orig.map_values(|a: Animation| advanced(a, delta_time)));
        all_done
    }
}

} // verus!
