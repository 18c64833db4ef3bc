//! Springs that move a value to a target.
//!
//! Where a spring is and how fast it moves is computed by the caller; the
//! spring decides how it goes on from there and when it has come to rest.
use vstd::prelude::*;

use crate::number::{Number, HALF_BITS, ONE_BITS};

verus! {

/// The bits of 0.2, the response of the default spring in seconds: 80% of the
/// way in ~100 ms, 95% in 150 ms.
pub const DEFAULT_RESPONSE_BITS: u64 = 0x3FC9_9999_9999_999A;

/// The bits of 2 pi divided by the default response.
pub const DEFAULT_OMEGA_BITS: u64 = 0x403F_6A7A_2955_385E;

/// The bits of 1. Critically damped: the fastest settle without overshoot.
pub const DEFAULT_DAMPING_FRACTION_BITS: u64 = ONE_BITS;

/// The bits of 0.5. The animation is complete once it is this close to the
/// target, in points.
pub const POSITION_EPSILON_BITS: u64 = HALF_BITS;

/// The bits of 20. The animation is complete once it is also slower than this,
/// in points per second. Near the end of a critically damped move the speed is
/// ~15 pt/s; the bound only stops a fast pass through the target (after a
/// retarget) from counting as complete.
pub const VELOCITY_EPSILON_BITS: u64 = 0x4034_0000_0000_0000;

/// The bits of 0.01. No animation is complete before this time, in seconds.
pub const SHORTEST_BITS: u64 = 0x3F84_7AE1_47AE_147B;

/// How a spring moves at the time of a new target.
#[derive(Clone, Copy, Debug, PartialEq, Eq, Structural)]
pub struct Motion {
    pub value: Number,
    pub velocity: Number,
    /// The velocity times the way that remains: positive if the spring moves
    /// toward the new target.
    pub toward: Number,
    /// The natural frequency times the distance that remains: the fastest a
    /// critically damped spring can approach its target without passing it.
    pub max_toward: Number,
    /// That speed, in the direction of the new target.
    pub capped: Number,
}

impl Motion {
    /// The velocity that the spring keeps. That toward the new target is
    /// capped.
    pub open spec fn kept_velocity(self) -> Number {
        if (Number { bits: 0 }).less(self.toward) && self.max_toward.less(self.velocity.absolute()) {
            self.capped
        } else {
            self.velocity
        }
    }
}

/// How far a spring has come.
#[derive(Clone, Copy, Debug, PartialEq, Eq, Structural)]
pub struct Progress {
    /// The time since it was started or got its target, in seconds.
    pub elapsed: Number,
    /// How far it is from its target.
    pub distance: Number,
    pub velocity: Number,
}

impl Progress {
    /// The spring has come to rest at its target.
    pub open spec fn at_rest(self) -> bool {
        &&& !self.elapsed.less(Number { bits: SHORTEST_BITS })
        &&& self.distance.absolute().less(Number { bits: POSITION_EPSILON_BITS })
        &&& self.velocity.absolute().less(Number { bits: VELOCITY_EPSILON_BITS })
    }
}

/// A spring on its way to a target.
#[derive(Clone, Copy, Debug, PartialEq, Eq, Structural)]
pub struct SpringAnimation {
    pub initial_value: Number,
    pub target_value: Number,
    pub initial_velocity: Number,
    /// In nanoseconds.
    pub start_time: u64,
    pub response: Number,
    pub damping_fraction: Number,
    /// The natural frequency.
    pub omega_n: Number,
    /// The frequency with the damping.
    pub omega_d: Number,
}

impl SpringAnimation {
    /// The default spring at rest.
    pub open spec fn by_default(initial_value: Number, target_value: Number, now: u64) -> SpringAnimation {
        SpringAnimation {
            initial_value,
            target_value,
            initial_velocity: Number { bits: 0 },
            start_time: now,
            response: Number { bits: DEFAULT_RESPONSE_BITS },
            damping_fraction: Number { bits: DEFAULT_DAMPING_FRACTION_BITS },
            omega_n: Number { bits: DEFAULT_OMEGA_BITS },
            omega_d: Number { bits: 0 },
        }
    }

    /// The spring with another target, from where it is.
    pub open spec fn retargeted(self, new_target: Number, motion: Motion, now: u64) -> SpringAnimation {
        SpringAnimation {
            initial_value: motion.value,
            target_value: new_target,
            initial_velocity: motion.kept_velocity(),
            start_time: now,
            ..self
        }
    }

    /// A spring whose frequencies the caller derives from the response and the
    /// damping.
    pub fn new(
        initial_value: Number,
        target_value: Number,
        initial_velocity: Number,
        response: Number,
        damping_fraction: Number,
        omega_n: Number,
        omega_d: Number,
        now: u64,
    ) -> (s: SpringAnimation)
        ensures
            s == (SpringAnimation {
                initial_value,
                target_value,
                initial_velocity,
                start_time: now,
                response,
                damping_fraction,
                omega_n,
                omega_d,
            }),
    {
        SpringAnimation {
            initial_value,
            target_value,
            initial_velocity,
            start_time: now,
            response,
            damping_fraction,
            omega_n,
            omega_d,
        }
    }

    pub fn with_defaults(initial_value: Number, target_value: Number, now: u64) -> (s: SpringAnimation)
        ensures
            s == SpringAnimation::by_default(initial_value, target_value, now),
    {
        SpringAnimation::new(
            initial_value,
            target_value,
            Number { bits: 0 },
            Number { bits: DEFAULT_RESPONSE_BITS },
            Number { bits: DEFAULT_DAMPING_FRACTION_BITS },
            Number { bits: DEFAULT_OMEGA_BITS },
            Number { bits: 0 },
            now,
        )
    }

    /// Moves the target, keeping the current value and velocity. The velocity
    /// toward the new target is capped at the fastest a critically damped
    /// spring can approach its target without passing it.
    pub fn retarget(&mut self, new_target: Number, motion: Motion, now: u64)
        ensures
            *final(self) == old(self).retargeted(new_target, motion, now),
    {
        let mut velocity = motion.velocity;
        if (Number { bits: 0 }).is_less(motion.toward) && motion.max_toward.is_less(velocity.abs()) {
            velocity = motion.capped;
        }
        self.initial_value = motion.value;
        self.target_value = new_target;
        self.initial_velocity = velocity;
        self.start_time = now;
    }

    /// Whether the spring does not oscillate.
    pub fn is_overdamped(&self) -> (b: bool)
        ensures
            b == (Number { bits: ONE_BITS }).at_most(self.damping_fraction),
    {
        (Number { bits: ONE_BITS }).is_at_most(self.damping_fraction)
    }

    pub fn is_complete(&self, progress: Progress) -> (b: bool)
        ensures
            b == progress.at_rest(),
    {
        if progress.elapsed.is_less(Number { bits: SHORTEST_BITS }) {
            return false;
        }
        progress.distance.abs().is_less(Number { bits: POSITION_EPSILON_BITS })
            && progress.velocity.abs().is_less(Number { bits: VELOCITY_EPSILON_BITS })
    }

    pub fn target(&self) -> (v: Number)
        ensures
            v == self.target_value,
    {
        self.target_value
    }
}

/// A new target keeps the spring where it is, and it never moves toward the
/// target faster than it can without passing it.
pub proof fn retarget_does_not_jump(s: SpringAnimation, new_target: Number, motion: Motion, now: u64)
    requires
        motion.capped.absolute() == motion.max_toward,
        !motion.velocity.nan(),
        !motion.max_toward.nan(),
    ensures
        ({
            let after = s.retargeted(new_target, motion, now);
            &&& after.initial_value == motion.value
            &&& after.target_value == new_target
            &&& (Number { bits: 0 }).less(motion.toward) ==> after.initial_velocity.absolute().at_most(
                motion.max_toward,
            )
            &&& !(Number { bits: 0 }).less(motion.toward) ==> after.initial_velocity == motion.velocity
        }),
{
}

/// A spring that passes its target fast has not come to rest.
pub proof fn fast_pass_is_not_rest(progress: Progress)
    requires
        (Number { bits: VELOCITY_EPSILON_BITS }).at_most(progress.velocity.absolute()),
    ensures
        !progress.at_rest(),
{
}

/// A new target changes where the spring is, how fast it goes, where to and
/// since when, and nothing of how it swings. Its velocity is capped only where
/// it goes toward the target faster than it can without passing it.
pub proof fn retarget_keeps_the_spring(s: SpringAnimation, new_target: Number, motion: Motion, now: u64)
    ensures
        ({
            let after = s.retargeted(new_target, motion, now);
            let too_fast = (Number { bits: 0 }).less(motion.toward) && motion.max_toward.less(
                motion.velocity.absolute(),
            );
            &&& after.response == s.response
            &&& after.damping_fraction == s.damping_fraction
            &&& after.omega_n == s.omega_n
            &&& after.omega_d == s.omega_d
            &&& after.initial_value == motion.value
            &&& after.target_value == new_target
            &&& after.start_time == now
            &&& too_fast ==> after.initial_velocity == motion.capped
            &&& !too_fast ==> after.initial_velocity == motion.velocity
        }),
{
}

/// The usual spring starts at rest, at the value and at the time.
pub proof fn usual_spring_starts_at_rest(initial_value: Number, target_value: Number, now: u64)
    ensures
        ({
            let s = SpringAnimation::by_default(initial_value, target_value, now);
            &&& s.initial_value == initial_value
            &&& s.target_value == target_value
            &&& s.start_time == now
            &&& s.initial_velocity.bits == 0
            &&& s.damping_fraction.bits == ONE_BITS
            &&& s.response.bits == 0x3FC9_9999_9999_999A
        }),
{
}

/// A spring is at rest exactly if it has swung for ten milliseconds, is less
/// than half a point from its target and slower than twenty points per second,
/// in either direction.
pub proof fn rest_is_close_and_slow(progress: Progress)
    requires
        !progress.elapsed.nan(),
        !progress.distance.nan(),
        !progress.velocity.nan(),
    ensures
        progress.at_rest() <==> {
            &&& progress.elapsed.order() >= 0x3F84_7AE1_47AE_147B
            &&& progress.distance.magnitude() < 0x3FE0_0000_0000_0000
            &&& progress.velocity.magnitude() < 0x4034_0000_0000_0000
        },
{
}

} // verus!
