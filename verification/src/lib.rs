//! Procedural locomotion for legged creatures, on whole numbers.
//!
//! Positions are counted in thousandths of a world unit and times in
//! thousandths of a second, so that every result is exact and the same on
//! every machine. A value that the whole numbers at hand cannot hold is
//! treated as a value that is not there: it is passed over, and what it
//! would have changed stays as it was.
//!
//! A frame of a creature runs in this order:
//!
//! 1. [`body_pose::handle_height`] reads where the feet stood and settles the
//!    body's up direction and position;
//! 2. [`creature::determine_side`] and [`creature::handle_leg_creature`]
//!    decide which group of limbs may begin a step;
//! 3. [`creature::handle_legs`] moves every foot towards its foothold, which
//!    [`foothold::find_step`] picks among the ground hits that the caller
//!    has collected along [`foothold::probe_rays`];
//! 4. [`ik_arm::handle_ik`] places the joints of every limb for the new
//!    target of its foot.
//!
//! The module [`reach`] proves how closely the joints keep the lengths of
//! the bones.

pub mod arith;
pub mod body_pose;
pub mod creature;
pub mod foothold;
pub mod frame;
pub mod ik_arm;
pub mod leg;
pub mod network;
pub mod reach;
pub mod vec3;
pub mod weapon;
pub mod weapon_inventory;
