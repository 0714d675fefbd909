//! The discrete decisions of one movement step: whether the player crouches,
//! which gait sets its horizontal speed, and whether a jump starts. The
//! speeds, gravity and collision against the height map are floating point
//! and stay with the application.

use vstd::prelude::*;

verus! {

/// Which of the three movement speeds applies.
#[derive(Debug, Clone, Copy, PartialEq, Eq, Structural)]
pub enum Gait {
    Crouch,
    Sprint,
    Walk,
}

/// What one movement step decided from the keys and the grounded flag.
#[derive(Debug, Clone, Copy, PartialEq, Eq, Structural)]
pub struct MovementDecision {
    /// The speed class of the horizontal move.
    pub gait: Gait,
    /// Whether a jump starts this step.
    pub jump: bool,
    /// Whether the player crouches after the step's decisions.
    pub crouching: bool,
}

/// The gait: crouching (Ctrl held on the ground) wins, then sprinting
/// (Shift held while moving forward), else walking.
pub open spec fn gait_for(ctrl_held: bool, shift_held: bool, forward_held: bool, grounded: bool) -> Gait {
    if ctrl_held && grounded {
        Gait::Crouch
    } else if forward_held && shift_held {
        Gait::Sprint
    } else {
        Gait::Walk
    }
}

/// Decide one movement step. `ctrl_held` and `shift_held` say whether
/// either Control or either Shift key is held, `forward_held` whether the
/// forward key is held, `grounded` whether the player stood on the ground
/// at the start of the step and `jump_pressed` whether the jump key was
/// just pressed. A jump starts only from the ground, and it ends a crouch.
pub fn decide_movement(
    ctrl_held: bool,
    shift_held: bool,
    forward_held: bool,
    grounded: bool,
    jump_pressed: bool,
) -> (r: MovementDecision)
    ensures
        r.gait == gait_for(ctrl_held, shift_held, forward_held, grounded),
        r.jump == (grounded && jump_pressed),
        r.crouching == (ctrl_held && grounded && !r.jump),
        (r.gait == Gait::Crouch) == (ctrl_held && grounded),
        !(ctrl_held && grounded) ==> ((r.gait == Gait::Sprint) == (forward_held && shift_held)),
{
    let mut crouching = ctrl_held && grounded;
    let gait = if crouching {
        Gait::Crouch
    } else if forward_held && shift_held {
        Gait::Sprint
    } else {
        Gait::Walk
    };
    let jump = grounded && jump_pressed;
    if jump {
        crouching = false;
    }
    MovementDecision { gait, jump, crouching }
}

/// The gait rules: the player crouches exactly when Ctrl is held on the
/// ground; otherwise, on the ground as in the air, it sprints exactly when
/// the forward key and Shift are both held, and walks else. In the air it
/// never crouches.
pub proof fn lemma_gait_rules(ctrl_held: bool, shift_held: bool, forward_held: bool, grounded: bool)
    ensures
        (gait_for(ctrl_held, shift_held, forward_held, grounded) == Gait::Crouch) == (ctrl_held
            && grounded),
        !(ctrl_held && grounded) ==> ((gait_for(ctrl_held, shift_held, forward_held, grounded)
            == Gait::Sprint) == (forward_held && shift_held)),
        !(ctrl_held && grounded) && !(forward_held && shift_held) ==> gait_for(
            ctrl_held,
            shift_held,
            forward_held,
            grounded,
        ) == Gait::Walk,
        gait_for(ctrl_held, shift_held, forward_held, false) != Gait::Crouch,
{
}

/// In the air the gait is never a crouch, and it is a sprint exactly when
/// the forward key and Shift are both held.
pub proof fn lemma_airborne_moves(ctrl_held: bool, shift_held: bool, forward_held: bool)
    ensures
        gait_for(ctrl_held, shift_held, forward_held, false) != Gait::Crouch,
        gait_for(ctrl_held, shift_held, forward_held, false) == Gait::Sprint <==> (forward_held
            && shift_held),
{
    lemma_gait_rules(ctrl_held, shift_held, forward_held, false);
}

} // verus!
