//! Turning a click on the ground into a destination.
use vstd::prelude::*;
use crate::geometry::GroundPoint;
use crate::motion::{advance_spec, CharacterState, Mover, heading_along, stepped_position, lemma_advance_facts};

verus! {

/// The motion state after a tick's input: with the move action pressed and the
/// pointer on the ground, that point becomes the destination, whatever the
/// state was; otherwise nothing changes.
pub open spec fn move_to_spec(state: CharacterState, pressed: bool, hit: Option<GroundPoint>) -> CharacterState {
    match hit {
        Some(p) => if pressed {
            CharacterState::MovingTo(p)
        } else {
            state
        },
        None => state,
    }
}

/// A ground hit, where there is one, lies in the playable square.
pub open spec fn hit_ok(hit: Option<GroundPoint>) -> bool {
    hit matches Some(p) ==> p.in_bounds()
}

/// Applies one tick's input to the controlled character's motion state.
pub fn move_to(state: &mut CharacterState, pressed: bool, hit: Option<GroundPoint>)
    requires
        old(state).wf(),
        hit_ok(hit),
    ensures
        *final(state) == move_to_spec(*old(state), pressed, hit),
        final(state).wf(),
{
    if let Some(p) = hit {
        if pressed {
            *state = CharacterState::MovingTo(p);
        }
    }
}

/// Re-targeting replaces the destination at once: after a click on `d2` the
/// next tick depends on `d2` alone, not on any earlier destination, and it
/// steps toward `d2` and faces along the way to it.
pub proof fn lemma_retarget(m: Mover, d2: GroundPoint, dt: int)
    requires
        m.wf(),
        0 <= dt <= u32::MAX,
        d2.in_bounds(),
    ensures
        ({
            let m2 = Mover { state: move_to_spec(m.state, true, Some(d2)), ..m };
            let fresh = Mover { state: CharacterState::MovingTo(d2), ..m };
            let next = advance_spec(m2, dt);
            &&& m2.state == CharacterState::MovingTo(d2)
            &&& next == advance_spec(fresh, dt)
            &&& next.position == m.position || next.position == stepped_position(m.position, d2, dt)
            &&& next.position != m.position ==> next.facing == heading_along(
                d2.x - m.position.x,
                d2.z - m.position.z,
                m.yaw_flipped,
            )
        }),
{
    let fresh = Mover { state: CharacterState::MovingTo(d2), ..m };
    lemma_advance_facts(fresh, dt);
}

} // verus!
