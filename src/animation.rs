//! Which clip a character's animation player loops, and when to tell it.
use vstd::prelude::*;
use crate::motion::CharacterState;

verus! {

/// A host entity, by its bit pattern.
#[derive(Clone, Copy, Debug, PartialEq, Eq, Structural)]
pub struct EntityId {
    pub bits: u64,
}

/// An animation clip, by its index in the host's table of loaded clips.
#[derive(Clone, Copy, Debug, PartialEq, Eq, Structural)]
pub struct ClipId {
    pub index: u64,
}

/// "Loop `clip` on the animation player `player`."
#[derive(Clone, Copy, Debug, PartialEq, Eq, Structural)]
pub struct PlayCommand {
    pub player: EntityId,
    pub clip: ClipId,
}

/// A character's two clips, its animation player once one is bound, and the
/// motion state it last saw.
#[derive(Clone, Copy, Debug, PartialEq, Eq, Structural)]
pub struct CharacterAnimation {
    pub idle_animation: ClipId,
    pub running_animation: ClipId,
    pub animation_player: Option<EntityId>,
    /// The motion state seen at the last look.
    pub last_seen: CharacterState,
}

/// The binding after a new animation player `player` is found to belong to the
/// character: the first one is recorded and starts the idle clip.
pub open spec fn bind_spec(a: CharacterAnimation, player: EntityId) -> (
    CharacterAnimation,
    Option<PlayCommand>,
) {
    if a.animation_player is None {
        (
            CharacterAnimation { animation_player: Some(player), ..a },
            Some(PlayCommand { player, clip: a.idle_animation }),
        )
    } else {
        (a, None)
    }
}

/// The binding after the character is seen in `state`, and the command that
/// goes out: one only where the state changed value and a player is bound,
/// carrying the clip for the new state.
pub open spec fn on_changed_spec(a: CharacterAnimation, state: CharacterState) -> (
    CharacterAnimation,
    Option<PlayCommand>,
) {
    let a2 = CharacterAnimation { last_seen: state, ..a };
    if state != a.last_seen && a.animation_player is Some {
        (
            a2,
            Some(
                PlayCommand { player: a.animation_player->0, clip: a.clip_for(state is MovingTo) },
            ),
        )
    } else {
        (a2, None)
    }
}

impl CharacterAnimation {
    /// The clip that goes with idling or with moving.
    pub open spec fn clip_for(self, moving: bool) -> ClipId {
        if moving {
            self.running_animation
        } else {
            self.idle_animation
        }
    }

    /// The binding of a character that has just spawned, idle and with no player.
    pub fn new(idle_animation: ClipId, running_animation: ClipId) -> (r: CharacterAnimation)
        ensures
            r == (CharacterAnimation {
                idle_animation,
                running_animation,
                animation_player: None,
                last_seen: CharacterState::Idle,
            }),
    {
        CharacterAnimation {
            idle_animation,
            running_animation,
            animation_player: None,
            last_seen: CharacterState::Idle,
        }
    }

    /// Binds an animation player that belongs to this character, once: the
    /// first one is recorded and starts the idle clip; a later one changes nothing.
    pub fn bind(&mut self, player: EntityId) -> (r: Option<PlayCommand>)
        ensures
            (*final(self), r) == bind_spec(*old(self), player),
    {
        if self.animation_player.is_none() {
            self.animation_player = Some(player);
            Some(PlayCommand { player, clip: self.idle_animation })
        } else {
            None
        }
    }

    /// Looks at the motion state of this tick and says what to play, if anything.
    pub fn on_changed(&mut self, state: &CharacterState) -> (r: Option<PlayCommand>)
        ensures
            (*final(self), r) == on_changed_spec(*old(self), *state),
    {
        let changed = *state != self.last_seen;
        self.last_seen = *state;
        match self.animation_player {
            Some(player) if changed => {
                let clip = if state.is_moving() {
                    self.running_animation
                } else {
                    self.idle_animation
                };
                Some(PlayCommand { player, clip })
            },
            _ => None,
        }
    }
}

/// A bound player stays bound: neither a later player nor any motion state
/// resets or replaces it.
pub proof fn lemma_binding_kept(a: CharacterAnimation, other: EntityId, state: CharacterState)
    requires
        a.animation_player is Some,
    ensures
        bind_spec(a, other).0.animation_player == a.animation_player,
        bind_spec(a, other).1 is None,
        on_changed_spec(a, state).0.animation_player == a.animation_player,
{
}

/// Number of play commands sent while the character is seen in each of `states` in turn.
pub open spec fn play_count(a: CharacterAnimation, states: Seq<CharacterState>) -> nat
    decreases states.len(),
{
    if states.len() == 0 {
        0
    } else {
        let (a2, c) = on_changed_spec(a, states[0]);
        (if c is Some {
            1nat
        } else {
            0nat
        }) + play_count(a2, states.drop_first())
    }
}

/// Number of places in `states` whose value differs from the one before; the
/// first is compared with `prev`.
pub open spec fn state_changes(prev: CharacterState, states: Seq<CharacterState>) -> nat
    decreases states.len(),
{
    if states.len() == 0 {
        0
    } else {
        (if states[0] != prev {
            1nat
        } else {
            0nat
        }) + state_changes(states[0], states.drop_first())
    }
}

/// With a player bound, exactly one play command goes out per change of the
/// motion state, and none for a state equal to the one before.
pub proof fn lemma_one_play_per_change(a: CharacterAnimation, states: Seq<CharacterState>)
    requires
        a.animation_player is Some,
    ensures
        play_count(a, states) == state_changes(a.last_seen, states),
    decreases states.len(),
{
    if states.len() > 0 {
        let (a2, c) = on_changed_spec(a, states[0]);
        lemma_one_play_per_change(a2, states.drop_first());
    }
}

/// Idle, idle, then moving to one destination for three ticks, then idle:
/// two play commands, not six.
pub proof fn lemma_two_plays_for_one_walk(a: CharacterAnimation, states: Seq<CharacterState>)
    requires
        a.animation_player is Some,
        a.last_seen is Idle,
        states.len() == 6,
        states[0] is Idle,
        states[1] is Idle,
        states[2] is MovingTo,
        states[3] == states[2],
        states[4] == states[2],
        states[5] is Idle,
    ensures
        play_count(a, states) == 2,
{
    lemma_one_play_per_change(a, states);
    let s1 = states.drop_first();
    let s2 = s1.drop_first();
    let s3 = s2.drop_first();
    let s4 = s3.drop_first();
    let s5 = s4.drop_first();
    let s6 = s5.drop_first();
    assert(s1[0] == states[1] && s2[0] == states[2] && s3[0] == states[3]);
    assert(s4[0] == states[4] && s5[0] == states[5]);
    assert(s6.len() == 0);
    let idle = CharacterState::Idle;
    let walk = states[2];
    assert(state_changes(s5[0], s6) == 0);
    assert(state_changes(walk, s5) == 1);
    assert(state_changes(walk, s4) == 1);
    assert(state_changes(walk, s3) == 1);
    assert(state_changes(idle, s2) == 2);
    assert(state_changes(idle, s1) == 2);
    assert(state_changes(idle, states) == 2);
}

} // verus!
