//! A table of characters and of parent links, and the fixed order in which a
//! tick runs: input, then movement, then animation.
use vstd::prelude::*;
use crate::animation::{bind_spec, on_changed_spec, CharacterAnimation, EntityId, PlayCommand};
use crate::geometry::GroundPoint;
use crate::input::{hit_ok, move_to, move_to_spec};
use crate::motion::{advance_spec, lemma_advance_facts, Mover};

verus! {

/// One character: its entity, its motion, its animation binding, and whether
/// the player's input steers it.
#[derive(Clone, Copy, Debug, PartialEq, Eq, Structural)]
pub struct Actor {
    pub entity: EntityId,
    pub mover: Mover,
    pub animation: CharacterAnimation,
    pub controlled: bool,
}

/// The characters, and the parent of each entity that has one, as
/// `(child, parent)` links; a later link for a child overrides an earlier one.
pub struct World {
    pub actors: Vec<Actor>,
    pub parents: Vec<(EntityId, EntityId)>,
}

/// The parent of `e`: the last link recorded for it.
pub open spec fn parent_of(links: Seq<(EntityId, EntityId)>, e: EntityId) -> Option<EntityId>
    decreases links.len(),
{
    if links.len() == 0 {
        None
    } else if links.last().0 == e {
        Some(links.last().1)
    } else {
        parent_of(links.drop_last(), e)
    }
}

/// The index of the character whose entity is `e`: the last one that has it.
pub open spec fn actor_index(actors: Seq<Actor>, e: EntityId) -> Option<int>
    decreases actors.len(),
{
    if actors.len() == 0 {
        None
    } else if actors.last().entity == e {
        Some(actors.len() - 1)
    } else {
        actor_index(actors.drop_last(), e)
    }
}

/// The character that owns an animation player: the one two levels above it.
pub open spec fn owner_of(
    actors: Seq<Actor>,
    links: Seq<(EntityId, EntityId)>,
    player: EntityId,
) -> Option<int> {
    match parent_of(links, player) {
        Some(scene) => match parent_of(links, scene) {
            Some(root) => actor_index(actors, root),
            None => None,
        },
        None => None,
    }
}

/// The characters after a new animation player `player` appears, and the
/// command sent: its owner, if any, takes it as in `bind_spec`.
pub open spec fn on_added_spec(
    actors: Seq<Actor>,
    links: Seq<(EntityId, EntityId)>,
    player: EntityId,
) -> (Seq<Actor>, Option<PlayCommand>) {
    match owner_of(actors, links, player) {
        Some(i) => {
            let a = actors[i];
            let (anim, c) = bind_spec(a.animation, player);
            (actors.update(i, Actor { animation: anim, ..a }), c)
        },
        None => (actors, None),
    }
}

/// Changing a character but not its entity leaves every lookup by entity as it was.
pub proof fn lemma_actor_index_update(actors: Seq<Actor>, i: int, x: Actor, e: EntityId)
    requires
        0 <= i < actors.len(),
        x.entity == actors[i].entity,
    ensures
        actor_index(actors.update(i, x), e) == actor_index(actors, e),
    decreases actors.len(),
{
    let u = actors.update(i, x);
    if i < actors.len() - 1 {
        assert(u.drop_last() =~= actors.drop_last().update(i, x));
        lemma_actor_index_update(actors.drop_last(), i, x, e);
    } else {
        assert(u.drop_last() =~= actors.drop_last());
    }
}

/// An owner found for a player is a valid index.
pub proof fn lemma_actor_index_in_range(actors: Seq<Actor>, e: EntityId)
    ensures
        actor_index(actors, e) matches Some(i) ==> 0 <= i < actors.len() && actors[i].entity
            == e,
    decreases actors.len(),
{
    if actors.len() > 0 {
        lemma_actor_index_in_range(actors.drop_last(), e);
    }
}

/// Binding happens exactly once: a player that appears two levels below an
/// unbound character is recorded on it and starts its idle clip, and no other
/// character changes; a later player whose ancestry reaches no character
/// records nothing and sends nothing.
pub proof fn lemma_bind_once(
    actors: Seq<Actor>,
    links: Seq<(EntityId, EntityId)>,
    first: EntityId,
    second: EntityId,
    i: int,
)
    requires
        owner_of(actors, links, first) == Some(i),
        actors[i].animation.animation_player is None,
        owner_of(actors, links, second) is None,
    ensures
        ({
            let (a1, c1) = on_added_spec(actors, links, first);
            let (a2, c2) = on_added_spec(a1, links, second);
            &&& a1.len() == actors.len()
            &&& a1[i].animation == (CharacterAnimation {
                animation_player: Some(first),
                ..actors[i].animation
            })
            &&& a1[i].mover == actors[i].mover
            &&& forall|j: int| 0 <= j < actors.len() && j != i ==> a1[j] == actors[j]
            &&& c1 == Some(PlayCommand { player: first, clip: actors[i].animation.idle_animation })
            &&& a2 == a1
            &&& c2 is None
        }),
{
    let scene = parent_of(links, first)->0;
    let root = parent_of(links, scene)->0;
    lemma_actor_index_in_range(actors, root);
    let a = actors[i];
    let x = Actor { animation: bind_spec(a.animation, first).0, ..a };
    match parent_of(links, second) {
        Some(s2) => match parent_of(links, s2) {
            Some(r2) => lemma_actor_index_update(actors, i, x, r2),
            None => {},
        },
        None => {},
    }
}

/// One character's part of a tick.
pub open spec fn tick_actor(a: Actor, dt: int, pressed: bool, hit: Option<GroundPoint>) -> (
    Actor,
    Option<PlayCommand>,
) {
    let state = if a.controlled {
        move_to_spec(a.mover.state, pressed, hit)
    } else {
        a.mover.state
    };
    let m = advance_spec(Mover { state, ..a.mover }, dt);
    let (anim, c) = on_changed_spec(a.animation, m.state);
    (Actor { mover: m, animation: anim, ..a }, c)
}

/// The commands that a tick sends, character by character.
pub open spec fn tick_commands(
    actors: Seq<Actor>,
    dt: int,
    pressed: bool,
    hit: Option<GroundPoint>,
) -> Seq<PlayCommand>
    decreases actors.len(),
{
    if actors.len() == 0 {
        seq![]
    } else {
        let rest = tick_commands(actors.drop_last(), dt, pressed, hit);
        match tick_actor(actors.last(), dt, pressed, hit).1 {
            Some(c) => rest.push(c),
            None => rest,
        }
    }
}

impl World {
    pub open spec fn wf(&self) -> bool {
        forall|i: int| 0 <= i < self.actors@.len() ==> (#[trigger] self.actors@[i]).mover.wf()
    }

    pub fn new() -> (r: World)
        ensures
            r.actors@ == Seq::<Actor>::empty(),
            r.parents@ == Seq::<(EntityId, EntityId)>::empty(),
    {
        World { actors: Vec::new(), parents: Vec::new() }
    }

    /// Adds a character.
    pub fn spawn(&mut self, actor: Actor)
        requires
            old(self).wf(),
            actor.mover.wf(),
        ensures
            final(self).actors@ == old(self).actors@.push(actor),
            final(self).parents@ == old(self).parents@,
            final(self).wf(),
    {
        self.actors.push(actor);
    }

    /// Records that `child` now hangs under `parent`.
    pub fn set_parent(&mut self, child: EntityId, parent: EntityId)
        ensures
            final(self).actors@ == old(self).actors@,
            final(self).parents@ == old(self).parents@.push((child, parent)),
    {
        self.parents.push((child, parent));
    }

    /// The parent of `e`, if it has one.
    pub fn parent(&self, e: EntityId) -> (r: Option<EntityId>)
        ensures
            r == parent_of(self.parents@, e),
    {
        let mut i: usize = self.parents.len();
        assert(self.parents@.subrange(0, i as int) =~= self.parents@);
        while i > 0
            invariant
                i <= self.parents@.len(),
                parent_of(self.parents@, e) == parent_of(self.parents@.subrange(0, i as int), e),
            decreases i,
        {
            let link = self.parents[i - 1];
            let ghost pre = self.parents@.subrange(0, i as int);
            assert(pre.drop_last() =~= self.parents@.subrange(0, i - 1));
            if link.0 == e {
                return Some(link.1);
            }
            i = i - 1;
        }
        None
    }

    /// The index of the character whose entity is `e`, if there is one.
    pub fn find_actor(&self, e: EntityId) -> (r: Option<usize>)
        ensures
            r matches Some(i) ==> i < self.actors@.len() && actor_index(self.actors@, e) == Some(
                i as int,
            ),
            r is None ==> actor_index(self.actors@, e) is None,
    {
        let mut i: usize = self.actors.len();
        assert(self.actors@.subrange(0, i as int) =~= self.actors@);
        while i > 0
            invariant
                i <= self.actors@.len(),
                actor_index(self.actors@, e) == actor_index(self.actors@.subrange(0, i as int), e),
            decreases i,
        {
            let ghost pre = self.actors@.subrange(0, i as int);
            assert(pre.drop_last() =~= self.actors@.subrange(0, i - 1));
            if self.actors[i - 1].entity == e {
                return Some(i - 1);
            }
            i = i - 1;
        }
        None
    }

    /// One tick of `dt` microseconds: for each character in turn, the input
    /// (if it is the controlled one), then the movement, then the animation.
    /// Returns the play commands, in the order of the characters.
    pub fn tick(&mut self, dt: u32, pressed: bool, hit: Option<GroundPoint>) -> (r: Vec<
        PlayCommand,
    >)
        requires
            old(self).wf(),
            hit_ok(hit),
        ensures
            final(self).wf(),
            final(self).parents@ == old(self).parents@,
            final(self).actors@.len() == old(self).actors@.len(),
            forall|i: int|
                0 <= i < old(self).actors@.len() ==> #[trigger] final(self).actors@[i]
                    == tick_actor(old(self).actors@[i], dt as int, pressed, hit).0,
            r@ == tick_commands(old(self).actors@, dt as int, pressed, hit),
    {
        let ghost start = self.actors@;
        let mut out: Vec<PlayCommand> = Vec::new();
        let mut i: usize = 0;
        while i < self.actors.len()
            invariant
                self.actors@.len() == start.len(),
                i <= start.len(),
                self.parents@ == old(self).parents@,
                start == old(self).actors@,
                hit_ok(hit),
                forall|j: int| 0 <= j < start.len() ==> (#[trigger] start[j]).mover.wf(),
                forall|j: int|
                    0 <= j < i ==> #[trigger] self.actors@[j] == tick_actor(
                        start[j],
                        dt as int,
                        pressed,
                        hit,
                    ).0,
                forall|j: int| i <= j < start.len() ==> #[trigger] self.actors@[j] == start[j],
                out@ == tick_commands(start.subrange(0, i as int), dt as int, pressed, hit),
            decreases start.len() - i,
        {
            let mut a = self.actors[i];
            assert(a == start[i as int]);
            if a.controlled {
                move_to(&mut a.mover.state, pressed, hit);
            }
            proof {
                lemma_advance_facts(a.mover, dt as int);
            }
            a.mover.advance(dt);
            let c = a.animation.on_changed(&a.mover.state);
            self.actors.set(i, a);
            let ghost pre = start.subrange(0, i + 1);
            assert(pre.drop_last() =~= start.subrange(0, i as int));
            if let Some(cmd) = c {
                out.push(cmd);
            }
            i = i + 1;
        }
        assert(start.subrange(0, start.len() as int) =~= start);
        proof {
            assert forall|j: int| 0 <= j < self.actors@.len() implies (
            #[trigger] self.actors@[j]).mover.wf() by {
                lemma_advance_facts(
                    Mover {
                        state: if start[j].controlled {
                            move_to_spec(start[j].mover.state, pressed, hit)
                        } else {
                            start[j].mover.state
                        },
                        ..start[j].mover
                    },
                    dt as int,
                );
            }
        }
        out
    }
}

impl CharacterAnimation {
    /// A new animation player has appeared: where a character stands two levels
    /// above it, that character's binding takes it (the first time) and the idle
    /// clip starts; otherwise it belongs to scenery and nothing changes.
    pub fn on_added(world: &mut World, player: EntityId) -> (r: Option<PlayCommand>)
        requires
            old(world).wf(),
        ensures
            final(world).parents@ == old(world).parents@,
            final(world).wf(),
            (final(world).actors@, r) == on_added_spec(old(world).actors@, old(world).parents@, player),
    {
        let scene = match world.parent(player) {
            Some(s) => s,
            None => return None,
        };
        let root = match world.parent(scene) {
            Some(g) => g,
            None => return None,
        };
        let i = match world.find_actor(root) {
            Some(i) => i,
            None => return None,
        };
        let mut a = world.actors[i];
        let c = a.animation.bind(player);
        world.actors.set(i, a);
        assert forall|j: int| 0 <= j < world.actors@.len() implies (
        #[trigger] world.actors@[j]).mover.wf() by {
            assert(old(world).actors@[j].mover.wf());
        }
        c
    }
}

} // verus!
