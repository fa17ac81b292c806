use arpg::animation::{CharacterAnimation, ClipId, EntityId, PlayCommand};
use arpg::geometry::{GroundPoint, MAX_COORD};
use arpg::input::move_to;
use arpg::motion::{CharacterState, Heading, Mover};
use arpg::world::{Actor, World};

const IDLE: ClipId = ClipId { index: 0 };
const RUN: ClipId = ClipId { index: 1 };

fn e(bits: u64) -> EntityId {
    EntityId { bits }
}

#[test]
fn click_sets_destination() {
    let mut s = CharacterState::idle();
    let p = GroundPoint::new(10, 20);
    move_to(&mut s, true, Some(p));
    assert_eq!(s, CharacterState::MovingTo(p));
}

#[test]
fn no_click_or_no_hit_changes_nothing() {
    let p = GroundPoint::new(10, 20);
    let mut s = CharacterState::idle();
    move_to(&mut s, false, Some(p));
    assert_eq!(s, CharacterState::Idle);
    move_to(&mut s, true, None);
    assert_eq!(s, CharacterState::Idle);
    let edge = GroundPoint::new(MAX_COORD, -MAX_COORD);
    move_to(&mut s, true, Some(edge));
    assert_eq!(s, CharacterState::MovingTo(edge));
}

#[test]
fn retarget_moves_toward_the_new_destination() {
    let d1 = GroundPoint::new(4_000_000, 0);
    let d2 = GroundPoint::new(0, -4_000_000);
    let mut m = Mover::new(GroundPoint::new(0, 0), Heading { x: 0, z: 1 }, false);
    m.state = CharacterState::moving_to(d1);
    m.advance(250_000);
    assert_eq!(m.position, GroundPoint::new(1_000_000, 0));
    move_to(&mut m.state, true, Some(d2));
    assert_eq!(m.state, CharacterState::MovingTo(d2));
    m.advance(250_000);
    // 1 m at (-1, -4) / sqrt(17), rounded away from zero.
    assert_eq!(m.position, GroundPoint::new(1_000_000 - 242_536, -970_143));
    assert_eq!(m.facing, Heading { x: -1_000_000, z: -4_000_000 });
}

#[test]
fn on_added_binds_once() {
    let mut a = CharacterAnimation::new(IDLE, RUN);
    assert_eq!(a.bind(e(7)), Some(PlayCommand { player: e(7), clip: IDLE }));
    assert_eq!(a.animation_player, Some(e(7)));
    assert_eq!(a.bind(e(8)), None);
    assert_eq!(a.animation_player, Some(e(7)));
}

#[test]
fn two_play_commands_for_one_walk() {
    let mut a = CharacterAnimation::new(IDLE, RUN);
    a.bind(e(7));
    let dest = CharacterState::moving_to(GroundPoint::new(1, 1));
    let states = [
        CharacterState::idle(),
        CharacterState::idle(),
        dest,
        dest,
        dest,
        CharacterState::idle(),
    ];
    let mut sent = Vec::new();
    for s in states.iter() {
        if let Some(c) = a.on_changed(s) {
            sent.push(c);
        }
    }
    assert_eq!(
        sent,
        vec![
            PlayCommand { player: e(7), clip: RUN },
            PlayCommand { player: e(7), clip: IDLE },
        ]
    );
}

#[test]
fn unbound_animation_sends_nothing() {
    let mut a = CharacterAnimation::new(IDLE, RUN);
    let dest = CharacterState::moving_to(GroundPoint::new(1, 1));
    assert_eq!(a.on_changed(&dest), None);
    assert_eq!(a.last_seen, dest);
    a.bind(e(3));
    assert_eq!(a.on_changed(&dest), None);
    assert_eq!(a.on_changed(&CharacterState::idle()), Some(PlayCommand { player: e(3), clip: IDLE }));
}

#[test]
fn new_destination_replays_the_running_clip() {
    let mut a = CharacterAnimation::new(IDLE, RUN);
    a.bind(e(7));
    let d1 = CharacterState::moving_to(GroundPoint::new(1, 1));
    let d2 = CharacterState::moving_to(GroundPoint::new(2, 2));
    assert_eq!(a.on_changed(&d1), Some(PlayCommand { player: e(7), clip: RUN }));
    assert_eq!(a.on_changed(&d1), None);
    assert_eq!(a.on_changed(&d2), Some(PlayCommand { player: e(7), clip: RUN }));
    assert_eq!(a.last_seen, d2);
}

fn hero(entity: u64, controlled: bool) -> Actor {
    Actor {
        entity: e(entity),
        mover: Mover::new(GroundPoint::new(0, 0), Heading { x: 0, z: 1 }, true),
        animation: CharacterAnimation::new(IDLE, RUN),
        controlled,
    }
}

#[test]
fn player_two_levels_below_a_character_is_bound() {
    let mut w = World::new();
    w.spawn(hero(1, true));
    w.set_parent(e(2), e(1));
    w.set_parent(e(3), e(2));
    // Scenery: a player under a node under a node that is no character.
    w.set_parent(e(11), e(10));
    w.set_parent(e(12), e(11));
    assert_eq!(w.parent(e(3)), Some(e(2)));
    assert_eq!(w.parent(e(1)), None);
    assert_eq!(w.find_actor(e(1)), Some(0));
    assert_eq!(w.find_actor(e(2)), None);

    assert_eq!(CharacterAnimation::on_added(&mut w, e(3)), Some(PlayCommand { player: e(3), clip: IDLE }));
    assert_eq!(w.actors[0].animation.animation_player, Some(e(3)));
    let after = w.actors.clone();
    assert_eq!(CharacterAnimation::on_added(&mut w, e(12)), None);
    assert_eq!(w.actors, after);
    // A player directly under the character is not its own.
    w.set_parent(e(4), e(1));
    assert_eq!(CharacterAnimation::on_added(&mut w, e(4)), None);
    assert_eq!(w.actors, after);
}

#[test]
fn tick_runs_input_then_movement_then_animation() {
    let mut w = World::new();
    w.spawn(hero(1, true));
    w.spawn(hero(5, false));
    w.set_parent(e(2), e(1));
    w.set_parent(e(3), e(2));
    CharacterAnimation::on_added(&mut w, e(3));
    let d = GroundPoint::new(3_000_000, 4_000_000);
    let sent = w.tick(250_000, true, Some(d));
    assert_eq!(sent, vec![PlayCommand { player: e(3), clip: RUN }]);
    assert_eq!(w.actors[0].mover.position, GroundPoint::new(600_000, 800_000));
    assert_eq!(w.actors[0].mover.state, CharacterState::MovingTo(d));
    assert_eq!(w.actors[1].mover.state, CharacterState::Idle);
    // Holding the button keeps the same destination: no new command.
    let mut sent_all = Vec::new();
    for _ in 0..4 {
        sent_all.extend(w.tick(250_000, true, Some(d)));
    }
    assert_eq!(w.actors[0].mover.position, d);
    assert_eq!(w.actors[0].mover.state, CharacterState::Idle);
    assert_eq!(sent_all, vec![PlayCommand { player: e(3), clip: IDLE }]);
}
