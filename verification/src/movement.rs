//! Movement of the player, the bullets and the enemies, and the removal of
//! what has left the playfield.
//!
//! A speed in playfield units per second times a frame time in nanoseconds is
//! a displacement in sub-units, so a move is exact. A bullet or an enemy is
//! tested against its bound right after it has moved.

use vstd::prelude::*;
use crate::entity::{
    ascending, body_views, drawn_from, includes, lemma_bullets_replaced_wf,
    lemma_enemies_replaced_wf, same_entity, Body, BodyView, EntityStore, PlayerView, StoreView,
};
use crate::input::Input;
use crate::timer::total;
use crate::units::{BULLET_CEILING, ENEMY_FLOOR, PLAYER_REACH};

verus! {

/// The side to which the held keys push: -1 for left, 1 for right, 0 where
/// neither or both are held.
pub open spec fn heading(input: Input) -> int {
    (if input.right { 1int } else { 0int }) - (if input.left { 1int } else { 0int })
}

/// A direction brought to length one; the zero direction stays zero.
pub open spec fn unit_length(direction: int) -> int {
    if direction > 0 {
        1
    } else if direction < 0 {
        -1
    } else {
        0
    }
}

/// `x` brought into the range from `low` to `high`.
pub open spec fn clamped(x: int, low: int, high: int) -> int {
    if x < low {
        low
    } else if x > high {
        high
    } else {
        x
    }
}

/// The player's body after a frame of `delta` nanoseconds under `input`.
/// The position stays within what a coordinate can hold.
pub open spec fn player_drifted(body: BodyView, input: Input, delta: nat) -> BodyView {
    BodyView {
        x: clamped(
            body.x + unit_length(heading(input)) * body.speed * delta,
            i64::MIN as int,
            i64::MAX as int,
        ),
        ..body
    }
}

/// The player's body brought back into the player's reach.
pub open spec fn player_confined(body: BodyView) -> BodyView {
    BodyView { x: clamped(body.x, -PLAYER_REACH as int, PLAYER_REACH as int), ..body }
}

/// A bullet after a frame of `delta` nanoseconds: it has moved up by its
/// speed times `delta`, and is gone if that took it above the ceiling.
pub open spec fn bullet_moved(body: BodyView, delta: nat) -> Option<BodyView> {
    let y = body.y + body.speed * delta;
    if y > BULLET_CEILING {
        None
    } else {
        Some(BodyView { y, ..body })
    }
}

/// An enemy after a frame of `delta` nanoseconds: it has moved down by its
/// speed times `delta`, and is gone if that took it below the floor.
pub open spec fn enemy_moved(body: BodyView, delta: nat) -> Option<BodyView> {
    let y = body.y - body.speed * delta;
    if y < ENEMY_FLOOR {
        None
    } else {
        Some(BodyView { y, ..body })
    }
}

/// `bullet_moved` for a fixed frame time.
pub open spec fn bullet_step(delta: nat) -> spec_fn(BodyView) -> Option<BodyView> {
    |body: BodyView| bullet_moved(body, delta)
}

/// `enemy_moved` for a fixed frame time.
pub open spec fn enemy_step(delta: nat) -> spec_fn(BodyView) -> Option<BodyView> {
    |body: BodyView| enemy_moved(body, delta)
}

/// A bullet after one frame for each of `deltas`, in order.
pub open spec fn bullet_moved_through(body: BodyView, deltas: Seq<nat>) -> Option<BodyView>
    decreases deltas.len(),
{
    if deltas.len() == 0 {
        Some(body)
    } else {
        match bullet_moved_through(body, deltas.drop_last()) {
            Some(moved) => bullet_moved(moved, deltas.last()),
            None => None,
        }
    }
}

/// The store after the player has moved.
pub open spec fn player_moved(store: StoreView, input: Input, delta: nat) -> StoreView {
    match store.player {
        Some(p) => StoreView {
            player: Some(PlayerView { body: player_drifted(p.body, input, delta), ..p }),
            ..store
        },
        None => store,
    }
}

/// The store after the player has been confined.
pub open spec fn player_kept_in_reach(store: StoreView) -> StoreView {
    match store.player {
        Some(p) => StoreView {
            player: Some(PlayerView { body: player_confined(p.body), ..p }),
            ..store
        },
        None => store,
    }
}

/// The store after the bullets have moved.
pub open spec fn bullets_moved(store: StoreView, delta: nat) -> StoreView {
    StoreView { bullets: store.bullets.filter_map(bullet_step(delta)), ..store }
}

/// The store after the enemies have moved.
pub open spec fn enemies_moved(store: StoreView, delta: nat) -> StoreView {
    StoreView { enemies: store.enemies.filter_map(enemy_step(delta)), ..store }
}

/// The direction of the held keys, at length one.
pub fn steer(input: Input) -> (direction: i64)
    ensures
        direction == unit_length(heading(input)),
{
    let mut direction: i64 = 0;
    if input.left {
        direction = direction - 1;
    }
    if input.right {
        direction = direction + 1;
    }
    if direction != 0 {
        direction = normalize(direction);
    }
    direction
}

/// Brings a direction that is not zero to length one.
pub fn normalize(direction: i64) -> (unit: i64)
    requires
        direction != 0,
    ensures
        unit == unit_length(direction as int),
{
    if direction > 0 {
        1
    } else {
        -1
    }
}

/// The distance in sub-units that `speed` covers in `delta` nanoseconds.
fn travel(speed: u32, delta: u64) -> (distance: i128)
    ensures
        distance == speed * delta,
        0 <= distance <= 0xffff_ffff * 0xffff_ffff_ffff_ffff,
{
    assert(0 <= speed * delta <= 0xffff_ffff * 0xffff_ffff_ffff_ffff) by (nonlinear_arith)
        requires
            0 <= speed <= 0xffff_ffff,
            0 <= delta <= 0xffff_ffff_ffff_ffff,
    ;
    (speed as i128) * (delta as i128)
}

/// Moves the player sideways by its speed times `delta` in the direction of
/// the held keys. Without a player nothing happens.
pub fn player_movement(store: &mut EntityStore, input: Input, delta: u64)
    requires
        old(store).wf(),
    ensures
        final(store)@ == player_moved(old(store)@, input, delta as nat),
        final(store).wf(),
{
    if let Some(p) = store.player {
        let direction = steer(input);
        let distance = travel(p.body.speed, delta);
        assert(direction * p.body.speed * delta == direction * distance) by (nonlinear_arith)
            requires
                distance == p.body.speed * delta,
        ;
        let target: i128 = (p.body.x as i128) + (direction as i128) * distance;
        let x: i64 = if target < i64::MIN as i128 {
            i64::MIN
        } else if target > i64::MAX as i128 {
            i64::MAX
        } else {
            target as i64
        };
        store.player = Some(crate::entity::Player { body: Body { x, ..p.body }, ..p });
    }
}

/// Brings the player back into its reach on either side of the centre line.
/// Without a player nothing happens.
pub fn confine_player_movement(store: &mut EntityStore)
    requires
        old(store).wf(),
    ensures
        final(store)@ == player_kept_in_reach(old(store)@),
        final(store).wf(),
        final(store)@.player is Some ==> -PLAYER_REACH <= final(store)@.player->Some_0.body.x
            <= PLAYER_REACH,
{
    if let Some(p) = store.player {
        let x: i64 = if p.body.x < -PLAYER_REACH {
            -PLAYER_REACH
        } else if p.body.x > PLAYER_REACH {
            PLAYER_REACH
        } else {
            p.body.x
        };
        store.player = Some(crate::entity::Player { body: Body { x, ..p.body }, ..p });
    }
}

/// One bullet after a frame, or `None` where it has left the playfield.
pub fn bullet_after(body: Body, delta: u64) -> (moved: Option<Body>)
    ensures
        match moved {
            Some(m) => bullet_moved(body@, delta as nat) == Some(m@),
            None => bullet_moved(body@, delta as nat) is None,
        },
{
    let y: i128 = (body.y as i128) + travel(body.speed, delta);
    if y > BULLET_CEILING as i128 {
        None
    } else {
        Some(Body { y: y as i64, ..body })
    }
}

/// One enemy after a frame, or `None` where it has left the playfield.
pub fn enemy_after(body: Body, delta: u64) -> (moved: Option<Body>)
    ensures
        match moved {
            Some(m) => enemy_moved(body@, delta as nat) == Some(m@),
            None => enemy_moved(body@, delta as nat) is None,
        },
{
    let y: i128 = (body.y as i128) - travel(body.speed, delta);
    if y < ENEMY_FLOOR as i128 {
        None
    } else {
        Some(Body { y: y as i64, ..body })
    }
}

/// Moves every bullet up and removes those that have passed the ceiling.
pub fn bullet_movement(store: &mut EntityStore, delta: u64)
    requires
        old(store).wf(),
    ensures
        final(store)@ == bullets_moved(old(store)@, delta as nat),
        final(store).wf(),
{
    let ghost before = store@;
    let ghost step = bullet_step(delta as nat);
    let mut kept: Vec<Body> = Vec::new();
    let mut i: usize = 0;
    assert(before.bullets.take(0).filter_map(step) =~= Seq::<BodyView>::empty());
    while i < store.bullets.len()
        invariant
            i <= store.bullets.len(),
            store@ == before,
            step == bullet_step(delta as nat),
            body_views(kept@) =~= before.bullets.take(i as int).filter_map(step),
        decreases store.bullets.len() - i,
    {
        let moved = bullet_after(store.bullets[i], delta);
        proof {
            before.bullets.lemma_filter_map_take_succ(step, i as int);
            assert(before.bullets[i as int] == store.bullets[i as int]@);
        }
        if let Some(m) = moved {
            kept.push(m);
        }
        i += 1;
    }
    proof {
        assert(before.bullets.take(i as int) =~= before.bullets);
        lemma_filter_map_drawn(before.bullets, step);
        lemma_bullets_replaced_wf(before, before.bullets.filter_map(step));
    }
    store.bullets = kept;
}

/// Moves every enemy down and removes those that have passed the floor.
pub fn enemy_movement(store: &mut EntityStore, delta: u64)
    requires
        old(store).wf(),
    ensures
        final(store)@ == enemies_moved(old(store)@, delta as nat),
        final(store).wf(),
{
    let ghost before = store@;
    let ghost step = enemy_step(delta as nat);
    let mut kept: Vec<Body> = Vec::new();
    let mut i: usize = 0;
    assert(before.enemies.take(0).filter_map(step) =~= Seq::<BodyView>::empty());
    while i < store.enemies.len()
        invariant
            i <= store.enemies.len(),
            store@ == before,
            step == enemy_step(delta as nat),
            body_views(kept@) =~= before.enemies.take(i as int).filter_map(step),
        decreases store.enemies.len() - i,
    {
        let moved = enemy_after(store.enemies[i], delta);
        proof {
            before.enemies.lemma_filter_map_take_succ(step, i as int);
            assert(before.enemies[i as int] == store.enemies[i as int]@);
        }
        if let Some(m) = moved {
            kept.push(m);
        }
        i += 1;
    }
    proof {
        assert(before.enemies.take(i as int) =~= before.enemies);
        lemma_filter_map_drawn(before.enemies, step);
        lemma_enemies_replaced_wf(before, before.enemies.filter_map(step));
    }
    store.enemies = kept;
}

/// Whether `step` leaves each body the entity that it was.
pub open spec fn keeps_entity(step: spec_fn(BodyView) -> Option<BodyView>) -> bool {
    forall|body: BodyView|
        (#[trigger] step(body)) is Some ==> same_entity(step(body)->Some_0, body)
}

/// Moving and removing leaves a selection of the bodies that were there.
pub(crate) proof fn lemma_filter_map_drawn(bodies: Seq<BodyView>, step: spec_fn(BodyView) -> Option<BodyView>)
    requires
        ascending(bodies),
        keeps_entity(step),
    ensures
        drawn_from(bodies.filter_map(step), bodies),
    decreases bodies.len(),
{
    let kept = bodies.filter_map(step);
    if bodies.len() > 0 {
        let front = bodies.drop_last();
        let rest = front.filter_map(step);
        lemma_filter_map_drawn(front, step);
        assert forall|k: int| 0 <= k < rest.len() implies includes(bodies, #[trigger] rest[k])
            && rest[k].id < bodies.last().id by {
            let j = choose|j: int| 0 <= j < front.len() && same_entity(rest[k], #[trigger] front[j]);
            assert(same_entity(rest[k], bodies[j]));
        }
        match step(bodies.last()) {
            Some(moved) => {
                assert(kept =~= rest.push(moved));
                assert(same_entity(moved, bodies[bodies.len() - 1]));
            },
            None => {},
        }
    }
}

/// Moving and removing never adds a body.
pub(crate) proof fn lemma_filter_map_len(bodies: Seq<BodyView>, step: spec_fn(BodyView) -> Option<BodyView>)
    ensures
        bodies.filter_map(step).len() <= bodies.len(),
    decreases bodies.len(),
{
    if bodies.len() > 0 {
        lemma_filter_map_len(bodies.drop_last(), step);
    }
}

/// However long it is held and however fast the player is, a key never takes
/// the player out of its reach: after moving and confining, the player is
/// where its speed times the frame time would have taken it, or at the bound
/// that this would have passed.
pub proof fn lemma_player_stays_in_reach(body: BodyView, input: Input, delta: nat)
    requires
        i64::MIN <= body.x <= i64::MAX,
    ensures
        -PLAYER_REACH <= player_confined(player_drifted(body, input, delta)).x <= PLAYER_REACH,
        player_confined(player_drifted(body, input, delta)).x == clamped(
            body.x + unit_length(heading(input)) * body.speed * delta,
            -PLAYER_REACH as int,
            PLAYER_REACH as int,
        ),
{
}

/// A bullet leaves exactly when its height would pass the ceiling. After at
/// least one frame the bullet is gone if its first height plus its speed
/// times the time that has passed is above the ceiling, and otherwise it is
/// at that height.
pub proof fn lemma_bullet_leaves_above_ceiling(body: BodyView, deltas: Seq<nat>)
    requires
        deltas.len() > 0,
    ensures
        bullet_moved_through(body, deltas) == bullet_moved(body, total(deltas)),
    decreases deltas.len(),
{
    let front = deltas.drop_last();
    let last = deltas.last();
    assert(body.speed * (total(front) + last) == body.speed * total(front) + body.speed * last)
        by (nonlinear_arith);
    assert(body.speed * last >= 0) by (nonlinear_arith);
    assert(body.speed * total(front) >= 0) by (nonlinear_arith);
    if front.len() == 0 {
        assert(total(front) == 0);
        assert(bullet_moved_through(body, front) == Some(body));
    } else {
        lemma_bullet_leaves_above_ceiling(body, front);
    }
}

/// The time at which a bullet leaves. A bullet that moves at all is gone
/// after a frame exactly if the frame is longer than the whole number of
/// nanoseconds in which its speed covers the way up to the ceiling.
pub proof fn lemma_bullet_exit_time(body: BodyView, delta: nat)
    requires
        body.speed > 0,
    ensures
        bullet_moved(body, delta) is None <==> delta > (BULLET_CEILING - body.y) / (
        body.speed as int),
{
    let way = BULLET_CEILING - body.y;
    let speed = body.speed as int;
    let whole = way / speed;
    let rest = way % speed;
    vstd::arithmetic::div_mod::lemma_fundamental_div_mod(way, speed);
    vstd::arithmetic::div_mod::lemma_mod_bound(way, speed);
    if delta > whole {
        assert(speed * delta >= speed * (whole + 1)) by (nonlinear_arith)
            requires
                delta >= whole + 1,
                speed > 0,
        ;
        assert(speed * (whole + 1) == speed * whole + speed) by (nonlinear_arith);
    } else {
        assert(speed * delta <= speed * whole) by (nonlinear_arith)
            requires
                delta <= whole,
                speed > 0,
        ;
    }
}

} // verus!
