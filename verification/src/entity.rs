//! The entities of a session and the store that owns them.
//!
//! Every entity gets an identifier when it is created, and identifiers are
//! handed out in increasing order and never again. Bullets and enemies are kept
//! in the order of their creation, so each collection is ascending in its
//! identifiers, which is how the store knows that no identifier occurs twice.

use vstd::prelude::*;
use crate::timer::{Timer, TimerView};

verus! {

/// The three kinds of entity.
#[derive(Clone, Copy, Debug, PartialEq, Eq, Structural)]
pub enum EntityKind {
    Player,
    Bullet,
    Enemy,
}

/// Where an entity is and how fast it moves: a position in sub-units and a
/// speed in playfield units per second.
#[derive(Clone, Copy, Debug, PartialEq, Eq, Structural)]
pub struct Body {
    pub id: u64,
    pub x: i64,
    pub y: i64,
    pub speed: u32,
}

/// A body as contracts see it.
pub struct BodyView {
    pub id: nat,
    pub x: int,
    pub y: int,
    pub speed: nat,
}

impl View for Body {
    type V = BodyView;

    open spec fn view(&self) -> BodyView {
        BodyView { id: self.id as nat, x: self.x as int, y: self.y as int, speed: self.speed as nat }
    }
}

/// The views of a sequence of bodies, in the same order.
pub open spec fn body_views(bodies: Seq<Body>) -> Seq<BodyView> {
    Seq::new(bodies.len(), |i: int| bodies[i]@)
}

/// The player: a body and the timer that spaces its shots.
#[derive(Clone, Copy, Debug, PartialEq, Eq, Structural)]
pub struct Player {
    pub(crate) body: Body,
    pub(crate) cooldown: Timer,
}

/// The player as contracts see it.
pub struct PlayerView {
    pub body: BodyView,
    pub cooldown: TimerView,
}

impl View for Player {
    type V = PlayerView;

    open(crate) spec fn view(&self) -> PlayerView {
        PlayerView { body: self.body@, cooldown: self.cooldown@ }
    }
}

impl Player {
    pub fn body(&self) -> (body: Body)
        ensures
            body@ == self@.body,
    {
        self.body
    }

    pub fn cooldown(&self) -> (cooldown: Timer)
        ensures
            cooldown@ == self@.cooldown,
    {
        self.cooldown
    }
}

/// Each body has a smaller identifier than those after it.
pub open spec fn ascending(bodies: Seq<BodyView>) -> bool {
    forall|i: int, j: int| 0 <= i < j < bodies.len() ==> bodies[i].id < bodies[j].id
}

/// Every identifier is below `bound` and every speed is positive.
pub open spec fn sound(bodies: Seq<BodyView>, bound: nat) -> bool {
    forall|i: int|
        0 <= i < bodies.len() ==> (#[trigger] bodies[i]).id < bound && bodies[i].speed > 0
}

/// Whether one of `bodies` has the identifier `id`.
pub open spec fn has_id(bodies: Seq<BodyView>, id: nat) -> bool {
    exists|i: int| 0 <= i < bodies.len() && (#[trigger] bodies[i]).id == id
}

/// Two bodies that stand for the same entity, wherever each of them is.
pub open spec fn same_entity(a: BodyView, b: BodyView) -> bool {
    a.id == b.id && a.speed == b.speed
}

/// Whether one of `bodies` stands for the same entity as `body`.
pub open spec fn includes(bodies: Seq<BodyView>, body: BodyView) -> bool {
    exists|j: int| 0 <= j < bodies.len() && same_entity(body, #[trigger] bodies[j])
}

/// `new` holds entities of `old` and no others, in ascending order.
pub open spec fn drawn_from(new: Seq<BodyView>, old: Seq<BodyView>) -> bool {
    &&& ascending(new)
    &&& forall|k: int| 0 <= k < new.len() ==> includes(old, #[trigger] new[k])
}

/// The test that keeps every body but the one with the identifier `id`.
pub open spec fn other_than(id: nat) -> spec_fn(BodyView) -> bool {
    |b: BodyView| b.id != id
}

/// The store as contracts see it.
pub struct StoreView {
    pub player: Option<PlayerView>,
    pub bullets: Seq<BodyView>,
    pub enemies: Seq<BodyView>,
    pub next_id: nat,
}

impl StoreView {
    /// A store without entities.
    pub open spec fn empty() -> StoreView {
        StoreView { player: None, bullets: Seq::empty(), enemies: Seq::empty(), next_id: 0 }
    }

    /// No identifier occurs twice, none has reached `next_id`, every speed is
    /// positive, and the player's timer is well formed.
    pub open spec fn wf(self) -> bool {
        &&& ascending(self.bullets)
        &&& ascending(self.enemies)
        &&& sound(self.bullets, self.next_id)
        &&& sound(self.enemies, self.next_id)
        &&& forall|i: int, j: int|
            0 <= i < self.bullets.len() && 0 <= j < self.enemies.len() ==> (
            #[trigger] self.bullets[i]).id != (#[trigger] self.enemies[j]).id
        &&& match self.player {
            Some(p) => {
                &&& p.body.id < self.next_id
                &&& p.body.speed > 0
                &&& p.cooldown.wf()
                &&& !has_id(self.bullets, p.body.id)
                &&& !has_id(self.enemies, p.body.id)
            },
            None => true,
        }
    }

    /// Whether an entity with the identifier `id` is in the store.
    pub open spec fn is_live(self, id: nat) -> bool {
        ||| (self.player is Some && self.player->Some_0.body.id == id)
        ||| has_id(self.bullets, id)
        ||| has_id(self.enemies, id)
    }

    /// Whether `body` is the body of an entity in the store.
    pub open spec fn holds(self, body: BodyView) -> bool {
        ||| (self.player is Some && self.player->Some_0.body == body)
        ||| self.bullets.contains(body)
        ||| self.enemies.contains(body)
    }

    /// The body that a new entity gets.
    pub open spec fn next_body(self, x: int, y: int, speed: nat) -> BodyView {
        BodyView { id: self.next_id, x, y, speed }
    }

    /// The store with one more bullet.
    pub open spec fn with_bullet(self, x: int, y: int, speed: nat) -> StoreView {
        StoreView {
            bullets: self.bullets.push(self.next_body(x, y, speed)),
            next_id: self.next_id + 1,
            ..self
        }
    }

    /// The store with one more enemy.
    pub open spec fn with_enemy(self, x: int, y: int, speed: nat) -> StoreView {
        StoreView {
            enemies: self.enemies.push(self.next_body(x, y, speed)),
            next_id: self.next_id + 1,
            ..self
        }
    }

    /// The store with a player, where it had none.
    pub open spec fn with_player(self, x: int, y: int, speed: nat, cooldown: TimerView) -> StoreView {
        StoreView {
            player: Some(PlayerView { body: self.next_body(x, y, speed), cooldown }),
            next_id: self.next_id + 1,
            ..self
        }
    }

    /// The store without the entity that has the identifier `id`.
    pub open spec fn without(self, id: nat) -> StoreView {
        StoreView {
            player: if self.player is Some && self.player->Some_0.body.id == id {
                None
            } else {
                self.player
            },
            bullets: self.bullets.filter(other_than(id)),
            enemies: self.enemies.filter(other_than(id)),
            next_id: self.next_id,
        }
    }

    /// The bodies of the entities of one kind, in the order of their creation.
    pub open spec fn of_kind(self, kind: EntityKind) -> Seq<BodyView> {
        match kind {
            EntityKind::Player => match self.player {
                Some(p) => seq![p.body],
                None => Seq::empty(),
            },
            EntityKind::Bullet => self.bullets,
            EntityKind::Enemy => self.enemies,
        }
    }
}

/// Owns the player, the bullets and the enemies of a session.
#[derive(Debug)]
pub struct EntityStore {
    pub(crate) player: Option<Player>,
    pub(crate) bullets: Vec<Body>,
    pub(crate) enemies: Vec<Body>,
    pub(crate) next_id: u64,
}

impl View for EntityStore {
    type V = StoreView;

    open(crate) spec fn view(&self) -> StoreView {
        StoreView {
            player: match self.player {
                Some(p) => Some(p@),
                None => None,
            },
            bullets: body_views(self.bullets@),
            enemies: body_views(self.enemies@),
            next_id: self.next_id as nat,
        }
    }
}

impl EntityStore {
    pub open spec fn wf(&self) -> bool {
        self@.wf()
    }

    /// A store without entities.
    pub fn new() -> (store: EntityStore)
        ensures
            store@ == StoreView::empty(),
            store.wf(),
    {
        let store = EntityStore { player: None, bullets: Vec::new(), enemies: Vec::new(), next_id: 0 };
        assert(store@.bullets =~= Seq::empty());
        assert(store@.enemies =~= Seq::empty());
        store
    }

    /// Whether an identifier is left for one more entity.
    pub fn has_free_id(&self) -> (free: bool)
        ensures
            free == (self@.next_id < u64::MAX),
    {
        self.next_id < u64::MAX
    }

    /// Creates the player, unless the store has one: at most one player
    /// exists. Returns the new player's identifier.
    pub fn create_player(&mut self, x: i64, y: i64, speed: u32, cooldown: Timer) -> (id: Option<u64>)
        requires
            old(self).wf(),
            old(self)@.next_id < u64::MAX,
            speed > 0,
            cooldown.wf(),
        ensures
            final(self).wf(),
            old(self)@.player is Some ==> id is None && final(self)@ == old(self)@,
            old(self)@.player is None ==> id == Some(old(self)@.next_id as u64) && final(self)@ == old(
                self,
            )@.with_player(x as int, y as int, speed as nat, cooldown@),
    {
        if self.player.is_some() {
            return None;
        }
        let id = self.next_id;
        self.player = Some(Player { body: Body { id, x, y, speed }, cooldown });
        self.next_id = id + 1;
        Some(id)
    }

    /// Creates a bullet and returns its identifier.
    pub fn create_bullet(&mut self, x: i64, y: i64, speed: u32) -> (id: u64)
        requires
            old(self).wf(),
            old(self)@.next_id < u64::MAX,
            speed > 0,
        ensures
            final(self).wf(),
            id == old(self)@.next_id,
            final(self)@ == old(self)@.with_bullet(x as int, y as int, speed as nat),
    {
        let id = self.next_id;
        self.bullets.push(Body { id, x, y, speed });
        self.next_id = id + 1;
        proof {
            assert(self@.bullets =~= old(self)@.bullets.push(
                old(self)@.next_body(x as int, y as int, speed as nat),
            ));
            lemma_with_bullet_wf(old(self)@, x as int, y as int, speed as nat);
        }
        id
    }

    /// Creates an enemy and returns its identifier.
    pub fn create_enemy(&mut self, x: i64, y: i64, speed: u32) -> (id: u64)
        requires
            old(self).wf(),
            old(self)@.next_id < u64::MAX,
            speed > 0,
        ensures
            final(self).wf(),
            id == old(self)@.next_id,
            final(self)@ == old(self)@.with_enemy(x as int, y as int, speed as nat),
    {
        let id = self.next_id;
        self.enemies.push(Body { id, x, y, speed });
        self.next_id = id + 1;
        proof {
            assert(self@.enemies =~= old(self)@.enemies.push(
                old(self)@.next_body(x as int, y as int, speed as nat),
            ));
            lemma_with_enemy_wf(old(self)@, x as int, y as int, speed as nat);
        }
        id
    }

    /// Removes the entity with the identifier `id` and says whether there was
    /// one. Where there was none, nothing changes.
    pub fn destroy(&mut self, id: u64) -> (removed: bool)
        requires
            old(self).wf(),
        ensures
            final(self).wf(),
            final(self)@ == old(self)@.without(id as nat),
            removed == old(self)@.is_live(id as nat),
            !removed ==> final(self)@ == old(self)@,
    {
        let mut removed = false;
        if let Some(p) = self.player {
            if p.body.id == id {
                self.player = None;
                removed = true;
            }
        }
        let ghost before = old(self)@;
        match position(&self.bullets, id) {
            Some(i) => {
                self.bullets.remove(i);
                removed = true;
                proof {
                    assert(before.bullets[i as int].id == id);
                    lemma_filter_removes(before.bullets, id as nat, i as int);
                    assert(self@.bullets =~= before.bullets.remove(i as int));
                }
            },
            None => {
                proof {
                    lemma_filter_keeps(before.bullets, id as nat);
                }
            },
        }
        match position(&self.enemies, id) {
            Some(i) => {
                self.enemies.remove(i);
                removed = true;
                proof {
                    assert(before.enemies[i as int].id == id);
                    lemma_filter_removes(before.enemies, id as nat, i as int);
                    assert(self@.enemies =~= before.enemies.remove(i as int));
                }
            },
            None => {
                proof {
                    lemma_filter_keeps(before.enemies, id as nat);
                }
            },
        }
        proof {
            lemma_without_wf(before, id as nat);
        }
        removed
    }

    /// The player, if there is one.
    pub fn player(&self) -> (player: Option<Player>)
        ensures
            match player {
                Some(p) => self@.player == Some(p@),
                None => self@.player is None,
            },
    {
        self.player
    }

    /// The bullets, in the order of their creation.
    pub fn bullets(&self) -> (bullets: &Vec<Body>)
        ensures
            body_views(bullets@) == self@.bullets,
    {
        &self.bullets
    }

    /// The enemies, in the order of their creation.
    pub fn enemies(&self) -> (enemies: &Vec<Body>)
        ensures
            body_views(enemies@) == self@.enemies,
    {
        &self.enemies
    }

    /// The bodies of the live entities of one kind, as they are now and in
    /// the order of their creation.
    pub fn live(&self, kind: EntityKind) -> (bodies: Vec<Body>)
        ensures
            body_views(bodies@) == self@.of_kind(kind),
    {
        match kind {
            EntityKind::Player => {
                let mut bodies: Vec<Body> = Vec::new();
                if let Some(p) = self.player {
                    bodies.push(p.body);
                }
                assert(body_views(bodies@) =~= self@.of_kind(kind));
                bodies
            },
            EntityKind::Bullet => self.bullets.clone(),
            EntityKind::Enemy => self.enemies.clone(),
        }
    }

    /// The body of the entity with the identifier `id`, if it is live.
    pub fn find(&self, id: u64) -> (body: Option<Body>)
        ensures
            match body {
                Some(b) => b.id == id && self@.holds(b@),
                None => !self@.is_live(id as nat),
            },
    {
        if let Some(p) = self.player {
            if p.body.id == id {
                return Some(p.body);
            }
        }
        if let Some(i) = position(&self.bullets, id) {
            assert(self@.bullets[i as int] == self.bullets[i as int]@);
            return Some(self.bullets[i]);
        }
        if let Some(i) = position(&self.enemies, id) {
            assert(self@.enemies[i as int] == self.enemies[i as int]@);
            return Some(self.enemies[i]);
        }
        None
    }
}

/// The index of the body with the identifier `id`, if there is one.
fn position(bodies: &Vec<Body>, id: u64) -> (at: Option<usize>)
    ensures
        match at {
            Some(i) => i < bodies.len() && bodies[i as int].id == id,
            None => !has_id(body_views(bodies@), id as nat),
        },
{
    let mut i: usize = 0;
    while i < bodies.len()
        invariant
            i <= bodies.len(),
            forall|k: int| 0 <= k < i ==> bodies[k].id != id,
        decreases bodies.len() - i,
    {
        if bodies[i].id == id {
            return Some(i);
        }
        i += 1;
    }
    assert forall|k: int| 0 <= k < bodies.len() implies (#[trigger] body_views(bodies@)[k]).id
        != id by {
        assert(bodies[k].id != id);
    }
    None
}

/// Removing the one body with the identifier `id` is the same as keeping
/// all the others.
pub(crate) proof fn lemma_filter_removes(bodies: Seq<BodyView>, id: nat, i: int)
    requires
        ascending(bodies),
        0 <= i < bodies.len(),
        bodies[i].id == id,
    ensures
        bodies.filter(other_than(id)) == bodies.remove(i),
    decreases bodies.len(),
{
    reveal(Seq::filter);
    let front = bodies.drop_last();
    if i == bodies.len() - 1 {
        lemma_filter_keeps(front, id);
        assert(bodies.remove(i) =~= front);
    } else {
        lemma_filter_removes(front, id, i);
        assert(bodies.remove(i) =~= front.remove(i).push(bodies.last()));
    }
}

/// Where no body has the identifier `id`, keeping all the others keeps all.
pub(crate) proof fn lemma_filter_keeps(bodies: Seq<BodyView>, id: nat)
    requires
        !has_id(bodies, id),
    ensures
        bodies.filter(other_than(id)) == bodies,
    decreases bodies.len(),
{
    reveal(Seq::filter);
    if bodies.len() > 0 {
        let front = bodies.drop_last();
        assert forall|k: int| 0 <= k < front.len() implies (#[trigger] front[k]).id != id by {
            assert(bodies[k].id != id);
        }
        lemma_filter_keeps(front, id);
        assert(bodies.last() == bodies[bodies.len() - 1]);
        assert(front.push(bodies.last()) =~= bodies);
    }
}

/// A sequence with one body taken out is drawn from the whole.
pub(crate) proof fn lemma_remove_drawn(bodies: Seq<BodyView>, i: int)
    requires
        ascending(bodies),
        0 <= i < bodies.len(),
    ensures
        drawn_from(bodies.remove(i), bodies),
{
    let rest = bodies.remove(i);
    assert forall|k: int| 0 <= k < rest.len() implies includes(bodies, #[trigger] rest[k]) by {
        let j = if k < i {
            k
        } else {
            k + 1
        };
        assert(same_entity(rest[k], bodies[j]));
    }
}

/// Every sequence is drawn from itself.
pub(crate) proof fn lemma_drawn_from_self(bodies: Seq<BodyView>)
    requires
        ascending(bodies),
    ensures
        drawn_from(bodies, bodies),
{
    assert forall|k: int| 0 <= k < bodies.len() implies includes(bodies, #[trigger] bodies[k]) by {
        assert(same_entity(bodies[k], bodies[k]));
    }
}

/// What is drawn from a selection is drawn from the whole.
pub(crate) proof fn lemma_drawn_from_trans(a: Seq<BodyView>, b: Seq<BodyView>, c: Seq<BodyView>)
    requires
        drawn_from(a, b),
        drawn_from(b, c),
    ensures
        drawn_from(a, c),
{
    assert forall|k: int| 0 <= k < a.len() implies includes(c, #[trigger] a[k]) by {
        let m = choose|m: int| 0 <= m < b.len() && same_entity(a[k], #[trigger] b[m]);
        assert(includes(c, b[m]));
        let j = choose|j: int| 0 <= j < c.len() && same_entity(b[m], #[trigger] c[j]);
        assert(same_entity(a[k], c[j]));
    }
}

/// A store stays well formed when its bullets are replaced by a selection of
/// them.
pub(crate) proof fn lemma_bullets_replaced_wf(store: StoreView, bullets: Seq<BodyView>)
    requires
        store.wf(),
        drawn_from(bullets, store.bullets),
    ensures
        (StoreView { bullets, ..store }).wf(),
{
    let after = StoreView { bullets, ..store };
    assert forall|k: int| 0 <= k < bullets.len() implies (#[trigger] bullets[k]).id
        < store.next_id && bullets[k].speed > 0 && !has_id(store.enemies, bullets[k].id) && (
    store.player is Some ==> store.player->Some_0.body.id != bullets[k].id) by {
        let j = choose|j: int|
            0 <= j < store.bullets.len() && same_entity(bullets[k], #[trigger] store.bullets[j]);
        assert(store.bullets[j].id < store.next_id);
    }
}

/// A store stays well formed when its enemies are replaced by a selection of
/// them.
pub(crate) proof fn lemma_enemies_replaced_wf(store: StoreView, enemies: Seq<BodyView>)
    requires
        store.wf(),
        drawn_from(enemies, store.enemies),
    ensures
        (StoreView { enemies, ..store }).wf(),
{
    let after = StoreView { enemies, ..store };
    assert forall|k: int| 0 <= k < enemies.len() implies (#[trigger] enemies[k]).id
        < store.next_id && enemies[k].speed > 0 && !has_id(store.bullets, enemies[k].id) && (
    store.player is Some ==> store.player->Some_0.body.id != enemies[k].id) by {
        let j = choose|j: int|
            0 <= j < store.enemies.len() && same_entity(enemies[k], #[trigger] store.enemies[j]);
        assert(store.enemies[j].id < store.next_id);
    }
}

/// Destroying keeps a store well formed.
pub proof fn lemma_without_wf(store: StoreView, id: nat)
    requires
        store.wf(),
    ensures
        store.without(id).wf(),
{
    lemma_filter_drawn(store.bullets, id);
    lemma_filter_drawn(store.enemies, id);
    let bullets = store.bullets.filter(other_than(id));
    let enemies = store.enemies.filter(other_than(id));
    lemma_bullets_replaced_wf(store, bullets);
    lemma_enemies_replaced_wf(StoreView { bullets, ..store }, enemies);
}

/// Keeping all bodies but one leaves a selection of them.
proof fn lemma_filter_drawn(bodies: Seq<BodyView>, id: nat)
    requires
        ascending(bodies),
    ensures
        drawn_from(bodies.filter(other_than(id)), bodies),
{
    if has_id(bodies, id) {
        let i = choose|i: int| 0 <= i < bodies.len() && (#[trigger] bodies[i]).id == id;
        lemma_filter_removes(bodies, id, i);
        lemma_remove_drawn(bodies, i);
    } else {
        lemma_filter_keeps(bodies, id);
        lemma_drawn_from_self(bodies);
    }
}

/// Creating a bullet keeps a store well formed.
pub proof fn lemma_with_bullet_wf(store: StoreView, x: int, y: int, speed: nat)
    requires
        store.wf(),
        speed > 0,
    ensures
        store.with_bullet(x, y, speed).wf(),
{
}

/// Creating an enemy keeps a store well formed.
pub proof fn lemma_with_enemy_wf(store: StoreView, x: int, y: int, speed: nat)
    requires
        store.wf(),
        speed > 0,
    ensures
        store.with_enemy(x, y, speed).wf(),
{
}

/// Destroying twice is destroying once, and what was destroyed is not live.
pub proof fn lemma_destroy_idempotent(store: StoreView, id: nat)
    requires
        store.wf(),
    ensures
        store.without(id).without(id) == store.without(id),
        !store.without(id).is_live(id),
{
    let once = store.without(id);
    lemma_filtered_has_no_id(store.bullets, id);
    lemma_filtered_has_no_id(store.enemies, id);
    lemma_filter_keeps(once.bullets, id);
    lemma_filter_keeps(once.enemies, id);
}

/// None of the bodies kept has the identifier that was left out.
proof fn lemma_filtered_has_no_id(bodies: Seq<BodyView>, id: nat)
    ensures
        !has_id(bodies.filter(other_than(id)), id),
{
    let kept = bodies.filter(other_than(id));
    assert forall|k: int| 0 <= k < kept.len() implies (#[trigger] kept[k]).id != id by {
        bodies.lemma_filter_pred(other_than(id), k);
    }
}

} // verus!
