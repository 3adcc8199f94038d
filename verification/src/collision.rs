//! Collisions between bullets and enemies.
//!
//! The bullets are taken in the order of their creation. Each one is held
//! against the enemies that are still there, also in the order of their
//! creation, and is removed together with the first enemy within reach. A
//! bullet or an enemy that is gone takes part in no later test, so no bullet
//! and no enemy counts twice.

use vstd::prelude::*;
use crate::entity::{
    ascending, body_views, drawn_from, includes, lemma_bullets_replaced_wf, lemma_drawn_from_self,
    lemma_drawn_from_trans, lemma_enemies_replaced_wf, lemma_remove_drawn, same_entity, Body,
    BodyView, EntityStore, StoreView,
};
use crate::units::{HIT_RADIUS, HIT_SCORE};

verus! {

/// Whether the centres of two bodies are closer than the hit radius.
pub open spec fn within_reach(a: BodyView, b: BodyView) -> bool {
    (a.x - b.x) * (a.x - b.x) + (a.y - b.y) * (a.y - b.y) < HIT_RADIUS * HIT_RADIUS
}

/// The index of the first of `enemies` that is within reach of `bullet`.
pub open spec fn first_hit(bullet: BodyView, enemies: Seq<BodyView>) -> Option<int>
    decreases enemies.len(),
{
    if enemies.len() == 0 {
        None
    } else {
        match first_hit(bullet, enemies.drop_last()) {
            Some(j) => Some(j),
            None => if within_reach(bullet, enemies.last()) {
                Some(enemies.len() - 1)
            } else {
                None
            },
        }
    }
}

/// What a round of collisions leaves: the bullets and the enemies that are
/// still there, and the number of hits.
pub struct Outcome {
    pub bullets: Seq<BodyView>,
    pub enemies: Seq<BodyView>,
    pub hits: nat,
}

/// The outcome of holding each of `bullets` in turn against the enemies that
/// the bullets before it have left.
pub open spec fn collided(bullets: Seq<BodyView>, enemies: Seq<BodyView>) -> Outcome
    decreases bullets.len(),
{
    if bullets.len() == 0 {
        Outcome { bullets: Seq::empty(), enemies, hits: 0 }
    } else {
        let before = collided(bullets.drop_last(), enemies);
        match first_hit(bullets.last(), before.enemies) {
            Some(j) => Outcome {
                bullets: before.bullets,
                enemies: before.enemies.remove(j),
                hits: before.hits + 1,
            },
            None => Outcome {
                bullets: before.bullets.push(bullets.last()),
                enemies: before.enemies,
                hits: before.hits,
            },
        }
    }
}

/// The store after a round of collisions.
pub open spec fn after_collisions(store: StoreView) -> StoreView {
    let outcome = collided(store.bullets, store.enemies);
    StoreView { bullets: outcome.bullets, enemies: outcome.enemies, ..store }
}

/// Whether two bodies are within reach of each other.
pub fn touching(a: &Body, b: &Body) -> (hit: bool)
    ensures
        hit == within_reach(a@, b@),
{
    let dx: i128 = (a.x as i128) - (b.x as i128);
    let dy: i128 = (a.y as i128) - (b.y as i128);
    let reach: i128 = HIT_RADIUS as i128;
    if dx >= reach || dx <= -reach || dy >= reach || dy <= -reach {
        assert(dx * dx + dy * dy >= reach * reach) by (nonlinear_arith)
            requires
                dx >= reach || dx <= -reach || dy >= reach || dy <= -reach,
                reach > 0,
        ;
        return false;
    }
    assert(0 <= dx * dx < reach * reach && 0 <= dy * dy < reach * reach) by (nonlinear_arith)
        requires
            -reach < dx < reach,
            -reach < dy < reach,
    ;
    dx * dx + dy * dy < reach * reach
}

/// The index of the first of `enemies` within reach of `bullet`.
fn first_within_reach(bullet: &Body, enemies: &Vec<Body>) -> (hit: Option<usize>)
    ensures
        match hit {
            Some(j) => j < enemies.len() && first_hit(bullet@, body_views(enemies@)) == Some(
                j as int,
            ),
            None => first_hit(bullet@, body_views(enemies@)) is None,
        },
{
    let ghost views = body_views(enemies@);
    let mut j: usize = 0;
    while j < enemies.len()
        invariant
            j <= enemies.len(),
            views == body_views(enemies@),
            first_hit(bullet@, views.take(j as int)) is None,
        decreases enemies.len() - j,
    {
        proof {
            assert(views.take(j + 1).drop_last() =~= views.take(j as int));
            assert(views.take(j + 1).last() == enemies[j as int]@);
        }
        if touching(bullet, &enemies[j]) {
            proof {
                lemma_first_hit_stays(bullet@, views, j + 1);
            }
            return Some(j);
        }
        j += 1;
    }
    assert(views.take(j as int) =~= views);
    None
}

/// A first hit among the leading enemies is the first hit among all.
proof fn lemma_first_hit_stays(bullet: BodyView, enemies: Seq<BodyView>, n: int)
    requires
        0 <= n <= enemies.len(),
        first_hit(bullet, enemies.take(n)) is Some,
    ensures
        first_hit(bullet, enemies) == first_hit(bullet, enemies.take(n)),
    decreases enemies.len(),
{
    if n == enemies.len() {
        assert(enemies.take(n) =~= enemies);
    } else {
        assert(enemies.drop_last().take(n) =~= enemies.take(n));
        lemma_first_hit_stays(bullet, enemies.drop_last(), n);
    }
}

/// Removes each bullet that is within reach of an enemy together with the
/// first such enemy, and adds the score of one hit for each pair.
pub fn bullet_enemy_collision(store: &mut EntityStore, score: &mut u64)
    requires
        old(store).wf(),
        *old(score) + HIT_SCORE * old(store)@.bullets.len() <= u64::MAX,
    ensures
        final(store)@ == after_collisions(old(store)@),
        *final(score) == *old(score) + HIT_SCORE * collided(
            old(store)@.bullets,
            old(store)@.enemies,
        ).hits,
        final(store).wf(),
{
    let ghost before = store@;
    let ghost first_score = *score;
    let mut enemies: Vec<Body> = Vec::new();
    std::mem::swap(&mut enemies, &mut store.enemies);
    let mut kept: Vec<Body> = Vec::new();
    let mut i: usize = 0;
    while i < store.bullets.len()
        invariant
            i <= store.bullets.len(),
            body_views(store.bullets@) == before.bullets,
            first_score + HIT_SCORE * before.bullets.len() <= u64::MAX,
            ({
                let so_far = collided(before.bullets.take(i as int), before.enemies);
                &&& body_views(kept@) =~= so_far.bullets
                &&& body_views(enemies@) =~= so_far.enemies
                &&& so_far.hits <= i
                &&& *score == first_score + HIT_SCORE * so_far.hits
            }),
        decreases store.bullets.len() - i,
    {
        let bullet = store.bullets[i];
        proof {
            assert(before.bullets.take(i + 1).drop_last() =~= before.bullets.take(i as int));
            assert(before.bullets.take(i + 1).last() == bullet@);
            assert(HIT_SCORE * (i + 1) <= HIT_SCORE * before.bullets.len()) by (nonlinear_arith)
                requires
                    i + 1 <= before.bullets.len(),
            ;
        }
        match first_within_reach(&bullet, &enemies) {
            Some(j) => {
                let ghost left = body_views(enemies@);
                enemies.remove(j);
                assert(body_views(enemies@) =~= left.remove(j as int));
                *score = *score + HIT_SCORE;
            },
            None => {
                kept.push(bullet);
            },
        }
        i += 1;
    }
    proof {
        assert(before.bullets.take(i as int) =~= before.bullets);
        lemma_collided_drawn(before.bullets, before.enemies);
        let outcome = collided(before.bullets, before.enemies);
        lemma_bullets_replaced_wf(before, outcome.bullets);
        lemma_enemies_replaced_wf(StoreView { bullets: outcome.bullets, ..before }, outcome.enemies);
    }
    store.bullets = kept;
    store.enemies = enemies;
}

/// A first hit is an enemy within reach, and none before it is.
pub proof fn lemma_first_hit_is_first(bullet: BodyView, enemies: Seq<BodyView>)
    ensures
        match first_hit(bullet, enemies) {
            Some(j) => {
                &&& 0 <= j < enemies.len()
                &&& within_reach(bullet, enemies[j])
                &&& forall|k: int| 0 <= k < j ==> !within_reach(bullet, #[trigger] enemies[k])
            },
            None => forall|k: int|
                0 <= k < enemies.len() ==> !within_reach(bullet, #[trigger] enemies[k]),
        },
    decreases enemies.len(),
{
    if enemies.len() > 0 {
        lemma_first_hit_is_first(bullet, enemies.drop_last());
        assert forall|k: int| 0 <= k < enemies.len() - 1 implies enemies.drop_last()[k]
            == enemies[k] by {}
        match first_hit(bullet, enemies.drop_last()) {
            Some(j) => {
                assert(enemies.drop_last()[j] == enemies[j]);
                assert forall|k: int| 0 <= k < j implies !within_reach(
                    bullet,
                    #[trigger] enemies[k],
                ) by {
                    assert(enemies.drop_last()[k] == enemies[k]);
                }
            },
            None => {
                assert forall|k: int| 0 <= k < enemies.len() - 1 implies !within_reach(
                    bullet,
                    #[trigger] enemies[k],
                ) by {
                    assert(enemies.drop_last()[k] == enemies[k]);
                }
            },
        }
    }
}

/// A round of collisions leaves a selection of the bullets and a selection
/// of the enemies.
pub(crate) proof fn lemma_collided_drawn(bullets: Seq<BodyView>, enemies: Seq<BodyView>)
    requires
        ascending(bullets),
        ascending(enemies),
    ensures
        drawn_from(collided(bullets, enemies).bullets, bullets),
        drawn_from(collided(bullets, enemies).enemies, enemies),
    decreases bullets.len(),
{
    let outcome = collided(bullets, enemies);
    if bullets.len() == 0 {
        lemma_drawn_from_self(enemies);
    } else {
        let front = bullets.drop_last();
        let before = collided(front, enemies);
        lemma_collided_drawn(front, enemies);
        assert forall|k: int| 0 <= k < before.bullets.len() implies includes(
            bullets,
            #[trigger] before.bullets[k],
        ) && before.bullets[k].id < bullets.last().id by {
            let m = choose|m: int|
                0 <= m < front.len() && same_entity(before.bullets[k], #[trigger] front[m]);
            assert(same_entity(before.bullets[k], bullets[m]));
        }
        match first_hit(bullets.last(), before.enemies) {
            Some(j) => {
                lemma_first_hit_is_first(bullets.last(), before.enemies);
                lemma_remove_drawn(before.enemies, j);
                lemma_drawn_from_trans(outcome.enemies, before.enemies, enemies);
            },
            None => {
                assert(same_entity(bullets.last(), bullets[bullets.len() - 1]));
            },
        }
    }
}

/// Every hit takes one bullet and one enemy: the number of hits is the
/// number of bullets that are gone, and the number of enemies that are gone.
pub proof fn lemma_hit_takes_a_pair(bullets: Seq<BodyView>, enemies: Seq<BodyView>)
    ensures
        collided(bullets, enemies).bullets.len() + collided(bullets, enemies).hits
            == bullets.len(),
        collided(bullets, enemies).enemies.len() + collided(bullets, enemies).hits
            == enemies.len(),
    decreases bullets.len(),
{
    if bullets.len() > 0 {
        let before = collided(bullets.drop_last(), enemies);
        lemma_hit_takes_a_pair(bullets.drop_last(), enemies);
        lemma_first_hit_is_first(bullets.last(), before.enemies);
    }
}

/// After a round of collisions no bullet is within reach of an enemy.
pub proof fn lemma_no_pair_left(bullets: Seq<BodyView>, enemies: Seq<BodyView>)
    ensures
        forall|i: int, j: int|
            0 <= i < collided(bullets, enemies).bullets.len() && 0 <= j < collided(
                bullets,
                enemies,
            ).enemies.len() ==> !within_reach(
                #[trigger] collided(bullets, enemies).bullets[i],
                #[trigger] collided(bullets, enemies).enemies[j],
            ),
    decreases bullets.len(),
{
    let outcome = collided(bullets, enemies);
    if bullets.len() > 0 {
        let before = collided(bullets.drop_last(), enemies);
        lemma_no_pair_left(bullets.drop_last(), enemies);
        lemma_first_hit_is_first(bullets.last(), before.enemies);
        assert forall|i: int, j: int|
            0 <= i < outcome.bullets.len() && 0 <= j < outcome.enemies.len() implies !within_reach(
            #[trigger] outcome.bullets[i],
            #[trigger] outcome.enemies[j],
        ) by {
            match first_hit(bullets.last(), before.enemies) {
                Some(h) => {
                    let at = if j < h {
                        j
                    } else {
                        j + 1
                    };
                    assert(outcome.enemies[j] == before.enemies[at]);
                    assert(outcome.bullets[i] == before.bullets[i]);
                },
                None => {
                    if i < before.bullets.len() {
                        assert(outcome.bullets[i] == before.bullets[i]);
                    }
                },
            }
        }
    }
}

/// Where nothing is within reach, nothing is hit.
pub proof fn lemma_apart_means_no_hit(bullets: Seq<BodyView>, enemies: Seq<BodyView>)
    requires
        forall|i: int, j: int|
            0 <= i < bullets.len() && 0 <= j < enemies.len() ==> !within_reach(
                #[trigger] bullets[i],
                #[trigger] enemies[j],
            ),
    ensures
        collided(bullets, enemies) == (Outcome { bullets, enemies, hits: 0 }),
    decreases bullets.len(),
{
    if bullets.len() == 0 {
        assert(bullets =~= Seq::empty());
    } else {
        let front = bullets.drop_last();
        assert forall|i: int, j: int|
            0 <= i < front.len() && 0 <= j < enemies.len() implies !within_reach(
            #[trigger] front[i],
            #[trigger] enemies[j],
        ) by {
            assert(front[i] == bullets[i]);
        }
        lemma_apart_means_no_hit(front, enemies);
        lemma_first_hit_is_first(bullets.last(), enemies);
        assert(bullets.last() == bullets[bullets.len() - 1]);
        assert(front.push(bullets.last()) =~= bullets);
    }
}

/// The number of `enemies` within reach of `bullet`.
pub open spec fn reach_count(bullet: BodyView, enemies: Seq<BodyView>) -> nat
    decreases enemies.len(),
{
    if enemies.len() == 0 {
        0
    } else {
        reach_count(bullet, enemies.drop_last()) + if within_reach(bullet, enemies.last()) {
            1nat
        } else {
            0nat
        }
    }
}

/// The number of pairs of a bullet and an enemy that are within reach of
/// each other.
pub open spec fn pairs_in_reach(bullets: Seq<BodyView>, enemies: Seq<BodyView>) -> nat
    decreases bullets.len(),
{
    if bullets.len() == 0 {
        0
    } else {
        pairs_in_reach(bullets.drop_last(), enemies) + reach_count(bullets.last(), enemies)
    }
}

/// No bullet is within reach of two enemies, and no enemy within reach of
/// two bullets.
pub open spec fn pairs_apart(bullets: Seq<BodyView>, enemies: Seq<BodyView>) -> bool {
    &&& forall|i: int, j: int, k: int|
        0 <= i < bullets.len() && 0 <= j < k < enemies.len() ==> !(#[trigger] within_reach(
            bullets[i],
            enemies[j],
        ) && #[trigger] within_reach(bullets[i], enemies[k]))
    &&& forall|i: int, l: int, j: int|
        0 <= i < l < bullets.len() && 0 <= j < enemies.len() ==> !(#[trigger] within_reach(
            bullets[i],
            enemies[j],
        ) && #[trigger] within_reach(bullets[l], enemies[j]))
}

/// The count is zero exactly where no enemy is within reach.
proof fn lemma_reach_count_zero(bullet: BodyView, enemies: Seq<BodyView>)
    ensures
        reach_count(bullet, enemies) == 0 <==> forall|j: int|
            0 <= j < enemies.len() ==> !within_reach(bullet, #[trigger] enemies[j]),
    decreases enemies.len(),
{
    if enemies.len() > 0 {
        let front = enemies.drop_last();
        lemma_reach_count_zero(bullet, front);
        assert(enemies.last() == enemies[enemies.len() - 1]);
        if reach_count(bullet, enemies) == 0 {
            assert forall|j: int| 0 <= j < enemies.len() implies !within_reach(
                bullet,
                #[trigger] enemies[j],
            ) by {
                if j < front.len() {
                    assert(front[j] == enemies[j]);
                }
            }
        }
        if forall|j: int| 0 <= j < enemies.len() ==> !within_reach(bullet, #[trigger] enemies[j]) {
            assert forall|j: int| 0 <= j < front.len() implies !within_reach(
                bullet,
                #[trigger] front[j],
            ) by {
                assert(front[j] == enemies[j]);
            }
        }
    }
}

/// Where no two enemies are within reach, the count is at most one.
proof fn lemma_reach_count_at_most_one(bullet: BodyView, enemies: Seq<BodyView>)
    requires
        forall|j: int, k: int|
            0 <= j < k < enemies.len() ==> !(#[trigger] within_reach(bullet, enemies[j])
                && #[trigger] within_reach(bullet, enemies[k])),
    ensures
        reach_count(bullet, enemies) <= 1,
    decreases enemies.len(),
{
    if enemies.len() > 0 {
        let front = enemies.drop_last();
        assert forall|j: int, k: int| 0 <= j < k < front.len() implies !(#[trigger] within_reach(
            bullet,
            front[j],
        ) && #[trigger] within_reach(bullet, front[k])) by {
            assert(front[j] == enemies[j] && front[k] == enemies[k]);
        }
        lemma_reach_count_at_most_one(bullet, front);
        if within_reach(bullet, enemies.last()) {
            assert(enemies.last() == enemies[enemies.len() - 1]);
            assert forall|j: int| 0 <= j < front.len() implies !within_reach(
                bullet,
                #[trigger] front[j],
            ) by {
                assert(front[j] == enemies[j]);
                assert(!(within_reach(bullet, enemies[j]) && within_reach(
                    bullet,
                    enemies[enemies.len() - 1],
                )));
            }
            lemma_reach_count_zero(bullet, front);
        }
    }
}

/// Every enemy that is left was there before.
proof fn lemma_left_enemies_were_there(bullets: Seq<BodyView>, enemies: Seq<BodyView>)
    ensures
        forall|m: int|
            0 <= m < collided(bullets, enemies).enemies.len() ==> enemies.contains(
                #[trigger] collided(bullets, enemies).enemies[m],
            ),
    decreases bullets.len(),
{
    let outcome = collided(bullets, enemies);
    if bullets.len() == 0 {
        assert forall|m: int| 0 <= m < outcome.enemies.len() implies enemies.contains(
            #[trigger] outcome.enemies[m],
        ) by {
            assert(enemies[m] == outcome.enemies[m]);
        }
    } else {
        let before = collided(bullets.drop_last(), enemies);
        lemma_left_enemies_were_there(bullets.drop_last(), enemies);
        lemma_first_hit_is_first(bullets.last(), before.enemies);
        assert forall|m: int| 0 <= m < outcome.enemies.len() implies enemies.contains(
            #[trigger] outcome.enemies[m],
        ) by {
            match first_hit(bullets.last(), before.enemies) {
                Some(h) => {
                    let at = if m < h {
                        m
                    } else {
                        m + 1
                    };
                    assert(outcome.enemies[m] == before.enemies[at]);
                },
                None => {},
            }
        }
    }
}

/// An enemy that no bullet reaches is left.
proof fn lemma_unreached_enemy_is_left(bullets: Seq<BodyView>, enemies: Seq<BodyView>, j: int)
    requires
        0 <= j < enemies.len(),
        forall|i: int| 0 <= i < bullets.len() ==> !within_reach(#[trigger] bullets[i], enemies[j]),
    ensures
        collided(bullets, enemies).enemies.contains(enemies[j]),
    decreases bullets.len(),
{
    let outcome = collided(bullets, enemies);
    if bullets.len() == 0 {
        assert(outcome.enemies[j] == enemies[j]);
    } else {
        let front = bullets.drop_last();
        let before = collided(front, enemies);
        assert forall|i: int| 0 <= i < front.len() implies !within_reach(
            #[trigger] front[i],
            enemies[j],
        ) by {
            assert(front[i] == bullets[i]);
        }
        lemma_unreached_enemy_is_left(front, enemies, j);
        lemma_first_hit_is_first(bullets.last(), before.enemies);
        assert(bullets.last() == bullets[bullets.len() - 1]);
        let m = choose|m: int| 0 <= m < before.enemies.len() && before.enemies[m] == enemies[j];
        match first_hit(bullets.last(), before.enemies) {
            Some(h) => {
                assert(m != h);
                let at = if m < h {
                    m
                } else {
                    m - 1
                };
                assert(outcome.enemies[at] == enemies[j]);
            },
            None => {
                assert(outcome.enemies[m] == enemies[j]);
            },
        }
    }
}

/// A hit needs a pair within reach: there are never more hits than such
/// pairs.
pub proof fn lemma_hits_need_pairs(bullets: Seq<BodyView>, enemies: Seq<BodyView>)
    ensures
        collided(bullets, enemies).hits <= pairs_in_reach(bullets, enemies),
    decreases bullets.len(),
{
    if bullets.len() > 0 {
        let bullet = bullets.last();
        let before = collided(bullets.drop_last(), enemies);
        lemma_hits_need_pairs(bullets.drop_last(), enemies);
        lemma_first_hit_is_first(bullet, before.enemies);
        lemma_left_enemies_were_there(bullets.drop_last(), enemies);
        lemma_reach_count_zero(bullet, enemies);
        match first_hit(bullet, before.enemies) {
            Some(h) => {
                let hit = before.enemies[h];
                assert(enemies.contains(hit));
                let j = choose|j: int| 0 <= j < enemies.len() && enemies[j] == hit;
                assert(within_reach(bullet, enemies[j]));
            },
            None => {},
        }
    }
}

/// Each pair within reach scores once. Where no bullet is within reach of two
/// enemies and no enemy within reach of two bullets, a round of collisions
/// has as many hits as there are pairs within reach.
pub proof fn lemma_each_pair_scores_once(bullets: Seq<BodyView>, enemies: Seq<BodyView>)
    requires
        pairs_apart(bullets, enemies),
    ensures
        collided(bullets, enemies).hits == pairs_in_reach(bullets, enemies),
    decreases bullets.len(),
{
    if bullets.len() > 0 {
        let bullet = bullets.last();
        let front = bullets.drop_last();
        let before = collided(front, enemies);
        let last = bullets.len() - 1;
        assert(bullet == bullets[last]);
        assert(pairs_apart(front, enemies)) by {
            assert forall|i: int, j: int, k: int|
                0 <= i < front.len() && 0 <= j < k < enemies.len() implies !(
            #[trigger] within_reach(front[i], enemies[j]) && #[trigger] within_reach(
                front[i],
                enemies[k],
            )) by {
                assert(front[i] == bullets[i]);
            }
            assert forall|i: int, l: int, j: int|
                0 <= i < l < front.len() && 0 <= j < enemies.len() implies !(
            #[trigger] within_reach(front[i], enemies[j]) && #[trigger] within_reach(
                front[l],
                enemies[j],
            )) by {
                assert(front[i] == bullets[i] && front[l] == bullets[l]);
            }
        }
        lemma_each_pair_scores_once(front, enemies);
        lemma_first_hit_is_first(bullet, before.enemies);
        lemma_left_enemies_were_there(front, enemies);
        lemma_reach_count_zero(bullet, enemies);
        assert forall|j: int, k: int| 0 <= j < k < enemies.len() implies !(#[trigger] within_reach(
            bullet,
            enemies[j],
        ) && #[trigger] within_reach(bullet, enemies[k])) by {
            assert(!(within_reach(bullets[last], enemies[j]) && within_reach(
                bullets[last],
                enemies[k],
            )));
        }
        lemma_reach_count_at_most_one(bullet, enemies);
        if reach_count(bullet, enemies) == 0 {
            if first_hit(bullet, before.enemies) is Some {
                let h = first_hit(bullet, before.enemies)->Some_0;
                let hit = before.enemies[h];
                assert(enemies.contains(hit));
                let j = choose|j: int| 0 <= j < enemies.len() && enemies[j] == hit;
                assert(within_reach(bullet, enemies[j]));
            }
        } else {
            let j = choose|j: int| 0 <= j < enemies.len() && within_reach(bullet, #[trigger] enemies[j]);
            assert forall|i: int| 0 <= i < front.len() implies !within_reach(
                #[trigger] front[i],
                enemies[j],
            ) by {
                assert(front[i] == bullets[i]);
                assert(!(within_reach(bullets[i], enemies[j]) && within_reach(
                    bullets[last],
                    enemies[j],
                )));
            }
            lemma_unreached_enemy_is_left(front, enemies, j);
            let m = choose|m: int| 0 <= m < before.enemies.len() && before.enemies[m] == enemies[j];
            assert(within_reach(bullet, before.enemies[m]));
        }
    }
}

} // verus!
