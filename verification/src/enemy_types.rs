//! Hostile personalities: what they do to a player, and what they leave behind.

use crate::bits::{
    at_most, clamp, clamped, nan, negate, negated, raise, raised, scaled, Vec2, MINUS_ONE, ONE,
    ZERO,
};
use crate::collision::Collider;
use crate::identities::{include_identity, increasing};
use vstd::prelude::*;

verus! {

/// The hostile personalities.
#[derive(Clone, Copy, Debug, PartialEq, Eq, Structural)]
pub enum EnemyKind {
    Normal,
    Kamikaze,
}

impl Default for EnemyKind {
    fn default() -> (kind: Self)
        ensures
            kind == EnemyKind::Normal,
    {
        EnemyKind::Normal
    }
}

impl EnemyKind {
    /// Whether an enemy of this kind leaves a blast where it dies.
    pub fn detonates(self) -> (result: bool)
        ensures
            result == (self == EnemyKind::Kamikaze),
    {
        self == EnemyKind::Kamikaze
    }
}

/// Timings and geometry of a kamikaze, each by its bit pattern.
#[derive(Clone, Copy, Debug, PartialEq, Eq, Structural)]
pub struct KamikazeSettings {
    pub near_distance: u32,
    pub motor_rate: u32,
    pub blast_seconds: u32,
    pub blast_width: u32,
}

impl Default for KamikazeSettings {
    /// Near at 156.25 world units, a motor rate of 0.6, and a blast of one
    /// second that grows to a width of 187.5.
    fn default() -> (settings: Self)
        ensures
            settings == (KamikazeSettings {
                near_distance: 0x431c_4000,
                motor_rate: 0x3f19_999a,
                blast_seconds: 0x3f80_0000,
                blast_width: 0x433b_8000,
            }),
    {
        KamikazeSettings {
            near_distance: 0x431c_4000,
            motor_rate: 0x3f19_999a,
            blast_seconds: 0x3f80_0000,
            blast_width: 0x433b_8000,
        }
    }
}

/// The smallest half width a blast has: 0.001.
pub const SMALLEST_BLAST: u32 = 0x3a83_126f;

impl KamikazeSettings {
    /// A target is so near that the motor runs backwards. Without a target
    /// nothing is near.
    pub open spec fn near(self, distance: Option<u32>) -> bool {
        match distance {
            Some(away) => !nan(away) && !nan(self.near_distance) && scaled(away) <= scaled(
                self.near_distance,
            ),
            None => false,
        }
    }

    /// Whether a target is so near that the motor runs backwards.
    pub fn is_near(self, distance: Option<u32>) -> (near: bool)
        ensures
            near == self.near(distance),
    {
        match distance {
            Some(away) => at_most(away, self.near_distance),
            None => false,
        }
    }

    /// What a change of that size does to the motor: near a target it is taken
    /// away.
    pub fn motor_change(self, distance: Option<u32>, change: u32) -> (turned: u32)
        ensures
            turned == if self.near(distance) {
                negated(change)
            } else {
                change
            },
    {
        if self.is_near(distance) {
            negate(change)
        } else {
            change
        }
    }

    /// Whether a blast of this age is over.
    pub fn has_expired(self, age: u32) -> (over: bool)
        ensures
            over == (!nan(age) && !nan(self.blast_seconds) && scaled(age) >= scaled(
                self.blast_seconds,
            )),
    {
        at_most(self.blast_seconds, age)
    }
}

/// The multiplier a motor runs at: full speed backwards at the least, full speed
/// onwards at the most.
pub fn motor_multiplier(multiplier: u32) -> (bounded: u32)
    ensures
        bounded == clamped(multiplier, MINUS_ONE, ONE),
{
    proof {
        assert(!nan(MINUS_ONE) && !nan(ONE));
    }
    clamp(multiplier, MINUS_ONE, ONE)
}

/// How far along a blast is, from the share of its time that has passed.
pub fn blast_progress(share: u32) -> (progress: u32)
    ensures
        progress == clamped(share, ZERO, ONE),
{
    proof {
        assert(!nan(ZERO) && !nan(ONE));
    }
    clamp(share, ZERO, ONE)
}

/// The half width of a blast, which never vanishes while the blast lasts.
pub fn blast_half_width(half_width: u32) -> (kept: u32)
    ensures
        kept == raised(half_width, SMALLEST_BLAST),
{
    proof {
        assert(!nan(SMALLEST_BLAST));
    }
    raise(half_width, SMALLEST_BLAST)
}

/// An actor that enemies hunt.
#[derive(Clone, Copy, Debug, PartialEq, Eq, Structural)]
pub struct Quarry {
    pub entity: u64,
    pub collider: Collider,
    pub velocity: Vec2,
    pub defeated: bool,
}

impl Quarry {
    /// It can still be hit.
    pub open spec fn vulnerable(self) -> bool {
        !self.defeated && self.collider.enabled
    }

    /// What a hit on that actor leaves of this one: a player that is hit stops,
    /// no longer collides, and is defeated.
    pub open spec fn struck(self, entity: u64) -> Quarry {
        if self.entity == entity && self.vulnerable() {
            Quarry {
                collider: Collider { enabled: false, ..self.collider },
                velocity: Vec2 { x: ZERO, y: ZERO },
                defeated: true,
                ..self
            }
        } else {
            self
        }
    }
}

/// An actor of that identity can still be hit.
pub open spec fn can_be_hit(quarries: Seq<Quarry>, entity: u64) -> bool {
    exists|i: int|
        0 <= i < quarries.len() && (#[trigger] quarries[i]).entity == entity
            && quarries[i].vulnerable()
}

/// What a hit on one actor leaves of all of them.
pub open spec fn after_hit(quarries: Seq<Quarry>, entity: u64) -> Seq<Quarry> {
    quarries.map_values(|quarry: Quarry| quarry.struck(entity))
}

/// Hit one actor, and say whether that is news.
pub fn hit_player(quarries: &mut Vec<Quarry>, entity: u64) -> (hit: bool)
    ensures
        hit == can_be_hit(old(quarries)@, entity),
        final(quarries)@ == after_hit(old(quarries)@, entity),
{
    let mut hit: bool = false;
    let mut index: usize = 0;
    let ghost before = quarries@;
    while index < quarries.len()
        invariant
            index <= quarries@.len(),
            quarries@.len() == before.len(),
            before == old(quarries)@,
            forall|k: int| 0 <= k < index ==> quarries@[k] == before[k].struck(entity),
            forall|k: int| index <= k < before.len() ==> quarries@[k] == before[k],
            hit == can_be_hit(before.take(index as int), entity),
        decreases quarries@.len() - index,
    {
        let quarry: Quarry = quarries[index];
        proof {
            let done = before.take(index as int);
            let more = before.take(index + 1);
            assert(more[index as int] == quarry);
            assert(can_be_hit(more, entity) == (can_be_hit(done, entity) || (quarry.entity
                == entity && quarry.vulnerable()))) by {
                if can_be_hit(done, entity) {
                    let i = choose|i: int|
                        0 <= i < done.len() && (#[trigger] done[i]).entity == entity
                            && done[i].vulnerable();
                    assert(more[i] == done[i]);
                }
                if can_be_hit(more, entity) {
                    let i = choose|i: int|
                        0 <= i < more.len() && (#[trigger] more[i]).entity == entity
                            && more[i].vulnerable();
                    if i < index {
                        assert(done[i] == more[i]);
                    }
                }
            }
        }
        if quarry.entity == entity && !quarry.defeated && quarry.collider.enabled {
            let stopped: Collider = Collider {
                half_extents: quarry.collider.half_extents,
                offset: quarry.collider.offset,
                enabled: false,
            };
            quarries[index] = Quarry {
                entity: quarry.entity,
                collider: stopped,
                velocity: Vec2 { x: ZERO, y: ZERO },
                defeated: true,
            };
            hit = true;
        }
        index = index + 1;
    }
    assert(before.take(index as int) =~= before);
    assert(quarries@ =~= after_hit(before, entity));
    hit
}

/// Hit actors one after the other: what is left of them, and whose hits are
/// news.
pub open spec fn after_hits(quarries: Seq<Quarry>, entities: Seq<u64>) -> (Seq<Quarry>, Seq<u64>)
    decreases entities.len(),
{
    if entities.len() == 0 {
        (quarries, Seq::empty())
    } else {
        let (left, hits) = after_hits(quarries, entities.drop_last());
        let entity = entities.last();
        (
            after_hit(left, entity),
            if can_be_hit(left, entity) {
                hits.push(entity)
            } else {
                hits
            },
        )
    }
}

/// Hit actors one after the other, and report whose hits are news.
pub fn hit_players(quarries: &mut Vec<Quarry>, entities: &[u64]) -> (hits: Vec<u64>)
    ensures
        (final(quarries)@, hits@) == after_hits(old(quarries)@, entities@),
{
    let mut hits: Vec<u64> = Vec::new();
    let mut index: usize = 0;
    let ghost before = quarries@;
    assert(entities@.take(0) =~= Seq::<u64>::empty());
    while index < entities.len()
        invariant
            index <= entities@.len(),
            before == old(quarries)@,
            (quarries@, hits@) == after_hits(before, entities@.take(index as int)),
        decreases entities@.len() - index,
    {
        assert(entities@.take(index + 1).drop_last() =~= entities@.take(index as int));
        if hit_player(quarries, entities[index]) {
            hits.push(entities[index]);
        }
        index = index + 1;
    }
    assert(entities@.take(index as int) =~= entities@);
    hits
}

/// An enemy that touches an actor it hunts.
#[derive(Clone, Copy, Debug, PartialEq, Eq, Structural)]
pub struct EnemyContact {
    pub enemy: u64,
    pub target: u64,
}

/// What contacts came to.
#[derive(Debug)]
pub struct Casualties {
    /// Players that were hit, each once.
    pub hits: Vec<u64>,
    /// Enemies that die of reaching a player.
    pub dying: Vec<u64>,
}

/// The actors touched, contact by contact.
pub open spec fn touched(contacts: Seq<EnemyContact>) -> Seq<u64> {
    contacts.map_values(|contact: EnemyContact| contact.target)
}

/// The enemies that touched them, contact by contact.
pub open spec fn touching(contacts: Seq<EnemyContact>) -> Seq<u64> {
    contacts.map_values(|contact: EnemyContact| contact.enemy)
}

/// Every contact hits its target and costs the enemy its life.
pub fn resolve_contacts(contacts: &[EnemyContact], quarries: &mut Vec<Quarry>) -> (casualties:
    Casualties)
    ensures
        (final(quarries)@, casualties.hits@) == after_hits(old(quarries)@, touched(contacts@)),
        casualties.dying@ == touching(contacts@),
{
    let mut targets: Vec<u64> = Vec::new();
    let mut dying: Vec<u64> = Vec::new();
    let mut index: usize = 0;
    while index < contacts.len()
        invariant
            index <= contacts@.len(),
            targets@ == touched(contacts@.take(index as int)),
            dying@ == touching(contacts@.take(index as int)),
        decreases contacts@.len() - index,
    {
        targets.push(contacts[index].target);
        dying.push(contacts[index].enemy);
        assert(targets@ =~= touched(contacts@.take(index + 1)));
        assert(dying@ =~= touching(contacts@.take(index + 1)));
        index = index + 1;
    }
    assert(contacts@.take(index as int) =~= contacts@);
    let hits: Vec<u64> = hit_players(quarries, targets.as_slice());
    Casualties { hits, dying }
}

/// Everyone a blast covers is hit, in the order of their identities.
pub fn resolve_blasts(covered: &[u64], quarries: &mut Vec<Quarry>) -> (hits: Vec<u64>)
    ensures
        exists|victims: Seq<u64>|
            {
                &&& increasing(victims)
                &&& forall|entity: u64| #[trigger]
                    victims.contains(entity) <==> covered@.contains(entity)
                &&& (final(quarries)@, hits@) == #[trigger] after_hits(old(quarries)@, victims)
            },
{
    let mut victims: Vec<u64> = Vec::new();
    let mut index: usize = 0;
    while index < covered.len()
        invariant
            index <= covered@.len(),
            increasing(victims@),
            forall|entity: u64| #[trigger]
                victims@.contains(entity) <==> covered@.take(index as int).contains(entity),
        decreases covered@.len() - index,
    {
        include_identity(&mut victims, covered[index]);
        proof {
            let done = covered@.take(index as int);
            let more = covered@.take(index + 1);
            assert(more =~= done.push(covered@[index as int]));
            assert forall|entity: u64| #[trigger]
                victims@.contains(entity) <==> more.contains(entity) by {
                if done.contains(entity) {
                    let k = choose|k: int| 0 <= k < done.len() && done[k] == entity;
                    assert(more[k] == entity);
                }
                if more.contains(entity) {
                    let k = choose|k: int| 0 <= k < more.len() && more[k] == entity;
                    if k < index {
                        assert(done[k] == entity);
                    }
                }
                assert(more[index as int] == covered@[index as int]);
            }
        }
        index = index + 1;
    }
    assert(covered@.take(index as int) =~= covered@);
    hit_players(quarries, victims.as_slice())
}

/// Once hit, an actor cannot be hit again, and no other actor becomes
/// vulnerable by it.
proof fn lemma_hit_is_final(quarries: Seq<Quarry>, entity: u64, other: u64)
    ensures
        !can_be_hit(after_hit(quarries, entity), entity),
        can_be_hit(after_hit(quarries, entity), other) ==> can_be_hit(quarries, other),
{
    let after = after_hit(quarries, entity);
    if can_be_hit(after, other) {
        let i = choose|i: int|
            0 <= i < after.len() && (#[trigger] after[i]).entity == other
                && after[i].vulnerable();
        assert(quarries[i].entity == other && quarries[i].vulnerable());
    }
}

proof fn lemma_hits_are_final(quarries: Seq<Quarry>, entities: Seq<u64>, entity: u64)
    ensures
        ({
            let (left, hits) = after_hits(quarries, entities);
            &&& hits.contains(entity) ==> !can_be_hit(left, entity)
            &&& hits.contains(entity) ==> can_be_hit(quarries, entity)
            &&& entities.contains(entity) ==> !can_be_hit(left, entity)
            &&& can_be_hit(left, entity) ==> can_be_hit(quarries, entity)
        }),
    decreases entities.len(),
{
    if entities.len() > 0 {
        let shorter = entities.drop_last();
        let last = entities.last();
        lemma_hits_are_final(quarries, shorter, entity);
        let (left, hits) = after_hits(quarries, shorter);
        let (_, more) = after_hits(quarries, entities);
        lemma_hit_is_final(left, last, entity);
        if more.contains(entity) {
            let k = choose|k: int| 0 <= k < more.len() && more[k] == entity;
            if k < hits.len() {
                assert(hits[k] == entity);
            }
        }
        if entities.contains(entity) && entity != last {
            let k = choose|k: int| 0 <= k < entities.len() && entities[k] == entity;
            assert(shorter[k] == entity);
        }
    }
}

/// A player is hit at most once in a life, however many contacts there are, and
/// a player that could not be hit is not.
pub proof fn law_one_hit_per_life(quarries: Seq<Quarry>, entities: Seq<u64>)
    ensures
        after_hits(quarries, entities).1.no_duplicates(),
        forall|entity: u64| #[trigger]
            after_hits(quarries, entities).1.contains(entity) <==> (entities.contains(entity)
                && can_be_hit(quarries, entity)),
    decreases entities.len(),
{
    if entities.len() > 0 {
        let shorter = entities.drop_last();
        let last = entities.last();
        law_one_hit_per_life(quarries, shorter);
        let (left, hits) = after_hits(quarries, shorter);
        lemma_hits_are_final(quarries, shorter, last);
        if !shorter.contains(last) && can_be_hit(quarries, last) {
            lemma_can_stays(quarries, shorter, last);
        }
        let more = after_hits(quarries, entities).1;
        assert forall|entity: u64| #[trigger]
            more.contains(entity) <==> (entities.contains(entity) && can_be_hit(
                quarries,
                entity,
            )) by {
            if more.contains(entity) {
                let k = choose|k: int| 0 <= k < more.len() && more[k] == entity;
                if k < hits.len() {
                    assert(hits[k] == entity);
                    assert(hits.contains(entity));
                    let m = choose|m: int| 0 <= m < shorter.len() && shorter[m] == entity;
                    assert(entities[m] == entity);
                } else {
                    assert(entities[entities.len() - 1] == entity);
                }
            }
            if entities.contains(entity) && can_be_hit(quarries, entity) {
                let k = choose|k: int| 0 <= k < entities.len() && entities[k] == entity;
                if shorter.contains(entity) {
                    assert(hits.contains(entity));
                    let m = choose|m: int| 0 <= m < hits.len() && hits[m] == entity;
                    assert(more[m] == entity);
                } else {
                    if k < shorter.len() {
                        assert(shorter[k] == entity);
                    }
                    assert(entity == last);
                    assert(can_be_hit(left, last));
                    assert(more[more.len() - 1] == entity);
                }
            }
        }
    }
}

/// Hits on others leave an actor as vulnerable as it was.
proof fn lemma_can_stays(quarries: Seq<Quarry>, entities: Seq<u64>, entity: u64)
    requires
        !entities.contains(entity),
        can_be_hit(quarries, entity),
    ensures
        can_be_hit(after_hits(quarries, entities).0, entity),
    decreases entities.len(),
{
    if entities.len() > 0 {
        let shorter = entities.drop_last();
        let last = entities.last();
        assert(entities[entities.len() - 1] == last);
        assert(!shorter.contains(entity)) by {
            if shorter.contains(entity) {
                let k = choose|k: int| 0 <= k < shorter.len() && shorter[k] == entity;
                assert(entities[k] == entity);
            }
        }
        lemma_can_stays(quarries, shorter, entity);
        let left = after_hits(quarries, shorter).0;
        let i = choose|i: int|
            0 <= i < left.len() && (#[trigger] left[i]).entity == entity && left[i].vulnerable();
        assert(after_hit(left, last)[i] == left[i]);
    }
}

proof fn lemma_each_actor(quarries: Seq<Quarry>, entities: Seq<u64>, i: int)
    requires
        0 <= i < quarries.len(),
    ensures
        after_hits(quarries, entities).0.len() == quarries.len(),
        ({
            let before = quarries[i];
            let after = after_hits(quarries, entities).0[i];
            if entities.contains(before.entity) && !before.defeated && before.collider.enabled {
                &&& after.entity == before.entity
                &&& after.defeated
                &&& !after.collider.enabled
                &&& after.collider.half_extents == before.collider.half_extents
                &&& after.collider.offset == before.collider.offset
                &&& after.velocity == (Vec2 { x: ZERO, y: ZERO })
            } else {
                after == before
            }
        }),
    decreases entities.len(),
{
    if entities.len() > 0 {
        let shorter = entities.drop_last();
        lemma_each_actor(quarries, shorter, i);
        let entity = quarries[i].entity;
        assert(entities[entities.len() - 1] == entities.last());
        if shorter.contains(entity) {
            let k = choose|k: int| 0 <= k < shorter.len() && shorter[k] == entity;
            assert(entities[k] == entity);
        } else if entities.contains(entity) {
            let k = choose|k: int| 0 <= k < entities.len() && entities[k] == entity;
            if k < shorter.len() {
                assert(shorter[k] == entity);
            }
        }
    }
}

/// Every actor that is touched or covered, is not yet defeated and has an
/// enabled hitbox falls, whatever its velocity and its size: it is reported hit,
/// defeated and stopped, and no longer collides, and its hitbox keeps its shape.
pub proof fn law_every_touched_actor_falls(quarries: Seq<Quarry>, entities: Seq<u64>, i: int)
    requires
        0 <= i < quarries.len(),
        entities.contains(quarries[i].entity),
        !quarries[i].defeated,
        quarries[i].collider.enabled,
    ensures
        ({
            let (left, hits) = after_hits(quarries, entities);
            &&& hits.contains(quarries[i].entity)
            &&& left.len() == quarries.len()
            &&& left[i].entity == quarries[i].entity
            &&& left[i].defeated
            &&& !left[i].collider.enabled
            &&& left[i].velocity.x == 0 && left[i].velocity.y == 0
            &&& left[i].collider.half_extents == quarries[i].collider.half_extents
            &&& left[i].collider.offset == quarries[i].collider.offset
        }),
{
    lemma_each_actor(quarries, entities, i);
    law_one_hit_per_life(quarries, entities);
    assert(can_be_hit(quarries, quarries[i].entity));
    assert(after_hits(quarries, entities).1.contains(quarries[i].entity));
}

/// An actor that nothing touches, that is defeated already or whose hitbox is
/// disabled stays exactly as it is; and whoever is reported hit was touched while
/// an actor of that identity could still fall.
pub proof fn law_nobody_else_falls(quarries: Seq<Quarry>, entities: Seq<u64>, i: int)
    requires
        0 <= i < quarries.len(),
    ensures
        ({
            let (left, hits) = after_hits(quarries, entities);
            let actor = quarries[i];
            &&& !entities.contains(actor.entity) || actor.defeated || !actor.collider.enabled
                ==> left[i] == actor
            &&& forall|entity: u64| #[trigger]
                hits.contains(entity) ==> entities.contains(entity) && exists|k: int|
                    0 <= k < quarries.len() && (#[trigger] quarries[k]).entity == entity
                        && !quarries[k].defeated && quarries[k].collider.enabled
            &&& hits.no_duplicates()
        }),
{
    lemma_each_actor(quarries, entities, i);
    law_one_hit_per_life(quarries, entities);
}

/// Hits are reported in the order they happen: what the first contacts came to is
/// not changed by later ones.
pub proof fn law_hits_are_reported_in_order(quarries: Seq<Quarry>, entities: Seq<u64>, first: int)
    requires
        0 <= first <= entities.len(),
    ensures
        ({
            let early = after_hits(quarries, entities.take(first)).1;
            let all = after_hits(quarries, entities).1;
            &&& early.len() <= all.len() <= early.len() + (entities.len() - first)
            &&& forall|k: int| 0 <= k < early.len() ==> #[trigger] all[k] == early[k]
        }),
    decreases entities.len(),
{
    if first == entities.len() {
        assert(entities.take(first) =~= entities);
    } else {
        let shorter = entities.drop_last();
        law_hits_are_reported_in_order(quarries, shorter, first);
        assert(shorter.take(first) =~= entities.take(first));
    }
}

/// Every contact names one touched actor and one touching enemy, in the order of
/// the contacts.
pub proof fn law_contacts_name_both_sides(contacts: Seq<EnemyContact>, i: int)
    requires
        0 <= i < contacts.len(),
    ensures
        touched(contacts).len() == contacts.len(),
        touching(contacts).len() == contacts.len(),
        touched(contacts)[i] == contacts[i].target,
        touching(contacts)[i] == contacts[i].enemy,
{
}

/// An enemy that touches an actor that can still fall brings it down, with the
/// actor standing still or not.
pub proof fn law_every_contact_counts(
    quarries: Seq<Quarry>,
    contacts: Seq<EnemyContact>,
    contact: int,
    i: int,
)
    requires
        0 <= contact < contacts.len(),
        0 <= i < quarries.len(),
        quarries[i].entity == contacts[contact].target,
        !quarries[i].defeated,
        quarries[i].collider.enabled,
    ensures
        after_hits(quarries, touched(contacts)).1.contains(contacts[contact].target),
        after_hits(quarries, touched(contacts)).0[i].defeated,
        !after_hits(quarries, touched(contacts)).0[i].collider.enabled,
        touching(contacts).contains(contacts[contact].enemy),
{
    assert(touched(contacts)[contact] == contacts[contact].target);
    assert(touching(contacts)[contact] == contacts[contact].enemy);
    law_every_touched_actor_falls(quarries, touched(contacts), i);
}

/// A motor runs backwards up to the near distance and nowhere beyond it: at that
/// distance itself, at every lesser one, and at none that is greater. Without a
/// target it never does.
pub proof fn law_near_has_one_edge(settings: KamikazeSettings, near: u32, far: u32)
    requires
        !nan(settings.near_distance),
        !nan(near),
        !nan(far),
        scaled(near) <= scaled(settings.near_distance) < scaled(far),
    ensures
        settings.near(Some(settings.near_distance)),
        settings.near(Some(near)),
        !settings.near(Some(far)),
        !settings.near(None),
{
}

/// What a blast covers is hit in the order of identities.
pub proof fn law_blasts_hit_by_identity(quarries: Seq<Quarry>, entities: Seq<u64>)
    requires
        forall|i: int, j: int|
            #![trigger entities[i], entities[j]]
            0 <= i < j < entities.len() ==> entities[i] < entities[j],
    ensures
        forall|i: int, j: int|
            #![trigger after_hits(quarries, entities).1[i], after_hits(quarries, entities).1[j]]
            0 <= i < j < after_hits(quarries, entities).1.len() ==> after_hits(
                quarries,
                entities,
            ).1[i] < after_hits(quarries, entities).1[j],
    decreases entities.len(),
{
    if entities.len() > 0 {
        let shorter = entities.drop_last();
        let last = entities.last();
        assert forall|i: int, j: int|
            #![trigger shorter[i], shorter[j]]
            0 <= i < j < shorter.len() implies shorter[i] < shorter[j] by {
            assert(entities[i] < entities[j]);
        }
        law_blasts_hit_by_identity(quarries, shorter);
        law_one_hit_per_life(quarries, shorter);
        let hits = after_hits(quarries, shorter).1;
        let more = after_hits(quarries, entities).1;
        assert forall|i: int, j: int|
            #![trigger more[i], more[j]]
            0 <= i < j < more.len() implies more[i] < more[j] by {
            if j < hits.len() {
                assert(hits[i] < hits[j]);
            } else {
                assert(hits.contains(hits[i]));
                let m = choose|m: int| 0 <= m < shorter.len() && shorter[m] == hits[i];
                assert(entities[m] < entities[entities.len() - 1]);
            }
        }
    }
}

} // verus!
