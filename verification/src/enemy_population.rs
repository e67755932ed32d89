//! Select enemy types first, then place them safely to replenish the arena.
//!
//! Choosing what to place and what becomes of a request is decided here. Where
//! a request could stand is measured outside, one candidate at a time.

use crate::bits::{finite, less, nan, negate, negated, scaled, Vec2, ZERO};
use crate::collision::{centered, is_positive, positive, Collider};
use crate::enemy::{
    default_settings, fits, fits_world, is_usable, usable, BoundaryMode, EnemySettings,
    SteeringMode,
};
use crate::enemy_types::EnemyKind;
use crate::rng::{fastrand_u64, Stream};
use std::collections::VecDeque;
use vstd::prelude::*;

verus! {

/// A type definition copied into the queue before any position is sampled.
#[derive(Debug)]
pub struct EnemyArchetype {
    pub name: String,
    pub kind: EnemyKind,
    /// Relative spawn frequency; zero disables new selection.
    pub weight: u16,
    pub settings: EnemySettings,
    pub collider: Collider,
}

/// What a type definition says.
#[verifier::ext_equal]
pub struct ArchetypeView {
    pub name: Seq<char>,
    pub kind: EnemyKind,
    pub weight: u16,
    pub settings: EnemySettings,
    pub collider: Collider,
}

impl View for EnemyArchetype {
    type V = ArchetypeView;

    open spec fn view(&self) -> ArchetypeView {
        ArchetypeView {
            name: self.name@,
            kind: self.kind,
            weight: self.weight,
            settings: self.settings,
            collider: self.collider,
        }
    }
}

impl EnemyArchetype {
    /// A copy of its own, so that a changed catalog does not change a request.
    pub fn snapshot(&self) -> (copy: Self)
        ensures
            copy@ == self@,
    {
        EnemyArchetype {
            name: self.name.clone(),
            kind: self.kind,
            weight: self.weight,
            settings: self.settings,
            collider: self.collider,
        }
    }
}

/// What a list of type definitions says.
pub open spec fn archetype_views(types: Seq<EnemyArchetype>) -> Seq<ArchetypeView> {
    types.map_values(|item: EnemyArchetype| item@)
}

/// Population and placement controls. Type weights are relative frequencies.
#[derive(Debug)]
pub struct EnemyPopulation {
    pub target_count: usize,
    pub types: Vec<EnemyArchetype>,
    /// Maximum queued entries and placement searches processed per update.
    pub budget_per_frame: usize,
    /// Random candidates tested for each queued type per update.
    pub placement_attempts: u16,
    /// Extra distance beyond the selected type's detection range.
    pub detection_margin: u32,
}

/// The four sizes of an enemy, each with its half width in world units by its
/// bit pattern and its relative frequency: 12.5, 15.625, 18.75 and 21.875.
pub const SIZES: [(u32, u16); 4] = [
    (0x4148_0000, 20),
    (0x417a_0000, 50),
    (0x4196_0000, 20),
    (0x41af_0000, 10),
];

/// How often a kind occurs relative to the other.
pub open spec fn kind_frequency(kind: EnemyKind) -> u16 {
    match kind {
        EnemyKind::Normal => 153,
        EnemyKind::Kamikaze => 35,
    }
}

/// How far a kind sees, by its bit pattern: 900 and 1100.
pub open spec fn kind_range(kind: EnemyKind) -> u32 {
    match kind {
        EnemyKind::Normal => 0x4461_0000,
        EnemyKind::Kamikaze => 0x4489_8000,
    }
}

/// The name of a kind.
pub open spec fn kind_name(kind: EnemyKind) -> Seq<char> {
    match kind {
        EnemyKind::Normal => "Normal"@,
        EnemyKind::Kamikaze => "Kamikaze"@,
    }
}

/// The type of one kind and one size: it wraps with the world and keeps its
/// target to 1400 world units.
pub open spec fn reference_type(kind: EnemyKind, size: int) -> ArchetypeView {
    ArchetypeView {
        name: kind_name(kind),
        kind,
        weight: (kind_frequency(kind) * SIZES@[size].1) as u16,
        settings: EnemySettings {
            boundary: BoundaryMode::Wrap,
            detection_range: kind_range(kind),
            retention_range: 0x44af_0000,
            ..default_settings()
        },
        collider: centered(Vec2 { x: SIZES@[size].0, y: SIZES@[size].0 }),
    }
}

/// The whole catalog: every size of one kind, then every size of the other.
pub open spec fn reference_catalog() -> Seq<ArchetypeView> {
    Seq::new(
        8,
        |index: int|
            if index < 4 {
                reference_type(EnemyKind::Normal, index)
            } else {
                reference_type(EnemyKind::Kamikaze, index - 4)
            },
    )
}

fn make_reference_type(kind: EnemyKind, size: usize) -> (made: EnemyArchetype)
    requires
        size < 4,
    ensures
        made@ == reference_type(kind, size as int),
{
    let sizes: [(u32, u16); 4] = SIZES;
    let (half, share): (u32, u16) = sizes[size];
    let (frequency, range): (u16, u32) = match kind {
        EnemyKind::Normal => (153, 0x4461_0000),
        EnemyKind::Kamikaze => (35, 0x4489_8000),
    };
    let name: &str = match kind {
        EnemyKind::Normal => "Normal",
        EnemyKind::Kamikaze => "Kamikaze",
    };
    assert(share <= 50);
    EnemyArchetype {
        name: name.to_owned(),
        kind,
        weight: frequency * share,
        settings: EnemySettings {
            steering: SteeringMode::Chase,
            boundary: BoundaryMode::Wrap,
            speed: 0x4334_0000,
            response: 0x4100_0000,
            detection_range: range,
            retention_range: 0x44af_0000,
            stop_distance: ZERO,
            arrival_radius: 0x42a0_0000,
            lookahead_seconds: 0x3e19_999a,
        },
        collider: Collider::rectangle(Vec2 { x: half, y: half }),
    }
}

/// The hostile types: kinds in the ratio 153 to 35, and sizes 20 to 50 to 20 to
/// 10 within each.
pub fn reference_archetypes() -> (types: Vec<EnemyArchetype>)
    ensures
        archetype_views(types@) == reference_catalog(),
{
    let mut types: Vec<EnemyArchetype> = Vec::new();
    let mut index: usize = 0;
    while index < 8
        invariant
            index <= 8,
            archetype_views(types@) == reference_catalog().take(index as int),
        decreases 8 - index,
    {
        let ghost before = types@;
        let made: EnemyArchetype = if index < 4 {
            make_reference_type(EnemyKind::Normal, index)
        } else {
            make_reference_type(EnemyKind::Kamikaze, index - 4)
        };
        let ghost said = made@;
        types.push(made);
        assert(archetype_views(types@) =~= archetype_views(before).push(said));
        assert(archetype_views(types@) =~= reference_catalog().take(index + 1));
        index = index + 1;
    }
    assert(reference_catalog().take(8) =~= reference_catalog());
    types
}

impl Default for EnemyPopulation {
    /// A hundred enemies of the reference types, 64 searches of 64 attempts per
    /// update, and a margin of 32 world units.
    fn default() -> (population: Self)
        ensures
            population.target_count == 100,
            population.budget_per_frame == 64,
            population.placement_attempts == 64,
            population.detection_margin == 0x4200_0000,
            archetype_views(population.types@) == reference_catalog(),
    {
        EnemyPopulation {
            target_count: 100,
            types: reference_archetypes(),
            budget_per_frame: 64,
            placement_attempts: 64,
            detection_margin: 0x4200_0000,
        }
    }
}

/// The weights of the types before this one, added up.
pub open spec fn weight_before(types: Seq<ArchetypeView>, index: int) -> int
    decreases index,
{
    if index <= 0 {
        0
    } else {
        weight_before(types, index - 1) + types[index - 1].weight
    }
}

/// The weights of all types, added up as far as the total counts.
pub open spec fn total_weight(types: Seq<ArchetypeView>) -> int {
    let sum = weight_before(types, types.len() as int);
    if sum > u64::MAX {
        u64::MAX as int
    } else {
        sum
    }
}

/// The ticket falls to the type at this place.
pub open spec fn wins(types: Seq<ArchetypeView>, ticket: int, index: int) -> bool {
    &&& 0 <= index < types.len()
    &&& weight_before(types, index) <= ticket < weight_before(types, index) + types[index].weight
}

proof fn lemma_weights_increase(types: Seq<ArchetypeView>, low: int, high: int)
    requires
        0 <= low <= high <= types.len(),
    ensures
        0 <= weight_before(types, low) <= weight_before(types, high),
    decreases high,
{
    if low < high {
        lemma_weights_increase(types, low, high - 1);
    } else if low > 0 {
        lemma_weights_increase(types, low - 1, high - 1);
    }
}

/// The weights of all types, added up as far as a `u64` counts.
pub fn sum_weights(types: &[EnemyArchetype]) -> (total: u64)
    ensures
        total == total_weight(archetype_views(types@)),
{
    let ghost views = archetype_views(types@);
    let mut total: u64 = 0;
    let mut index: usize = 0;
    while index < types.len()
        invariant
            index <= types@.len(),
            views == archetype_views(types@),
            total == if weight_before(views, index as int) > u64::MAX {
                u64::MAX as int
            } else {
                weight_before(views, index as int)
            },
        decreases types@.len() - index,
    {
        proof {
            lemma_weights_increase(views, index as int, index + 1);
        }
        total = total.saturating_add(types[index].weight as u64);
        index = index + 1;
    }
    total
}

/// Find the type a ticket falls to, so that every type owns as many tickets as
/// its weight says.
pub fn pick(types: &[EnemyArchetype], ticket: u64) -> (picked: Option<usize>)
    ensures
        match picked {
            Some(index) => wins(archetype_views(types@), ticket as int, index as int),
            None => ticket >= weight_before(archetype_views(types@), types@.len() as int),
        },
{
    let ghost views = archetype_views(types@);
    let mut left: u64 = ticket;
    let mut index: usize = 0;
    while index < types.len()
        invariant
            index <= types@.len(),
            views == archetype_views(types@),
            left == ticket - weight_before(views, index as int),
        decreases types@.len() - index,
    {
        if left < types[index].weight as u64 {
            return Some(index);
        }
        left = left - types[index].weight as u64;
        index = index + 1;
    }
    None
}

/// No ticket falls to two types, and a type of weight zero gets none.
pub proof fn law_tickets_are_shared_out(
    types: Seq<ArchetypeView>,
    ticket: int,
    first: int,
    second: int,
)
    requires
        wins(types, ticket, first),
    ensures
        wins(types, ticket, second) ==> first == second,
        types[first].weight > 0,
{
    if wins(types, ticket, second) && first != second {
        let (low, high) = if first < second {
            (first, second)
        } else {
            (second, first)
        };
        lemma_weights_increase(types, low + 1, high);
    }
}

/// Every ticket below the total falls to a type.
pub proof fn law_every_ticket_wins(types: Seq<ArchetypeView>, ticket: int) -> (index: int)
    requires
        0 <= ticket < weight_before(types, types.len() as int),
    ensures
        wins(types, ticket, index),
{
    lemma_ticket_wins(types, ticket, types.len() as int)
}

proof fn lemma_ticket_wins(types: Seq<ArchetypeView>, ticket: int, end: int) -> (index: int)
    requires
        0 <= end <= types.len(),
        0 <= ticket < weight_before(types, end),
    ensures
        wins(types, ticket, index),
    decreases end,
{
    if ticket < weight_before(types, end - 1) {
        lemma_ticket_wins(types, ticket, end - 1)
    } else {
        end - 1
    }
}

/// The type a ticket below the total falls to.
pub open spec fn winner(types: Seq<ArchetypeView>, ticket: int) -> ArchetypeView {
    types[choose|index: int| wins(types, ticket, index)]
}

/// Pending requests after filling up to the limit, and the seed of the stream
/// they were drawn from. Each draw is a ticket below the total weight.
pub open spec fn selected(
    types: Seq<ArchetypeView>,
    pending: Seq<ArchetypeView>,
    seed: u64,
    limit: nat,
) -> (Seq<ArchetypeView>, u64)
    decreases limit - pending.len(),
{
    if pending.len() >= limit || total_weight(types) == 0 {
        (pending, seed)
    } else {
        let (ticket, next) = fastrand_u64(seed, total_weight(types) as u64);
        selected(types, pending.push(winner(types, ticket as int)), next, limit)
    }
}

/// Pending type snapshots persist across failed placement attempts.
#[derive(Debug)]
pub struct EnemySpawnQueue {
    pending: VecDeque<EnemyArchetype>,
    random: Stream,
}

impl EnemySpawnQueue {
    /// The requests in their order.
    pub closed spec fn requests(&self) -> Seq<ArchetypeView> {
        archetype_views(self.pending@)
    }

    /// The seed the stream goes on from.
    pub closed spec fn seed(&self) -> u64 {
        self.random@
    }

    /// An empty queue on a reproducible stream.
    pub fn with_seed(seed: u64) -> (queue: Self)
        ensures
            queue.requests() == Seq::<ArchetypeView>::empty(),
            queue.seed() == seed,
    {
        let queue = EnemySpawnQueue { pending: VecDeque::new(), random: Stream::with_seed(seed) };
        assert(queue.requests() =~= Seq::<ArchetypeView>::empty());
        queue
    }

    /// How many requests wait.
    pub fn len(&self) -> (count: usize)
        ensures
            count == self.requests().len(),
    {
        self.pending.len()
    }

    /// Inspect one queued type definition without changing the order.
    pub fn pending(&self, index: usize) -> (found: Option<&EnemyArchetype>)
        ensures
            match found {
                Some(request) => index < self.requests().len() && request@
                    == self.requests()[index as int],
                None => index >= self.requests().len(),
            },
    {
        if index < self.pending.len() {
            Some(&self.pending[index])
        } else {
            None
        }
    }

    /// Add a request behind the others.
    pub fn push(&mut self, request: EnemyArchetype)
        ensures
            final(self).requests() == old(self).requests().push(request@),
            final(self).seed() == old(self).seed(),
    {
        let ghost before = self.pending@;
        self.pending.push_back(request);
        assert(self.requests() =~= archetype_views(before).push(request@));
    }

    /// Discard requests from a finished game while preserving the stream.
    pub fn clear(&mut self)
        ensures
            final(self).requests() == Seq::<ArchetypeView>::empty(),
            final(self).seed() == old(self).seed(),
    {
        self.pending.clear();
        assert(self.requests() =~= Seq::<ArchetypeView>::empty());
    }

    /// Go on drawing from another place of the stream, after something else
    /// drew from it.
    pub fn resume(&mut self, random: Stream)
        ensures
            final(self).requests() == old(self).requests(),
            final(self).seed() == random@,
    {
        self.random = random;
    }

    /// The stream, for something else to draw from.
    pub fn stream(&self) -> (random: Stream)
        ensures
            random@ == self.seed(),
    {
        self.random
    }

    /// Drop the requests the population no longer needs, then draw types until
    /// it has as many as it may place.
    ///
    /// Selection is a phase of its own: a failed placement retains the chosen
    /// type and its exact settings, and changing the catalog only affects
    /// future choices. Without anyone to hunt, nothing is drawn.
    pub fn select(&mut self, population: &EnemyPopulation, enemies: usize, hunted: bool)
        ensures
            (final(self).requests(), final(self).seed()) == selection(
                *old(self),
                *population,
                enemies,
                hunted,
            ),
            final(self).requests().len() <= wanted(*population, enemies),
            forall|i: int|
                #![trigger final(self).requests()[i]]
                old(self).requests().len() <= i < final(self).requests().len() ==> {
                    let types = archetype_views(population.types@);
                    let total = total_weight(types) as u64;
                    let draw = (i - old(self).requests().len()) as nat;
                    let ticket = fastrand_u64(draw_seed(old(self).seed(), total, draw), total).0;
                    exists|index: int|
                        {
                            &&& 0 <= index < types.len()
                            &&& final(self).requests()[i] == #[trigger] types[index]
                            &&& weight_before(types, index) <= ticket < weight_before(types, index)
                                + types[index].weight
                        }
                },
    {
        proof {
            law_selection_stays_wanted(*self, *population, enemies, hunted);
        }
        let deficit: usize = population.target_count.saturating_sub(enemies);
        let limit: usize = if deficit < population.budget_per_frame {
            deficit
        } else {
            population.budget_per_frame
        };
        let ghost before = self.requests();
        self.pending.truncate(limit);
        let ghost kept = if before.len() > limit {
            before.take(limit as int)
        } else {
            before
        };
        assert(self.requests() =~= kept);
        if !hunted {
            return;
        }
        let ghost views = archetype_views(population.types@);
        let ghost start = self.seed();
        let total: u64 = sum_weights(population.types.as_slice());
        while self.pending.len() < limit && total > 0
            invariant
                views == archetype_views(population.types@),
                total == total_weight(views),
                kept.len() <= self.requests().len(),
                self.seed() == draw_seed(start, total, (self.requests().len() - kept.len()) as nat),
                forall|draw: nat|
                    draw < self.requests().len() - kept.len() ==> (#[trigger] fastrand_u64(
                        draw_seed(start, total, draw),
                        total,
                    )).0 < total,
                selected(views, kept, start, limit as nat) == selected(
                    views,
                    self.requests(),
                    self.seed(),
                    limit as nat,
                ),
            decreases limit - self.requests().len(),
        {
            let ghost earlier = self.pending@;
            proof {
                lemma_draw_seed(start, total, (self.requests().len() - kept.len()) as nat);
            }
            let ticket: u64 = self.random.below(total);
            match pick(population.types.as_slice(), ticket) {
                Some(index) => {
                    proof {
                        let chosen = choose|index: int| wins(views, ticket as int, index);
                        law_tickets_are_shared_out(views, ticket as int, index as int, chosen);
                    }
                    let request: EnemyArchetype = population.types[index].snapshot();
                    let ghost said = request@;
                    self.pending.push_back(request);
                    assert(self.requests() =~= archetype_views(earlier).push(said));
                },
                None => {
                    proof {
                        assert(false);
                    }
                },
            }
        }
        proof {
            assert forall|i: int|
                #![trigger self.requests()[i]]
                before.len() <= i < self.requests().len() implies {
                let draw = (i - before.len()) as nat;
                let ticket = fastrand_u64(draw_seed(start, total, draw), total).0;
                exists|index: int|
                    {
                        &&& 0 <= index < views.len()
                        &&& self.requests()[i] == #[trigger] views[index]
                        &&& weight_before(views, index) <= ticket < weight_before(views, index)
                            + views[index].weight
                    }
            } by {
                law_requests_follow_their_draws(views, kept, start, limit as nat, i);
            }
        }
    }

    /// Take the request in front.
    pub fn take_first(&mut self) -> (request: Option<EnemyArchetype>)
        ensures
            final(self).seed() == old(self).seed(),
            match request {
                Some(first) => old(self).requests().len() > 0 && first@ == old(
                    self,
                ).requests()[0] && final(self).requests() == old(self).requests().skip(1),
                None => old(self).requests().len() == 0 && final(self).requests() == old(
                    self,
                ).requests(),
            },
    {
        let ghost before = self.pending@;
        let request = self.pending.pop_front();
        proof {
            if request is Some {
                assert(self.requests() =~= archetype_views(before).skip(1));
            } else {
                assert(self.requests() =~= archetype_views(before));
            }
        }
        request
    }

    fn put_back(&mut self, request: EnemyArchetype, front: bool)
        ensures
            final(self).seed() == old(self).seed(),
            final(self).requests() == if front {
                seq![request@] + old(self).requests()
            } else {
                old(self).requests().push(request@)
            },
    {
        let ghost before = self.pending@;
        let ghost said = request@;
        if front {
            self.pending.push_front(request);
            assert(self.requests() =~= seq![said] + archetype_views(before));
        } else {
            self.pending.push_back(request);
            assert(self.requests() =~= archetype_views(before).push(said));
        }
    }
}

/// The requests of a queue and the seed of its stream after the population has
/// chosen: what it no longer needs is dropped from the back, and while there is
/// someone to hunt, types are drawn until it has as many as it may place.
pub open spec fn selection(
    queue: EnemySpawnQueue,
    population: EnemyPopulation,
    enemies: usize,
    hunted: bool,
) -> (Seq<ArchetypeView>, u64) {
    let limit = wanted(population, enemies);
    let kept = if queue.requests().len() > limit {
        queue.requests().take(limit as int)
    } else {
        queue.requests()
    };
    if hunted {
        selected(archetype_views(population.types@), kept, queue.seed(), limit)
    } else {
        (kept, queue.seed())
    }
}

proof fn lemma_selected(
    types: Seq<ArchetypeView>,
    pending: Seq<ArchetypeView>,
    seed: u64,
    limit: nat,
)
    requires
        pending.len() <= limit,
    ensures
        pending.len() <= selected(types, pending, seed, limit).0.len() <= limit,
        selected(types, pending, seed, limit).0.take(pending.len() as int) == pending,
    decreases limit - pending.len(),
{
    if pending.len() >= limit || total_weight(types) == 0 {
        assert(pending.take(pending.len() as int) =~= pending);
    } else {
        let (ticket, next) = fastrand_u64(seed, total_weight(types) as u64);
        let more = pending.push(winner(types, ticket as int));
        lemma_selected(types, more, next, limit);
        let all = selected(types, more, next, limit).0;
        assert(all.take(pending.len() as int) =~= all.take(more.len() as int).take(
            pending.len() as int,
        ));
        assert(more.take(pending.len() as int) =~= pending);
    }
}

/// The population never asks for more than it wants, and a request that was
/// chosen earlier and is still wanted is kept as it was, in its place, whatever
/// has become of the catalog.
pub proof fn law_selection_stays_wanted(
    queue: EnemySpawnQueue,
    population: EnemyPopulation,
    enemies: usize,
    hunted: bool,
)
    ensures
        ({
            let chosen = selection(queue, population, enemies, hunted).0;
            let limit = wanted(population, enemies);
            &&& chosen.len() <= limit
            &&& queue.requests().len() <= limit ==> queue.requests().len() <= chosen.len()
                && chosen.take(queue.requests().len() as int) == queue.requests()
            &&& queue.requests().len() >= limit ==> chosen == queue.requests().take(limit as int)
        }),
{
    let limit = wanted(population, enemies);
    let kept = if queue.requests().len() > limit {
        queue.requests().take(limit as int)
    } else {
        queue.requests()
    };
    lemma_selected(archetype_views(population.types@), kept, queue.seed(), limit);
    assert(queue.requests().take(queue.requests().len() as int) =~= queue.requests());
}

/// How many requests the population may have this update.
pub open spec fn wanted(population: EnemyPopulation, enemies: usize) -> nat {
    let deficit = if population.target_count > enemies {
        population.target_count - enemies
    } else {
        0
    };
    if deficit < population.budget_per_frame {
        deficit as nat
    } else {
        population.budget_per_frame as nat
    }
}

/// A round of requests: those that wait, how many of them are still to be
/// tried, and the target whose opening slot is free.
#[verifier::ext_equal]
pub struct Round {
    pub waiting: Seq<ArchetypeView>,
    pub left: nat,
    pub opening: Option<u64>,
}

impl Round {
    /// There is a request to try.
    pub open spec fn trying(self) -> bool {
        self.left > 0 && self.waiting.len() > 0
    }

    /// The round after the request in front was placed or not.
    ///
    /// A request that is placed takes the opening slot if there is one. One
    /// that is not goes to the back; but while there is an opening slot it
    /// stays in front, and the round ends, rather than giving the slot to an
    /// easier type.
    pub open spec fn step(self, placed: bool) -> Round {
        if !self.trying() {
            self
        } else if placed {
            Round {
                waiting: self.waiting.skip(1),
                left: (self.left - 1) as nat,
                opening: None,
            }
        } else if self.opening is Some {
            Round { left: 0, ..self }
        } else {
            Round {
                waiting: self.waiting.skip(1).push(self.waiting[0]),
                left: (self.left - 1) as nat,
                opening: None,
            }
        }
    }

    /// The round after these outcomes, one per request tried.
    pub open spec fn after(self, outcomes: Seq<bool>) -> Round
        decreases outcomes.len(),
    {
        if outcomes.len() == 0 {
            self
        } else {
            self.after(outcomes.drop_last()).step(outcomes.last())
        }
    }

    /// The requests these outcomes placed.
    pub open spec fn placed(self, outcomes: Seq<bool>) -> Seq<ArchetypeView>
        decreases outcomes.len(),
    {
        if outcomes.len() == 0 {
            Seq::empty()
        } else {
            let before = self.after(outcomes.drop_last());
            let earlier = self.placed(outcomes.drop_last());
            if before.trying() && outcomes.last() {
                earlier.push(before.waiting[0])
            } else {
                earlier
            }
        }
    }
}

proof fn lemma_moved_to_the_back(waiting: Seq<ArchetypeView>)
    requires
        waiting.len() > 0,
    ensures
        waiting.to_multiset() == waiting.skip(1).to_multiset().insert(waiting[0]),
        waiting.skip(1).push(waiting[0]).to_multiset() == waiting.to_multiset(),
{
    broadcast use vstd::seq_lib::group_to_multiset_ensures;

    let first = waiting[0];
    let others = waiting.skip(1);
    assert(others.insert(0, first) =~= waiting);
    vstd::seq_lib::to_multiset_insert(others, 0, first);
}

/// Nothing is lost in a round: every request either was placed or still waits.
pub proof fn law_requests_are_conserved(round: Round, outcomes: Seq<bool>)
    ensures
        round.after(outcomes).waiting.to_multiset().add(
            round.placed(outcomes).to_multiset(),
        ) == round.waiting.to_multiset(),
    decreases outcomes.len(),
{
    broadcast use vstd::seq_lib::group_to_multiset_ensures;

    if outcomes.len() == 0 {
        assert(round.waiting.to_multiset().add(
            Seq::<ArchetypeView>::empty().to_multiset(),
        ) =~= round.waiting.to_multiset()) by {
            assert(Seq::<ArchetypeView>::empty().to_multiset().len() == 0);
        }
    } else {
        let shorter = outcomes.drop_last();
        law_requests_are_conserved(round, shorter);
        let before = round.after(shorter);
        let earlier = round.placed(shorter);
        if before.trying() {
            lemma_moved_to_the_back(before.waiting);
            if outcomes.last() {
                assert(round.after(outcomes).waiting.to_multiset().add(
                    round.placed(outcomes).to_multiset(),
                ) =~= before.waiting.to_multiset().add(earlier.to_multiset()));
            }
        }
    }
}

/// What was placed and what still waits are together as many as waited before.
pub proof fn law_requests_are_counted(round: Round, outcomes: Seq<bool>)
    ensures
        round.after(outcomes).waiting.len() + round.placed(outcomes).len() == round.waiting.len(),
    decreases outcomes.len(),
{
    if outcomes.len() > 0 {
        law_requests_are_counted(round, outcomes.drop_last());
    }
}

/// A replenished population stays within what it wants: what a round over the
/// chosen requests places and what it leaves waiting are together no more.
pub proof fn law_population_stays_wanted(
    queue: EnemySpawnQueue,
    population: EnemyPopulation,
    enemies: usize,
    hunted: bool,
    round: Round,
    outcomes: Seq<bool>,
)
    requires
        round.waiting == selection(queue, population, enemies, hunted).0,
    ensures
        round.placed(outcomes).len() + round.after(outcomes).waiting.len() <= wanted(
            population,
            enemies,
        ),
        enemies + round.placed(outcomes).len() <= if population.target_count > enemies {
            population.target_count
        } else {
            enemies
        },
{
    law_selection_stays_wanted(queue, population, enemies, hunted);
    law_requests_are_counted(round, outcomes);
}

proof fn lemma_failures_rotate(round: Round, outcomes: Seq<bool>)
    requires
        round.opening is None,
        round.left == round.waiting.len(),
        outcomes.len() <= round.waiting.len(),
        forall|i: int| 0 <= i < outcomes.len() ==> !(#[trigger] outcomes[i]),
    ensures
        round.after(outcomes) == (Round {
            waiting: round.waiting.skip(outcomes.len() as int) + round.waiting.take(
                outcomes.len() as int,
            ),
            left: (round.left - outcomes.len()) as nat,
            opening: None,
        }),
        round.placed(outcomes).len() == 0,
    decreases outcomes.len(),
{
    let tried = outcomes.len() as int;
    if tried == 0 {
        assert(round.waiting.skip(0) + round.waiting.take(0) =~= round.waiting);
    } else {
        let shorter = outcomes.drop_last();
        assert forall|i: int| 0 <= i < shorter.len() implies !(#[trigger] shorter[i]) by {
            assert(shorter[i] == outcomes[i]);
        }
        lemma_failures_rotate(round, shorter);
        let before = round.after(shorter);
        assert(before.waiting[0] == round.waiting[tried - 1]);
        assert(!outcomes.last());
        assert(before.waiting.skip(1).push(before.waiting[0]) =~= round.waiting.skip(tried)
            + round.waiting.take(tried));
    }
}

/// A round in which nothing can be placed leaves every request as it was, in the
/// same order.
pub proof fn law_failed_rounds_change_nothing(round: Round, outcomes: Seq<bool>)
    requires
        round.opening is None,
        round.left == round.waiting.len(),
        outcomes.len() == round.waiting.len(),
        forall|i: int| 0 <= i < outcomes.len() ==> !(#[trigger] outcomes[i]),
    ensures
        round.after(outcomes) == (Round { left: 0, ..round }),
        round.placed(outcomes).len() == 0,
{
    lemma_failures_rotate(round, outcomes);
    assert(round.waiting.skip(outcomes.len() as int) + round.waiting.take(outcomes.len() as int)
        =~= round.waiting);
}

/// A failed opening placement ends the round with every request where it was.
pub proof fn law_failed_opening_keeps_its_request(round: Round, outcomes: Seq<bool>)
    requires
        round.trying(),
        round.opening is Some,
        outcomes.len() > 0,
        !outcomes[0],
    ensures
        round.after(outcomes) == (Round { left: 0, ..round }),
        round.placed(outcomes).len() == 0,
    decreases outcomes.len(),
{
    let shorter = outcomes.drop_last();
    if outcomes.len() == 1 {
        assert(shorter =~= Seq::<bool>::empty());
        assert(round.placed(shorter) == Seq::<ArchetypeView>::empty());
        assert(!outcomes.last());
    } else {
        assert(shorter[0] == outcomes[0]);
        law_failed_opening_keeps_its_request(round, shorter);
        assert(!round.after(shorter).trying());
    }
}

/// The opening slot is given away at most once.
pub proof fn law_one_opening(round: Round, outcomes: Seq<bool>)
    ensures
        round.placed(outcomes).len() > 0 ==> round.after(outcomes).opening is None,
    decreases outcomes.len(),
{
    if outcomes.len() > 0 {
        law_one_opening(round, outcomes.drop_last());
    }
}

/// The lowest of these identities, or none where there is none.
pub open spec fn is_lowest(edges: Seq<u64>, lowest: Option<u64>) -> bool {
    match lowest {
        Some(target) => edges.contains(target) && forall|i: int|
            0 <= i < edges.len() ==> target <= #[trigger] edges[i],
        None => edges.len() == 0,
    }
}

/// The target whose opening request is served: of several the lowest identity.
pub fn opening_target(edges: &[u64]) -> (opening: Option<u64>)
    ensures
        is_lowest(edges@, opening),
{
    let mut opening: Option<u64> = None;
    let mut index: usize = 0;
    while index < edges.len()
        invariant
            index <= edges@.len(),
            match opening {
                Some(target) => (exists|i: int| 0 <= i < index && edges@[i] == target)
                    && forall|i: int| 0 <= i < index ==> target <= #[trigger] edges@[i],
                None => index == 0,
            },
        decreases edges@.len() - index,
    {
        let candidate: u64 = edges[index];
        let lower: bool = match opening {
            Some(target) => candidate < target,
            None => true,
        };
        if lower {
            opening = Some(candidate);
        }
        index = index + 1;
    }
    opening
}

/// Begin to replenish the enemies: choose the types that are wanted, and start a
/// round over every request that waits.
///
/// Without anyone to hunt, without bounds to place anything in, or without a
/// request, there is no round, and nothing is placed. Of several targets that
/// ask for an opening enemy the one with the lowest identity is served.
pub fn replenish_enemies(
    queue: &mut EnemySpawnQueue,
    population: &EnemyPopulation,
    enemies: usize,
    hunted: bool,
    bounds: Option<Vec2>,
    edges: &[u64],
) -> (begun: Option<(Replenishing, Vec2)>)
    ensures
        (final(queue).requests(), final(queue).seed()) == selection(
            *old(queue),
            *population,
            enemies,
            hunted,
        ),
        final(queue).requests().len() <= wanted(*population, enemies),
        match begun {
            Some((round, place)) => {
                &&& hunted && bounds == Some(place) && final(queue).requests().len() > 0
                &&& round.round(*final(queue)).left == final(queue).requests().len()
                &&& is_lowest(edges@, round.round(*final(queue)).opening)
            },
            None => !hunted || bounds is None || final(queue).requests().len() == 0,
        },
{
    queue.select(population, enemies, hunted);
    if !hunted || queue.len() == 0 {
        return None;
    }
    match bounds {
        None => None,
        Some(place) => Some((Replenishing::begin(queue, opening_target(edges)), place)),
    }
}

/// A request that was placed, and the target whose opening slot it took.
#[derive(Debug)]
pub struct Placement {
    pub request: EnemyArchetype,
    pub opened: Option<u64>,
}

/// One round over the requests of a queue, tried one after the other.
#[derive(Clone, Copy, Debug, PartialEq, Eq, Structural)]
pub struct Replenishing {
    left: usize,
    opening: Option<u64>,
}

impl Replenishing {
    /// How many requests are still to be tried.
    pub closed spec fn remaining(&self) -> nat {
        self.left as nat
    }

    /// The target whose opening slot is free.
    pub closed spec fn slot(&self) -> Option<u64> {
        self.opening
    }

    /// The round as it stands, on that queue.
    pub open spec fn round(&self, queue: EnemySpawnQueue) -> Round {
        Round { waiting: queue.requests(), left: self.remaining(), opening: self.slot() }
    }

    /// Begin a round over every request that waits now.
    pub fn begin(queue: &EnemySpawnQueue, opening: Option<u64>) -> (begun: Self)
        ensures
            begun.round(*queue) == (Round {
                waiting: queue.requests(),
                left: queue.requests().len(),
                opening,
            }),
    {
        Replenishing { left: queue.len(), opening }
    }

    /// The target the next request opens for, if it does.
    pub fn opening(&self, queue: &EnemySpawnQueue) -> (opening: Option<u64>)
        ensures
            opening == self.round(*queue).opening,
    {
        self.opening
    }

    /// The request that is to be tried next.
    pub fn next<'a>(&self, queue: &'a EnemySpawnQueue) -> (request: Option<&'a EnemyArchetype>)
        ensures
            match request {
                Some(first) => self.round(*queue).trying() && first@ == queue.requests()[0],
                None => !self.round(*queue).trying(),
            },
    {
        if self.left == 0 {
            None
        } else {
            queue.pending(0)
        }
    }

    /// Settle the request that was tried: hand it out where it was placed, or
    /// keep it for later.
    pub fn settle(&mut self, queue: &mut EnemySpawnQueue, placed: bool) -> (placement: Option<
        Placement,
    >)
        ensures
            final(self).round(*final(queue)) == old(self).round(*old(queue)).step(placed),
            final(queue).requests() == old(self).round(*old(queue)).step(placed).waiting,
            final(queue).seed() == old(queue).seed(),
            match placement {
                Some(done) => {
                    &&& placed && old(self).round(*old(queue)).trying()
                    &&& done.request@ == old(queue).requests()[0]
                    &&& done.opened == old(self).round(*old(queue)).opening
                },
                None => !placed || !old(self).round(*old(queue)).trying(),
            },
    {
        if self.left == 0 {
            return None;
        }
        let ghost waiting = queue.requests();
        match queue.take_first() {
            None => None,
            Some(request) => {
                if placed {
                    let opened: Option<u64> = self.opening;
                    self.opening = None;
                    self.left = self.left - 1;
                    Some(Placement { request, opened })
                } else if self.opening.is_some() {
                    // Keep this exact type in front rather than retrying the
                    // opening placement with an easier one.
                    queue.put_back(request, true);
                    assert(seq![waiting[0]] + waiting.skip(1) =~= waiting);
                    self.left = 0;
                    None
                } else {
                    queue.put_back(request, false);
                    self.left = self.left - 1;
                    None
                }
            },
        }
    }
}

/// Where an enemy that opens for a target is placed: on the perimeter of a
/// window of that half width around it.
#[derive(Clone, Copy, Debug, PartialEq, Eq, Structural)]
pub struct Opening {
    pub target: Vec2,
    pub half: u32,
}

impl Opening {
    /// The window lies inside the world.
    pub open spec fn sound(self, bounds: Vec2) -> bool {
        &&& self.target.finite()
        &&& positive(self.half)
        &&& !nan(bounds.x) && scaled(bounds.x) > scaled(self.half)
        &&& !nan(bounds.y) && scaled(bounds.y) > scaled(self.half)
    }

    fn is_sound(self, bounds: Vec2) -> (result: bool)
        ensures
            result == self.sound(bounds),
    {
        self.target.is_finite() && is_positive(self.half) && less(self.half, bounds.x) && less(
            self.half,
            bounds.y,
        )
    }
}

/// A place on the perimeter of a window, relative to its center: so far along
/// one of its four sides.
pub fn perimeter_offset(side: u8, along: u32, half: u32) -> (offset: Vec2)
    ensures
        offset == if side == 0 {
            Vec2 { x: negated(half), y: along }
        } else if side == 1 {
            Vec2 { x: half, y: along }
        } else if side == 2 {
            Vec2 { x: along, y: negated(half) }
        } else {
            Vec2 { x: along, y: half }
        },
{
    match side {
        0 => Vec2 { x: negate(half), y: along },
        1 => Vec2 { x: half, y: along },
        2 => Vec2 { x: along, y: negate(half) },
        _ => Vec2 { x: along, y: half },
    }
}

/// A type that could stand somewhere in the world at all.
pub open spec fn placeable(
    request: ArchetypeView,
    bounds: Vec2,
    margin: u32,
    opening: Option<Opening>,
) -> bool {
    &&& request.settings.valid()
    &&& request.collider.valid()
    &&& fits(bounds, request.collider)
    &&& usable(margin)
    &&& match opening {
        Some(window) => window.sound(bounds),
        None => true,
    }
}

/// What is measured of one target at a candidate position.
#[derive(Clone, Copy, Debug, PartialEq, Eq, Structural)]
pub struct Clearance {
    /// How far away the target is, by the shorter route.
    pub distance: u32,
    /// Whether the hitboxes would be in contact.
    pub touching: bool,
}

impl Clearance {
    /// Far enough away, or needing no distance, and not in contact.
    pub open spec fn clear(self, opening: bool, exclusion: u32) -> bool {
        &&& opening || (!nan(self.distance) && !nan(exclusion) && scaled(self.distance) > scaled(
            exclusion,
        ))
        &&& !self.touching
    }

    fn is_clear(self, opening: bool, exclusion: u32) -> (result: bool)
        ensures
            result == self.clear(opening, exclusion),
    {
        (opening || less(exclusion, self.distance)) && !self.touching
    }
}

/// The search for a place for one request.
#[derive(Clone, Copy, Debug, PartialEq, Eq, Structural)]
pub struct Search {
    attempts: u16,
    opening: bool,
    reach: u32,
}

impl Search {
    /// How many candidates may still be tested.
    pub closed spec fn attempts_left(self) -> u16 {
        self.attempts
    }

    /// Whether candidates lie on a window's perimeter.
    pub closed spec fn opens(self) -> bool {
        self.opening
    }

    /// How far from its target an opener may stand.
    pub closed spec fn sees_to(self) -> u32 {
        self.reach
    }

    /// Begin the search, unless the type could stand nowhere.
    pub fn begin(
        request: &EnemyArchetype,
        bounds: Vec2,
        population: &EnemyPopulation,
        opening: Option<Opening>,
    ) -> (search: Option<Search>)
        ensures
            match search {
                Some(begun) => {
                    &&& placeable(request@, bounds, population.detection_margin, opening)
                    &&& begun.attempts_left() == population.placement_attempts
                    &&& begun.opens() == (opening is Some)
                    &&& begun.sees_to() == request.settings.detection_range
                },
                None => !placeable(request@, bounds, population.detection_margin, opening),
            },
    {
        if !request.settings.is_valid() || !request.collider.is_valid() || !fits_world(
            bounds,
            request.collider,
        ) || !is_usable(population.detection_margin) {
            return None;
        }
        if let Some(window) = opening {
            if !window.is_sound(bounds) {
                return None;
            }
        }
        Some(
            Search {
                attempts: population.placement_attempts,
                opening: opening.is_some(),
                reach: request.settings.detection_range,
            },
        )
    }

    /// Spend one attempt, if there is one left.
    pub fn attempt(&mut self) -> (granted: bool)
        ensures
            granted == (old(self).attempts_left() > 0),
            final(self).attempts_left() == if granted {
                (old(self).attempts_left() - 1) as u16
            } else {
                0
            },
            final(self).opens() == old(self).opens(),
            final(self).sees_to() == old(self).sees_to(),
    {
        if self.attempts == 0 {
            return false;
        }
        self.attempts = self.attempts - 1;
        true
    }

    /// Whether an enemy may stand at a candidate position.
    ///
    /// An opener must be able to acquire its target under normal rules, so it
    /// stands no further from it than it can see; any other enemy keeps beyond
    /// the exclusion distance from every target. Neither touches a target or
    /// another enemy.
    pub fn accepts(
        &self,
        offset_length: u32,
        exclusion: u32,
        targets: &[Clearance],
        occupied: &[bool],
    ) -> (accepted: bool)
        ensures
            accepted == {
                &&& self.opens() ==> nan(offset_length) || nan(self.sees_to()) || scaled(
                    offset_length,
                ) <= scaled(self.sees_to())
                &&& forall|i: int|
                    0 <= i < targets@.len() ==> (#[trigger] targets@[i]).clear(
                        self.opens(),
                        exclusion,
                    )
                &&& forall|i: int| 0 <= i < occupied@.len() ==> !#[trigger] occupied@[i]
            },
    {
        if self.opening && less(self.reach, offset_length) {
            return false;
        }
        let mut index: usize = 0;
        while index < targets.len()
            invariant
                index <= targets@.len(),
                forall|i: int|
                    0 <= i < index ==> (#[trigger] targets@[i]).clear(self.opens(), exclusion),
            decreases targets@.len() - index,
        {
            if !targets[index].is_clear(self.opening, exclusion) {
                assert(!targets@[index as int].clear(self.opens(), exclusion));
                return false;
            }
            index = index + 1;
        }
        let mut at: usize = 0;
        while at < occupied.len()
            invariant
                at <= occupied@.len(),
                forall|i: int| 0 <= i < at ==> !#[trigger] occupied@[i],
            decreases occupied@.len() - at,
        {
            if occupied[at] {
                assert(occupied@[at as int]);
                return false;
            }
            at = at + 1;
        }
        true
    }
}

/// The seed a stream goes on from after so many draws below a bound.
pub open spec fn draw_seed(seed: u64, bound: u64, draws: nat) -> u64
    decreases draws,
{
    if draws == 0 {
        seed
    } else {
        draw_seed(fastrand_u64(seed, bound).1, bound, (draws - 1) as nat)
    }
}

proof fn lemma_draw_seed(seed: u64, bound: u64, draws: nat)
    ensures
        draw_seed(seed, bound, draws + 1) == fastrand_u64(draw_seed(seed, bound, draws), bound).1,
    decreases draws,
{
    if draws == 0 {
        let next = fastrand_u64(seed, bound).1;
        assert(draw_seed(seed, bound, 1) == draw_seed(next, bound, 0));
    } else {
        lemma_draw_seed(fastrand_u64(seed, bound).1, bound, (draws - 1) as nat);
    }
}

/// Every request that is added is the type whose share of the weights holds the
/// number drawn for it: the first new request answers the first draw, the second
/// the second, and none of them ignores its draw. A draw is below the weights'
/// total; what was pending before stays in front.
pub proof fn law_requests_follow_their_draws(
    types: Seq<ArchetypeView>,
    pending: Seq<ArchetypeView>,
    seed: u64,
    limit: nat,
    i: int,
)
    requires
        pending.len() <= i < limit,
        total_weight(types) > 0,
        fastrand_u64(
            draw_seed(seed, total_weight(types) as u64, (i - pending.len()) as nat),
            total_weight(types) as u64,
        ).0 < total_weight(types),
    ensures
        ({
            let total = total_weight(types) as u64;
            let (requests, after) = selected(types, pending, seed, limit);
            let ticket = fastrand_u64(
                draw_seed(seed, total, (i - pending.len()) as nat),
                total,
            ).0;
            &&& requests.len() == limit
            &&& requests.take(pending.len() as int) == pending
            &&& after == draw_seed(seed, total, (limit - pending.len()) as nat)
            &&& exists|index: int|
                {
                    &&& 0 <= index < types.len()
                    &&& requests[i] == #[trigger] types[index]
                    &&& weight_before(types, index) <= ticket < weight_before(types, index)
                        + types[index].weight
                }
        }),
    decreases limit - pending.len(),
{
    let total = total_weight(types) as u64;
    let (ticket, next) = fastrand_u64(seed, total);
    let more = pending.push(winner(types, ticket as int));
    let requests = selected(types, pending, seed, limit).0;
    lemma_selected(types, pending, seed, limit);
    lemma_selected(types, more, next, limit);
    lemma_selected_fills(types, pending, seed, limit);
    if i == pending.len() {
        assert(draw_seed(seed, total, 0) == seed);
        let index = law_every_ticket_wins(types, ticket as int);
        let chosen = choose|index: int| wins(types, ticket as int, index);
        law_tickets_are_shared_out(types, ticket as int, index, chosen);
        assert(requests.take(more.len() as int)[i] == more[i]);
        assert(requests[i] == types[index]);
    } else {
        law_requests_follow_their_draws(types, more, next, limit, i);
    }
}

proof fn lemma_selected_fills(
    types: Seq<ArchetypeView>,
    pending: Seq<ArchetypeView>,
    seed: u64,
    limit: nat,
)
    requires
        pending.len() <= limit,
        total_weight(types) > 0,
    ensures
        selected(types, pending, seed, limit).0.len() == limit,
        selected(types, pending, seed, limit).1 == draw_seed(
            seed,
            total_weight(types) as u64,
            (limit - pending.len()) as nat,
        ),
    decreases limit - pending.len(),
{
    if pending.len() < limit {
        let (ticket, next) = fastrand_u64(seed, total_weight(types) as u64);
        lemma_selected_fills(types, pending.push(winner(types, ticket as int)), next, limit);
    }
}

/// While there is someone to hunt and a type that may be drawn, the population
/// gets every request it may have; otherwise nothing is drawn, and the stream
/// stands where it stood.
pub proof fn law_selection_fills_up(
    queue: EnemySpawnQueue,
    population: EnemyPopulation,
    enemies: usize,
    hunted: bool,
)
    ensures
        ({
            let types = archetype_views(population.types@);
            let (chosen, seed) = selection(queue, population, enemies, hunted);
            let limit = wanted(population, enemies);
            &&& hunted && total_weight(types) > 0 ==> chosen.len() == limit
            &&& !hunted || total_weight(types) == 0 || queue.requests().len() >= limit ==> {
                &&& seed == queue.seed()
                &&& chosen.len() == if queue.requests().len() < limit {
                    queue.requests().len()
                } else {
                    limit
                }
                &&& forall|k: int|
                    0 <= k < chosen.len() ==> #[trigger] chosen[k] == queue.requests()[k]
            }
        }),
{
    let types = archetype_views(population.types@);
    let limit = wanted(population, enemies);
    let kept = if queue.requests().len() > limit {
        queue.requests().take(limit as int)
    } else {
        queue.requests()
    };
    if total_weight(types) > 0 {
        lemma_selected_fills(types, kept, queue.seed(), limit);
    } else {
        lemma_weights_increase(types, 0, types.len() as int);
    }
}

/// The population wants as many requests as it lacks enemies, up to its budget:
/// never more than either, and no fewer than both.
pub proof fn law_what_is_wanted(population: EnemyPopulation, enemies: usize)
    ensures
        wanted(population, enemies) <= population.budget_per_frame,
        enemies <= population.target_count ==> enemies + wanted(population, enemies)
            <= population.target_count,
        enemies >= population.target_count ==> wanted(population, enemies) == 0,
        enemies < population.target_count ==> wanted(population, enemies)
            == population.budget_per_frame || enemies + wanted(population, enemies)
            == population.target_count,
{
}

proof fn lemma_weights_fold(types: Seq<ArchetypeView>, count: int)
    requires
        0 <= count <= types.len(),
    ensures
        weight_before(types, count) == types.take(count).fold_left(
            0,
            |sum: int, item: ArchetypeView| sum + item.weight,
        ),
    decreases count,
{
    let add_one = |sum: int, item: ArchetypeView| sum + item.weight;
    reveal_with_fuel(Seq::fold_left, 2);
    if count > 0 {
        lemma_weights_fold(types, count - 1);
        assert(types.take(count).drop_last() =~= types.take(count - 1));
        assert(types.take(count).last() == types[count - 1]);
    }
}

/// The total is the sum of every type's weight, as far as it counts.
pub proof fn law_weights_add_up(types: Seq<ArchetypeView>)
    ensures
        ({
            let sum = types.fold_left(0, |sum: int, item: ArchetypeView| sum + item.weight);
            &&& sum <= u64::MAX ==> total_weight(types) == sum
            &&& sum > u64::MAX ==> total_weight(types) == u64::MAX
        }),
{
    lemma_weights_fold(types, types.len() as int);
    assert(types.take(types.len() as int) =~= types);
}

/// A type owns as many tickets as its weight says, one behind the other, and all
/// of them are below the total: over all tickets each type is as likely as its
/// share of the weights.
pub proof fn law_shares_are_as_large_as_weights(types: Seq<ArchetypeView>, index: int) -> (first:
    int)
    requires
        0 <= index < types.len(),
    ensures
        first == types.take(index).fold_left(
            0,
            |sum: int, item: ArchetypeView| sum + item.weight,
        ),
        first >= 0,
        forall|ticket: int| #[trigger]
            wins(types, ticket, index) <==> first <= ticket < first + types[index].weight,
        first + types[index].weight <= types.fold_left(
            0,
            |sum: int, item: ArchetypeView| sum + item.weight,
        ),
{
    lemma_weights_increase(types, 0, index);
    lemma_weights_increase(types, index + 1, types.len() as int);
    lemma_weights_fold(types, index);
    lemma_weights_fold(types, types.len() as int);
    assert(types.take(types.len() as int) =~= types);
    weight_before(types, index)
}

/// The requests whose trial came out like this, in order.
pub open spec fn tried_with(
    waiting: Seq<ArchetypeView>,
    outcomes: Seq<bool>,
    placed: bool,
) -> Seq<ArchetypeView>
    decreases outcomes.len(),
{
    if outcomes.len() == 0 {
        Seq::empty()
    } else {
        let earlier = tried_with(waiting, outcomes.drop_last(), placed);
        if outcomes.last() == placed {
            earlier.push(waiting[outcomes.len() - 1])
        } else {
            earlier
        }
    }
}

/// A round tries its requests one after the other, each once: those that can be
/// placed are, in their order, and the others wait behind what has not been tried
/// yet, in their order. One success does not end a round, and with no opening slot
/// neither does a failure.
pub proof fn law_rounds_try_every_request(round: Round, outcomes: Seq<bool>)
    requires
        round.left <= round.waiting.len(),
        outcomes.len() <= round.left,
        round.opening is None || outcomes.len() == 0 || outcomes[0],
    ensures
        round.after(outcomes).left == round.left - outcomes.len(),
        round.placed(outcomes) == tried_with(round.waiting, outcomes, true),
        round.after(outcomes).waiting == round.waiting.skip(outcomes.len() as int) + tried_with(
            round.waiting,
            outcomes,
            false,
        ),
        outcomes.len() > 0 ==> round.after(outcomes).opening is None,
    decreases outcomes.len(),
{
    let tried = outcomes.len() as int;
    if tried == 0 {
        assert(round.waiting.skip(0) + Seq::<ArchetypeView>::empty() =~= round.waiting);
    } else {
        let shorter = outcomes.drop_last();
        if shorter.len() > 0 {
            assert(shorter[0] == outcomes[0]);
        }
        law_rounds_try_every_request(round, shorter);
        let before = round.after(shorter);
        let failed = tried_with(round.waiting, shorter, false);
        assert(before.waiting == round.waiting.skip(tried - 1) + failed);
        assert(before.waiting[0] == round.waiting[tried - 1]);
        assert(before.waiting.skip(1) =~= round.waiting.skip(tried) + failed);
        assert(before.waiting.skip(1).push(before.waiting[0]) =~= round.waiting.skip(tried)
            + failed.push(round.waiting[tried - 1]));
    }
}

/// Of the targets that ask for an opening enemy the lowest identity is served,
/// and one is served whenever any asks.
pub proof fn law_the_lowest_target_is_served(edges: Seq<u64>, lowest: Option<u64>)
    requires
        is_lowest(edges, lowest),
    ensures
        lowest is None <==> edges.len() == 0,
        lowest matches Some(target) ==> edges.contains(target) && forall|i: int|
            0 <= i < edges.len() ==> target <= #[trigger] edges[i],
{
}

/// A request of sound tuning whose hitbox fits the world can be placed with every
/// margin that is finite and not below zero; for an opening the window around
/// the target has to lie inside the world as well.
pub proof fn law_sound_requests_can_be_placed(
    request: ArchetypeView,
    bounds: Vec2,
    margin: u32,
    opening: Option<Opening>,
)
    requires
        request.settings.valid(),
        request.collider.valid(),
        finite(bounds.x) && finite(bounds.y),
        scaled(request.collider.half_extents.x) <= scaled(bounds.x),
        scaled(request.collider.half_extents.y) <= scaled(bounds.y),
        finite(margin) && scaled(margin) >= 0,
        opening matches Some(window) ==> {
            &&& finite(window.target.x) && finite(window.target.y)
            &&& finite(window.half) && 0 < scaled(window.half)
            &&& scaled(window.half) < scaled(bounds.x) && scaled(window.half) < scaled(bounds.y)
        },
    ensures
        placeable(request, bounds, margin, opening),
{
    crate::bits::law_patterns_are_sorted(request.collider.half_extents.x);
    crate::bits::law_patterns_are_sorted(request.collider.half_extents.y);
    crate::bits::law_patterns_are_sorted(bounds.x);
    crate::bits::law_patterns_are_sorted(bounds.y);
}

/// Nothing is placed by tuning that is not sound, in a world it does not fit, with
/// a margin that is no distance, or around a window that leaves the world.
pub proof fn law_unsound_requests_are_not_placed(
    request: ArchetypeView,
    bounds: Vec2,
    margin: u32,
    opening: Option<Opening>,
)
    requires
        ({
            ||| !request.settings.valid()
            ||| !request.collider.valid()
            ||| !finite(bounds.x) || !finite(bounds.y)
            ||| scaled(request.collider.half_extents.x) > scaled(bounds.x)
            ||| scaled(request.collider.half_extents.y) > scaled(bounds.y)
            ||| !finite(margin) || scaled(margin) < 0
            ||| opening matches Some(window) && {
                ||| !finite(window.target.x) || !finite(window.target.y)
                ||| !finite(window.half) || scaled(window.half) <= 0
                ||| scaled(window.half) >= scaled(bounds.x)
                ||| scaled(window.half) >= scaled(bounds.y)
            }
        }),
    ensures
        !placeable(request, bounds, margin, opening),
{
}

/// An enemy never stands in contact with a target. Beyond the exclusion distance
/// it may stand, at it or within it only as an opener.
pub proof fn law_clearance_has_one_edge(measured: Clearance, exclusion: u32)
    requires
        !nan(measured.distance),
        !nan(exclusion),
    ensures
        measured.touching ==> !measured.clear(true, exclusion) && !measured.clear(false, exclusion),
        !measured.touching ==> measured.clear(true, exclusion),
        !measured.touching && scaled(measured.distance) > scaled(exclusion) ==> measured.clear(
            false,
            exclusion,
        ),
        scaled(measured.distance) <= scaled(exclusion) ==> !measured.clear(false, exclusion),
{
}

/// The catalog holds every size of every kind, each as often as its kind and its
/// size say; all of them chase, wrap with the world and go at the same speed, see
/// less far than they remember, and have a square hitbox of their size.
pub proof fn law_the_catalog(index: int)
    requires
        0 <= index < 8,
    ensures
        reference_catalog().len() == 8,
        ({
            let item = reference_catalog()[index];
            let size = SIZES@[index % 4];
            &&& item.kind == EnemyKind::Normal <==> index < 4
            &&& index < 4 ==> item.weight == 153 * size.1
            &&& index >= 4 ==> item.weight == 35 * size.1
            &&& item.collider.half_extents.x == size.0 && item.collider.half_extents.y == size.0
            &&& item.collider.enabled
            &&& item.collider.offset.x == 0 && item.collider.offset.y == 0
            &&& item.settings.steering == SteeringMode::Chase
            &&& item.settings.boundary == BoundaryMode::Wrap
            &&& item.settings.speed == default_settings().speed
            &&& item.settings.response == default_settings().response
            &&& item.settings.stop_distance == default_settings().stop_distance
            &&& item.settings.arrival_radius == default_settings().arrival_radius
            &&& item.settings.lookahead_seconds == default_settings().lookahead_seconds
            &&& item.settings.retention_range == 0x44af_0000
            &&& item.settings.detection_range == if index < 4 {
                0x4461_0000u32
            } else {
                0x4489_8000u32
            }
            &&& item.name == if index < 4 {
                "Normal"@
            } else {
                "Kamikaze"@
            }
        }),
{
    let size = SIZES@[index % 4];
    assert(index % 4 == 0 || index % 4 == 1 || index % 4 == 2 || index % 4 == 3);
    assert(size.1 <= 50);
}

/// A round tries a request while it has a turn left and one waits; with neither,
/// nothing changes.
pub proof fn law_rounds_end(round: Round, placed: bool)
    ensures
        round.left > 0 && round.waiting.len() > 0 <==> round.trying(),
        round.left == 0 || round.waiting.len() == 0 ==> round.step(placed) == round,
        round.left > 0 && round.waiting.len() > 0 ==> round.step(placed).left < round.left,
{
}

/// What an archetype, and a list of them, says is what it holds.
pub proof fn law_archetypes_say_what_they_hold(types: Seq<EnemyArchetype>, i: int)
    requires
        0 <= i < types.len(),
    ensures
        archetype_views(types).len() == types.len(),
        archetype_views(types)[i].name == types[i].name@,
        archetype_views(types)[i].kind == types[i].kind,
        archetype_views(types)[i].weight == types[i].weight,
        archetype_views(types)[i].settings == types[i].settings,
        archetype_views(types)[i].collider == types[i].collider,
{
}

} // verus!
