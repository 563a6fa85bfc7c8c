//! Registry of the entities present, who perceives whom, and what each request
//! tells the connections concerned.
//!
//! Every rule (admissible move, view range, cells) comes from the domain
//! modules; this module keeps the shared state and routes the notices. A
//! request returns its notices as deliveries, in the order they are sent.

use vstd::prelude::*;
use crate::character::{Attributes, Character, CharacterId, CharacterView, after_gain, max_health_of};
use crate::damage::{AttackProfile, DefenseProfile, Resistance, damage_of, resolve_attack};
use crate::engagement::{AttackRejection, CombatRule, Engagement, experience_reward};
use crate::experience::ProgressionCurve;
use crate::grid::{CellCoord, Grid, block_of, cell_at, visible_lies_in_block};
use crate::arith::sat_mul_u64;
use crate::movement::{MoveVerdict, MovementRule, allowance};
use crate::position::{Position, dist2, within, distance_is_symmetric};

verus! {

/// Identifier of an entity in the world (the session that controls it).
pub type EntityId = u64;

/// Perception radius, the same for every entity, which makes perception
/// symmetric: if A sees B then B sees A.
pub const VIEW_RADIUS_CM: u32 = 4_000;

/// Attack power before the attributes' contribution.
pub const BASE_ATTACK: u32 = 120;

/// Side of the grid of spawn points.
pub const SPAWN_COLUMNS: i32 = 8;

/// Gap between two spawn points, small enough for the diagonal of the spawn
/// grid to stay within the view radius.
pub const SPAWN_STEP_CM: i32 = 300;

/// Why an attack was refused, as told to the attacker.
#[derive(Debug, Clone, Copy, PartialEq, Eq, Structural)]
pub enum AttackRefusal {
    NoSuchTarget,
    OutOfRange,
    TooSoon,
    AttackerDown,
    TargetDown,
    SelfTarget,
}

/// A notice sent to one connection.
#[derive(Debug, Clone, Copy, PartialEq, Eq, Structural)]
pub enum WorldEvent {
    WorldEntered { entity_id: u64, x: i32, y: i32 },
    EntityAppeared { entity_id: u64, x: i32, y: i32 },
    EntityMoved { entity_id: u64, x: i32, y: i32 },
    EntityVanished { entity_id: u64 },
    MoveRejected { x: i32, y: i32 },
    AttackRefused { reason: AttackRefusal },
    DamageDealt { attacker: u64, target: u64, damage: u32, remaining_health: u32 },
    EntityDied { entity: u64, killer: u64 },
    ExperienceGained { amount: u64, level: u8 },
    EntityRespawned { entity: u64, x: i32, y: i32, health: u32 },
}

/// A notice and the entity whose connection receives it.
#[derive(Debug, Clone, Copy, PartialEq, Eq, Structural)]
pub struct Delivery {
    pub recipient: u64,
    pub event: WorldEvent,
}

/// The refusal told to the attacker for a rejected engagement.
pub fn refusal_of(rejection: AttackRejection) -> (r: AttackRefusal)
    ensures
        r == match rejection {
            AttackRejection::OutOfRange { .. } => AttackRefusal::OutOfRange,
            AttackRejection::TooSoon { .. } => AttackRefusal::TooSoon,
            AttackRejection::AttackerDown => AttackRefusal::AttackerDown,
            AttackRejection::TargetDown => AttackRefusal::TargetDown,
            AttackRejection::SelfTarget => AttackRefusal::SelfTarget,
        },
{
    match rejection {
        AttackRejection::OutOfRange { .. } => AttackRefusal::OutOfRange,
        AttackRejection::TooSoon { .. } => AttackRefusal::TooSoon,
        AttackRejection::AttackerDown => AttackRefusal::AttackerDown,
        AttackRejection::TargetDown => AttackRefusal::TargetDown,
        AttackRejection::SelfTarget => AttackRefusal::SelfTarget,
    }
}

/// Spawn point of an entity: one of 64 points of an 8 x 8 grid with a
/// 300 cm step, chosen by the identifier.
pub open spec fn spawn_at(id: u64) -> Position {
    let index = (id % 64) as int;
    Position { x: ((index % 8) * 300) as i32, y: ((index / 8) * 300) as i32 }
}

/// Spawns are spread on a grid around the origin, so that a wrong visibility
/// computation cannot hide behind everybody standing on the same point.
pub fn spawn_position(id: EntityId) -> (r: Position)
    ensures
        r == spawn_at(id),
{
    let slots: u64 = (SPAWN_COLUMNS * SPAWN_COLUMNS) as u64;
    let index: i32 = (id % slots) as i32;
    Position::new((index % SPAWN_COLUMNS) * SPAWN_STEP_CM, (index / SPAWN_COLUMNS) * SPAWN_STEP_CM)
}

/// Starting attributes of a player.
pub fn starting_attributes() -> (r: Attributes)
    ensures
        r == (Attributes { strength: 10, dexterity: 8, vitality: 10, intellect: 5 }),
{
    Attributes { strength: 10, dexterity: 8, vitality: 10, intellect: 5 }
}

/// Attack power derived from strength, never stored.
pub open spec fn attack_power(a: Attributes) -> int {
    BASE_ATTACK + a.strength * 5
}

/// Armour derived from dexterity, never stored.
pub open spec fn armor_of(a: Attributes) -> int {
    a.dexterity * 10
}

/// What the world knows of an entity.
pub struct Avatar {
    pub position: Position,
    pub rule: MovementRule,
    pub combat: CombatRule,
    pub character: Character,
    /// Entities currently perceived.
    pub visible: Set<u64>,
}

/// Every entity perceives exactly the other entities within the view radius.
pub open spec fn sight_is_exact(w: Map<u64, Avatar>) -> bool {
    forall|a: u64, b: u64|
        w.contains_key(a) ==> (#[trigger] w[a].visible.contains(b) <==> (b != a && w.contains_key(b)
            && within(w[a].position, w[b].position, VIEW_RADIUS_CM as int)))
}


/// The notices owed when entity `s`, now at `w[s].position`, had perceived
/// `before`: appearances and disappearances both ways, and the move itself to
/// those who keep perceiving it.
pub open spec fn refresh_notice(w: Map<u64, Avatar>, s: u64, before: Set<u64>, d: Delivery) -> bool {
    let p = w[s].position;
    if d.recipient == s {
        match d.event {
            WorldEvent::EntityAppeared { entity_id, x, y } => entity_id != s && w.contains_key(entity_id)
                && !before.contains(entity_id) && within(p, w[entity_id].position, VIEW_RADIUS_CM as int)
                && x == w[entity_id].position.x && y == w[entity_id].position.y,
            WorldEvent::EntityVanished { entity_id } => entity_id != s && w.contains_key(entity_id)
                && before.contains(entity_id) && !within(p, w[entity_id].position, VIEW_RADIUS_CM as int),
            _ => false,
        }
    } else {
        let o = d.recipient;
        w.contains_key(o) && match d.event {
            WorldEvent::EntityAppeared { entity_id, x, y } => entity_id == s && !before.contains(o)
                && within(p, w[o].position, VIEW_RADIUS_CM as int) && x == p.x && y == p.y,
            WorldEvent::EntityVanished { entity_id } => entity_id == s && before.contains(o)
                && !within(p, w[o].position, VIEW_RADIUS_CM as int),
            WorldEvent::EntityMoved { entity_id, x, y } => entity_id == s && before.contains(o)
                && within(p, w[o].position, VIEW_RADIUS_CM as int) && x == p.x && y == p.y,
            _ => false,
        }
    }
}

/// The other entity a refresh notice is about.
spec fn partner(s: u64, d: Delivery) -> u64 {
    if d.recipient == s {
        match d.event {
            WorldEvent::EntityAppeared { entity_id, .. } => entity_id,
            WorldEvent::EntityVanished { entity_id } => entity_id,
            _ => s,
        }
    } else {
        d.recipient
    }
}


/// The notices for one examined entity `o`, in the order they are sent.
spec fn notices_for(w: Map<u64, Avatar>, s: u64, before: Set<u64>, o: u64) -> Seq<Delivery> {
    let p = w[s].position;
    let q = w[o].position;
    let was = before.contains(o);
    let now = within(p, q, VIEW_RADIUS_CM as int);
    if !was && now {
        seq![
            Delivery { recipient: s, event: WorldEvent::EntityAppeared { entity_id: o, x: q.x, y: q.y } },
            Delivery { recipient: o, event: WorldEvent::EntityAppeared { entity_id: s, x: p.x, y: p.y } },
        ]
    } else if was && !now {
        seq![
            Delivery { recipient: s, event: WorldEvent::EntityVanished { entity_id: o } },
            Delivery { recipient: o, event: WorldEvent::EntityVanished { entity_id: s } },
        ]
    } else if was && now {
        seq![Delivery { recipient: o, event: WorldEvent::EntityMoved { entity_id: s, x: p.x, y: p.y } }]
    } else {
        Seq::empty()
    }
}

/// A refresh notice is about another present entity that was perceived
/// before or is within range now.
proof fn notice_partner(w: Map<u64, Avatar>, s: u64, before: Set<u64>, d: Delivery)
    requires
        refresh_notice(w, s, before, d),
    ensures
        partner(s, d) != s,
        w.contains_key(partner(s, d)),
        before.contains(partner(s, d)) || within(w[s].position, w[partner(s, d)].position, VIEW_RADIUS_CM as int),
        notices_for(w, s, before, partner(s, d)).contains(d),
{
    let o = partner(s, d);
    let n = notices_for(w, s, before, o);
    if d.recipient == s {
        match d.event {
            WorldEvent::EntityAppeared { .. } => {
                assert(n[0] == d);
            },
            WorldEvent::EntityVanished { .. } => {
                assert(n[0] == d);
            },
            _ => {},
        }
    } else {
        match d.event {
            WorldEvent::EntityAppeared { .. } => {
                assert(n[1] == d);
            },
            WorldEvent::EntityVanished { .. } => {
                assert(n[1] == d);
            },
            WorldEvent::EntityMoved { .. } => {
                assert(n[0] == d);
            },
            _ => {},
        }
    }
}

/// The notices for `o` are exactly the refresh notices whose partner is `o`.
proof fn notices_for_exact(w: Map<u64, Avatar>, s: u64, before: Set<u64>, o: u64)
    requires
        o != s,
        w.contains_key(o),
    ensures
        notices_for(w, s, before, o).no_duplicates(),
        forall|d: Delivery| #[trigger] notices_for(w, s, before, o).contains(d) <==> (refresh_notice(w, s, before, d)
            && partner(s, d) == o),
{
    let n = notices_for(w, s, before, o);
    assert forall|d: Delivery| #[trigger] n.contains(d) implies refresh_notice(w, s, before, d) && partner(s, d) == o by {
        let u = choose|u: int| 0 <= u < n.len() && n[u] == d;
    }
    assert forall|d: Delivery| refresh_notice(w, s, before, d) && partner(s, d) == o implies #[trigger] n.contains(d) by {
        notice_partner(w, s, before, d);
    }
}

/// Shape of the perception lists: one per body, no repetition, other present
/// bodies only.
spec fn sight_shape(bs: Seq<Body>, sight: Seq<Vec<u64>>) -> bool {
    &&& sight.len() == bs.len()
    &&& forall|i: int| 0 <= i < sight.len() ==> (#[trigger] sight[i])@.no_duplicates()
    &&& forall|i: int, v: u64|
        0 <= i < sight.len() && (#[trigger] sight[i]@.contains(v)) ==> holds(bs, v) && v != bs[i].id
}

/// Pairs not involving slot `s` are exact.
spec fn exact_off(bs: Seq<Body>, sight: Seq<Vec<u64>>, s: int) -> bool {
    forall|a: int, b: int|
        0 <= a < bs.len() && 0 <= b < bs.len() && a != b && a != s && b != s ==> (
        #[trigger] sight[a]@.contains(bs[b].id) <==> within(bs[a].position, bs[b].position, VIEW_RADIUS_CM as int))
}

/// Pairs between slot `s` and an entity of `done` are exact both ways.
spec fn settled(bs: Seq<Body>, sight: Seq<Vec<u64>>, s: int, done: Seq<u64>) -> bool {
    forall|k: int|
        0 <= k < bs.len() && k != s && done.contains(#[trigger] bs[k].id) ==> (sight[s]@.contains(bs[k].id)
            <==> within(bs[s].position, bs[k].position, VIEW_RADIUS_CM as int)) && (sight[k]@.contains(bs[s].id)
            <==> within(bs[s].position, bs[k].position, VIEW_RADIUS_CM as int))
}

/// Pairs between slot `s` and an entity not yet in `done` still say what
/// `before` says, both ways.
spec fn pending(bs: Seq<Body>, sight: Seq<Vec<u64>>, s: int, done: Seq<u64>, before: Seq<u64>) -> bool {
    forall|k: int|
        0 <= k < bs.len() && k != s && !done.contains(#[trigger] bs[k].id) ==> (sight[s]@.contains(bs[k].id)
            <==> before.contains(bs[k].id)) && (sight[k]@.contains(bs[s].id) <==> before.contains(bs[k].id))
}

/// One step of a refresh on the perception lists.
proof fn sight_step(
    bs: Seq<Body>,
    prev: Seq<Vec<u64>>,
    next: Seq<Vec<u64>>,
    s: int,
    oi: int,
    done: Seq<u64>,
    before: Seq<u64>,
)
    requires
        distinct(bs),
        0 <= s < bs.len(),
        0 <= oi < bs.len(),
        oi != s,
        sight_shape(bs, prev),
        exact_off(bs, prev, s),
        settled(bs, prev, s, done),
        pending(bs, prev, s, done, before),
        !done.contains(bs[oi].id),
        next.len() == prev.len(),
        forall|k: int| 0 <= k < prev.len() && k != s && k != oi ==> next[k] == prev[k],
        before.contains(bs[oi].id) == within(bs[s].position, bs[oi].position, VIEW_RADIUS_CM as int) ==> next[s]
            == prev[s] && next[oi] == prev[oi],
        !before.contains(bs[oi].id) && within(bs[s].position, bs[oi].position, VIEW_RADIUS_CM as int) ==> next[s]@
            == with_added(prev[s]@, bs[oi].id) && next[oi]@ == with_added(prev[oi]@, bs[s].id),
        before.contains(bs[oi].id) && !within(bs[s].position, bs[oi].position, VIEW_RADIUS_CM as int) ==> {
            &&& next[s]@.no_duplicates()
            &&& next[oi]@.no_duplicates()
            &&& forall|y: u64| #[trigger] next[s]@.contains(y) <==> (prev[s]@.contains(y) && y != bs[oi].id)
            &&& forall|y: u64| #[trigger] next[oi]@.contains(y) <==> (prev[oi]@.contains(y) && y != bs[s].id)
        },
    ensures
        sight_shape(bs, next),
        exact_off(bs, next, s),
        settled(bs, next, s, done.push(bs[oi].id)),
        pending(bs, next, s, done.push(bs[oi].id), before),
{
    let o = bs[oi].id;
    let sid = bs[s].id;
    let nd = done.push(o);
    assert forall|y: u64| #[trigger] nd.contains(y) <==> (done.contains(y) || y == o) by {
        if nd.contains(y) && y != o {
            let u = choose|u: int| 0 <= u < nd.len() && nd[u] == y;
            assert(done[u] == y);
        }
        if done.contains(y) {
            let u = choose|u: int| 0 <= u < done.len() && done[u] == y;
            assert(nd[u] == y);
        }
        assert(nd[done.len() as int] == o);
    }
    with_added_facts(prev[s]@, o);
    with_added_facts(prev[oi]@, sid);
    assert(holds(bs, o));
    assert(holds(bs, sid));
    assert forall|i: int, v: u64| 0 <= i < next.len() && (#[trigger] next[i]@.contains(v)) implies holds(bs, v)
        && v != bs[i].id by {
        if i != s && i != oi {
            assert(prev[i]@.contains(v));
        } else if i == s {
            if v != o {
                assert(prev[s]@.contains(v));
            }
        } else {
            if v != sid {
                assert(prev[oi]@.contains(v));
            }
        }
    }
    assert forall|a: int, b: int|
        0 <= a < bs.len() && 0 <= b < bs.len() && a != b && a != s && b != s implies (
        #[trigger] next[a]@.contains(bs[b].id) <==> within(bs[a].position, bs[b].position, VIEW_RADIUS_CM as int)) by {
        if a == oi {
            assert(bs[b].id != sid);
            assert(next[a]@.contains(bs[b].id) <==> prev[a]@.contains(bs[b].id));
        }
    }
    assert forall|k: int| 0 <= k < bs.len() && k != s && nd.contains(#[trigger] bs[k].id) implies (
        next[s]@.contains(bs[k].id) <==> within(bs[s].position, bs[k].position, VIEW_RADIUS_CM as int)) && (
        next[k]@.contains(bs[s].id) <==> within(bs[s].position, bs[k].position, VIEW_RADIUS_CM as int)) by {
        if k != oi {
            assert(bs[k].id != o);
            assert(done.contains(bs[k].id));
            assert(next[s]@.contains(bs[k].id) <==> prev[s]@.contains(bs[k].id));
        }
    }
    assert forall|k: int| 0 <= k < bs.len() && k != s && !nd.contains(#[trigger] bs[k].id) implies (
        next[s]@.contains(bs[k].id) <==> before.contains(bs[k].id)) && (next[k]@.contains(bs[s].id)
        <==> before.contains(bs[k].id)) by {
        assert(k != oi);
        assert(bs[k].id != o);
        assert(next[s]@.contains(bs[k].id) <==> prev[s]@.contains(bs[k].id));
    }
}

/// One step of a refresh on the notices sent.
proof fn notices_step(
    w: Map<u64, Avatar>,
    s: u64,
    before: Set<u64>,
    prev: Seq<Delivery>,
    next: Seq<Delivery>,
    done: Seq<u64>,
    o: u64,
)
    requires
        o != s,
        w.contains_key(o),
        !done.contains(o),
        prev.no_duplicates(),
        forall|d: Delivery| #[trigger] prev.contains(d) ==> refresh_notice(w, s, before, d) && done.contains(
            partner(s, d)),
        forall|d: Delivery| refresh_notice(w, s, before, d) && done.contains(partner(s, d)) ==> #[trigger] prev.contains(d),
        next == prev + notices_for(w, s, before, o),
    ensures
        next.no_duplicates(),
        forall|d: Delivery| #[trigger] next.contains(d) ==> refresh_notice(w, s, before, d) && done.push(o).contains(
            partner(s, d)),
        forall|d: Delivery| refresh_notice(w, s, before, d) && done.push(o).contains(partner(s, d)) ==> #[trigger] next.contains(d),
{
    let n = notices_for(w, s, before, o);
    let nd = done.push(o);
    notices_for_exact(w, s, before, o);
    assert forall|y: u64| #[trigger] nd.contains(y) <==> (done.contains(y) || y == o) by {
        if nd.contains(y) && y != o {
            let u = choose|u: int| 0 <= u < nd.len() && nd[u] == y;
            assert(done[u] == y);
        }
        if done.contains(y) {
            let u = choose|u: int| 0 <= u < done.len() && done[u] == y;
            assert(nd[u] == y);
        }
        assert(nd[done.len() as int] == o);
    }
    assert forall|d: Delivery| #[trigger] next.contains(d) <==> (prev.contains(d) || n.contains(d)) by {
        if next.contains(d) {
            let u = choose|u: int| 0 <= u < next.len() && next[u] == d;
            if u < prev.len() {
                assert(prev[u] == d);
            } else {
                assert(n[u - prev.len()] == d);
            }
        }
        if prev.contains(d) {
            let u = choose|u: int| 0 <= u < prev.len() && prev[u] == d;
            assert(next[u] == d);
        }
        if n.contains(d) {
            let u = choose|u: int| 0 <= u < n.len() && n[u] == d;
            assert(next[prev.len() + u] == d);
        }
    }
    assert forall|a: int, b: int| 0 <= a < next.len() && 0 <= b < next.len() && a != b implies next[a] != next[b] by {
        if a < prev.len() && b >= prev.len() {
            assert(prev.contains(next[a]));
            assert(n.contains(next[b]));
        } else if b < prev.len() && a >= prev.len() {
            assert(prev.contains(next[b]));
            assert(n.contains(next[a]));
        } else if a >= prev.len() && b >= prev.len() {
            assert(n[a - prev.len()] == next[a]);
            assert(n[b - prev.len()] == next[b]);
        }
    }
}


/// Same entities; every entity but `id` keeps its position, rules and
/// character.
pub open spec fn others_kept(a: Map<u64, Avatar>, b: Map<u64, Avatar>, id: u64) -> bool {
    &&& a.dom() == b.dom()
    &&& forall|k: u64|
        #![trigger b[k]]
        a.contains_key(k) && k != id ==> b[k].position == a[k].position && b[k].rule == a[k].rule && b[k].combat
            == a[k].combat && b[k].character == a[k].character
}

/// Whether the movement rule admits going from `from` to `to` in `elapsed_ms`.
pub open spec fn move_admitted(rule: MovementRule, from: Position, to: Position, elapsed_ms: u64) -> bool {
    let allowed = allowance(rule.pace() as int, rule.margin() as int, elapsed_ms as int);
    dist2(from, to) <= sat_mul_u64(allowed, allowed)
}

/// Refresh notices only depend on who is present and where.
proof fn notice_depends_on_positions(w1: Map<u64, Avatar>, w2: Map<u64, Avatar>, s: u64, before: Set<u64>, d: Delivery)
    requires
        w1.dom() == w2.dom(),
        w1.contains_key(s),
        forall|k: u64| w1.contains_key(k) ==> #[trigger] w1[k].position == w2[k].position,
    ensures
        refresh_notice(w1, s, before, d) == refresh_notice(w2, s, before, d),
{
    assert(w1[s].position == w2[s].position);
    if d.recipient != s {
        assert(w1.contains_key(d.recipient) == w2.contains_key(d.recipient));
        if w1.contains_key(d.recipient) {
            assert(w1[d.recipient].position == w2[d.recipient].position);
        }
    }
    match d.event {
        WorldEvent::EntityAppeared { entity_id, .. } => {
            assert(w1.contains_key(entity_id) == w2.contains_key(entity_id));
            if w1.contains_key(entity_id) {
                assert(w1[entity_id].position == w2[entity_id].position);
            }
        },
        WorldEvent::EntityVanished { entity_id } => {
            assert(w1.contains_key(entity_id) == w2.contains_key(entity_id));
            if w1.contains_key(entity_id) {
                assert(w1[entity_id].position == w2[entity_id].position);
            }
        },
        _ => {},
    }
}

/// Two registries with the same identifiers slot by slot describe the same
/// entities, read at the same slots.
proof fn same_ids_model(bs: Seq<Body>, bs2: Seq<Body>, sight: Seq<Vec<u64>>, sight2: Seq<Vec<u64>>)
    requires
        distinct(bs),
        bs2.len() == bs.len(),
        forall|i: int| 0 <= i < bs.len() ==> #[trigger] bs2[i].id == bs[i].id,
    ensures
        distinct(bs2),
        model(bs2, sight2).dom() == model(bs, sight).dom(),
        forall|k: u64| #[trigger] model(bs2, sight2).contains_key(k) ==> holds(bs, k) && model(bs2, sight2)[k] == avatar(bs2[slot(bs, k)], sight2[slot(bs, k)]@),
{
    assert forall|i: int, j: int| 0 <= i < bs2.len() && 0 <= j < bs2.len() && i != j implies bs2[i].id != bs2[j].id by {
        assert(bs2[i].id == bs[i].id);
        assert(bs2[j].id == bs[j].id);
    }
    assert forall|k: u64| holds(bs2, k) <==> holds(bs, k) by {
        if holds(bs, k) {
            let i = choose|i: int| 0 <= i < bs.len() && bs[i].id == k;
            assert(bs2[i].id == k);
        }
        if holds(bs2, k) {
            let i = choose|i: int| 0 <= i < bs2.len() && bs2[i].id == k;
            assert(bs[i].id == k);
        }
    }
    assert(model(bs2, sight2).dom() =~= model(bs, sight).dom());
    assert forall|k: u64| #[trigger] model(bs2, sight2).contains_key(k) implies holds(bs, k) && model(bs2, sight2)[k] == avatar(
        bs2[slot(bs, k)], sight2[slot(bs, k)]@) by {
        let i = slot(bs, k);
        assert(bs[i].id == k);
        assert(bs2[i].id == k);
        slot_of_index(bs2, i);
    }
}

/// Identifiers other than the one of slot `si` stand where they stood; that
/// one now stands in the cell of its new position.
proof fn located_after_move(prev: Seq<Body>, next: Seq<Body>, si: int)
    requires
        distinct(prev),
        0 <= si < prev.len(),
        next.len() == prev.len(),
        next[si].id == prev[si].id,
        forall|i: int| 0 <= i < prev.len() && i != si ==> #[trigger] next[i] == prev[i],
    ensures
        forall|c: CellCoord, v: u64| v != prev[si].id ==> (#[trigger] located(next, c, v) <==> located(prev, c, v)),
        forall|c: CellCoord| #[trigger] located(next, c, prev[si].id) <==> c == cell_at(VIEW_RADIUS_CM as int, next[si].position),
        forall|c: CellCoord| #[trigger] located(prev, c, prev[si].id) <==> c == cell_at(VIEW_RADIUS_CM as int, prev[si].position),
{
    let id = prev[si].id;
    assert forall|c: CellCoord, v: u64| v != id implies (#[trigger] located(next, c, v) <==> located(prev, c, v)) by {
        if located(next, c, v) {
            let i = choose|i: int| 0 <= i < next.len() && next[i].id == v && cell_at(VIEW_RADIUS_CM as int, #[trigger] next[i].position) == c;
            assert(i != si);
            assert(prev[i] == next[i]);
        }
        if located(prev, c, v) {
            let i = choose|i: int| 0 <= i < prev.len() && prev[i].id == v && cell_at(VIEW_RADIUS_CM as int, #[trigger] prev[i].position) == c;
            assert(i != si);
            assert(prev[i] == next[i]);
        }
    }
    assert forall|c: CellCoord| #[trigger] located(next, c, id) <==> c == cell_at(VIEW_RADIUS_CM as int, next[si].position) by {
        if located(next, c, id) {
            let i = choose|i: int| 0 <= i < next.len() && next[i].id == id && cell_at(VIEW_RADIUS_CM as int, #[trigger] next[i].position) == c;
            if i != si {
                assert(prev[i] == next[i]);
            }
        }
        if c == cell_at(VIEW_RADIUS_CM as int, next[si].position) {
            assert(cell_at(VIEW_RADIUS_CM as int, next[si].position) == c);
        }
    }
    assert forall|c: CellCoord| #[trigger] located(prev, c, id) <==> c == cell_at(VIEW_RADIUS_CM as int, prev[si].position) by {
        if located(prev, c, id) {
            let i = choose|i: int| 0 <= i < prev.len() && prev[i].id == id && cell_at(VIEW_RADIUS_CM as int, #[trigger] prev[i].position) == c;
        }
        if c == cell_at(VIEW_RADIUS_CM as int, prev[si].position) {
            assert(cell_at(VIEW_RADIUS_CM as int, prev[si].position) == c);
        }
    }
}


/// The slots of a registry after removing slot `si`.
proof fn removed_slots(bs: Seq<Body>, si: int)
    requires
        distinct(bs),
        0 <= si < bs.len(),
    ensures
        distinct(bs.remove(si)),
        forall|i: int| 0 <= i < bs.len() - 1 ==> #[trigger] bs.remove(si)[i] == bs[if i < si { i } else { i + 1 }],
        forall|v: u64| #[trigger] holds(bs.remove(si), v) <==> (holds(bs, v) && v != bs[si].id),
        forall|c: CellCoord, v: u64| #[trigger] located(bs.remove(si), c, v) <==> (located(bs, c, v) && v != bs[si].id),
{
    let b2 = bs.remove(si);
    assert forall|i: int| 0 <= i < bs.len() - 1 implies #[trigger] b2[i] == bs[if i < si { i } else { i + 1 }] by {}
    assert forall|i: int, j: int| 0 <= i < b2.len() && 0 <= j < b2.len() && i != j implies b2[i].id != b2[j].id by {
        assert(b2[i] == bs[if i < si { i } else { i + 1 }]);
        assert(b2[j] == bs[if j < si { j } else { j + 1 }]);
    }
    assert forall|v: u64| #[trigger] holds(b2, v) <==> (holds(bs, v) && v != bs[si].id) by {
        if holds(b2, v) {
            let i = choose|i: int| 0 <= i < b2.len() && b2[i].id == v;
            let o = if i < si { i } else { i + 1 };
            assert(b2[i] == bs[o]);
        }
        if holds(bs, v) && v != bs[si].id {
            let o = choose|o: int| 0 <= o < bs.len() && bs[o].id == v;
            let i = if o < si { o } else { o - 1 };
            assert(b2[i] == bs[o]);
        }
    }
    assert forall|c: CellCoord, v: u64| #[trigger] located(b2, c, v) <==> (located(bs, c, v) && v != bs[si].id) by {
        if located(b2, c, v) {
            let i = choose|i: int| 0 <= i < b2.len() && b2[i].id == v && cell_at(VIEW_RADIUS_CM as int, #[trigger] b2[i].position) == c;
            let o = if i < si { i } else { i + 1 };
            assert(b2[i] == bs[o]);
        }
        if located(bs, c, v) && v != bs[si].id {
            let o = choose|o: int| 0 <= o < bs.len() && bs[o].id == v && cell_at(VIEW_RADIUS_CM as int, #[trigger] bs[o].position) == c;
            let i = if o < si { o } else { o - 1 };
            assert(b2[i] == bs[o]);
        }
    }
}


/// A newcomer's character: level 1, no experience, the starting attributes,
/// full health, the standard curve.
pub open spec fn newcomer(c: Character, id: u64) -> bool {
    &&& c@.id == id
    &&& c@.level == 1
    &&& c@.experience == 0
    &&& c@.attributes == (Attributes { strength: 10, dexterity: 8, vitality: 10, intellect: 5 })
    &&& c@.max_health == max_health_of(10, 1)
    &&& c@.health == c@.max_health
    &&& c@.curve_base == 100
}


/// Whether `r` is told of what happens between `a` and `b`: either of them,
/// and whoever perceives either of them.
pub open spec fn around(w: Map<u64, Avatar>, a: u64, b: u64, r: u64) -> bool {
    ||| w.contains_key(a) && (r == a || w[a].visible.contains(r))
    ||| w.contains_key(b) && (r == b || w[b].visible.contains(r))
}

/// `s` tells `event`, once, to each entity around `a` and `b`.
pub open spec fn broadcast(s: Seq<Delivery>, w: Map<u64, Avatar>, a: u64, b: u64, event: WorldEvent) -> bool {
    &&& s.no_duplicates()
    &&& forall|d: Delivery| #[trigger] s.contains(d) <==> (d.event == event && around(w, a, b, d.recipient))
}

/// The situation of an attack by `a` on `t`.
pub open spec fn engagement_in(w: Map<u64, Avatar>, a: u64, t: u64) -> Engagement {
    Engagement {
        attacker_at: w[a].position,
        target_at: w[t].position,
        attacker_alive: w[a].character@.health > 0,
        target_alive: w[t].character@.health > 0,
        same_entity: a == t,
    }
}

/// Why an attack by `a` on `t` after `elapsed_ms` is refused, in the order
/// the combat rule checks: self target, dead attacker, dead target, range,
/// cadence; `None` when it lands.
pub open spec fn refusal_in(w: Map<u64, Avatar>, a: u64, t: u64, elapsed_ms: u64) -> Option<AttackRefusal> {
    let e = engagement_in(w, a, t);
    if e.same_entity {
        Some(AttackRefusal::SelfTarget)
    } else if !e.attacker_alive {
        Some(AttackRefusal::AttackerDown)
    } else if !e.target_alive {
        Some(AttackRefusal::TargetDown)
    } else if !within(e.attacker_at, e.target_at, w[a].combat.reach() as int) {
        Some(AttackRefusal::OutOfRange)
    } else if elapsed_ms < w[a].combat.cadence() {
        Some(AttackRefusal::TooSoon)
    } else {
        None
    }
}

/// Damage of a blow of `a` on `t`: the attack derived from the attacker's
/// strength against the armour derived from the target's dexterity, without
/// resistance, at the target's level.
pub open spec fn blow(w: Map<u64, Avatar>, a: u64, t: u64) -> int {
    damage_of(
        attack_power(w[a].character@.attributes),
        armor_of(w[t].character@.attributes),
        0,
        w[t].character@.level as int,
    )
}

/// Health left after losing `amount`, floored at zero.
pub open spec fn health_after(health: u32, amount: int) -> u32 {
    if health < amount { 0 } else { (health - amount) as u32 }
}

/// Same entities; every entity but `x` and `y` keeps position, rules and
/// character, and `x` and `y` keep position and rules.
pub open spec fn places_kept(a: Map<u64, Avatar>, b: Map<u64, Avatar>, x: u64, y: u64) -> bool {
    &&& a.dom() == b.dom()
    &&& forall|k: u64|
        #![trigger b[k]]
        a.contains_key(k) ==> b[k].position == a[k].position && b[k].rule == a[k].rule && b[k].combat == a[k].combat
            && (k != x && k != y ==> b[k].character == a[k].character)
}

/// Identifiers and positions slot by slot are all that perception and the
/// cell index depend on.
proof fn same_places(bs: Seq<Body>, bs2: Seq<Body>, sight: Seq<Vec<u64>>, cells: Seq<Cell>)
    requires
        bs2.len() == bs.len(),
        forall|i: int| #![trigger bs2[i]] 0 <= i < bs.len() ==> bs2[i].id == bs[i].id && bs2[i].position == bs[i].position,
    ensures
        distinct(bs) ==> distinct(bs2),
        sight_ok(bs, sight) ==> sight_ok(bs2, sight),
        index_ok(bs, cells) ==> index_ok(bs2, cells),
        forall|v: u64| #[trigger] holds(bs2, v) == holds(bs, v),
        forall|c: CellCoord, v: u64| #[trigger] located(bs2, c, v) == located(bs, c, v),
{
    assert forall|v: u64| #[trigger] holds(bs2, v) == holds(bs, v) by {
        if holds(bs, v) {
            let i = choose|i: int| 0 <= i < bs.len() && bs[i].id == v;
            assert(bs2[i].id == v);
        }
        if holds(bs2, v) {
            let i = choose|i: int| 0 <= i < bs2.len() && bs2[i].id == v;
            assert(bs[i].id == v);
        }
    }
    assert forall|c: CellCoord, v: u64| #[trigger] located(bs2, c, v) == located(bs, c, v) by {
        if located(bs, c, v) {
            let i = choose|i: int| 0 <= i < bs.len() && bs[i].id == v && cell_at(VIEW_RADIUS_CM as int, #[trigger] bs[i].position) == c;
            assert(bs2[i].id == v && bs2[i].position == bs[i].position);
        }
        if located(bs2, c, v) {
            let i = choose|i: int| 0 <= i < bs2.len() && bs2[i].id == v && cell_at(VIEW_RADIUS_CM as int, #[trigger] bs2[i].position) == c;
            assert(bs2[i].id == bs[i].id && bs2[i].position == bs[i].position);
        }
    }
    if distinct(bs) {
        assert forall|i: int, j: int| 0 <= i < bs2.len() && 0 <= j < bs2.len() && i != j implies bs2[i].id != bs2[j].id by {
            assert(bs2[i].id == bs[i].id);
            assert(bs2[j].id == bs[j].id);
        }
    }
    if sight_ok(bs, sight) {
        assert forall|i: int, j: int| 0 <= i < bs2.len() && 0 <= j < bs2.len() && i != j implies (#[trigger] sight[i]@.contains(bs2[j].id)
            <==> within(bs2[i].position, bs2[j].position, VIEW_RADIUS_CM as int)) by {
            assert(bs2[i].id == bs[i].id && bs2[i].position == bs[i].position);
            assert(bs2[j].id == bs[j].id && bs2[j].position == bs[j].position);
        }
        assert forall|i: int, v: u64| 0 <= i < sight.len() && (#[trigger] sight[i]@.contains(v)) implies holds(bs2, v) && v != bs2[i].id by {
            assert(bs2[i].id == bs[i].id);
        }
    }
}


/// Who is told of what happens between `a` and `b` only depends on who is
/// present and who perceives whom.
proof fn around_transfer(w1: Map<u64, Avatar>, w2: Map<u64, Avatar>, a: u64, b: u64)
    requires
        w1.dom() == w2.dom(),
        forall|k: u64| w1.contains_key(k) ==> #[trigger] w1[k].visible == w2[k].visible,
    ensures
        forall|r: u64| #[trigger] around(w1, a, b, r) == around(w2, a, b, r),
{
    if w1.contains_key(a) {
        assert(w1[a].visible == w2[a].visible);
    }
    if w1.contains_key(b) {
        assert(w1[b].visible == w2[b].visible);
    }
}

/// Attack profile derived from the attributes, never stored, so that it
/// cannot drift from the attributes that produce it.
fn attack_profile(character: Character) -> (r: AttackProfile)
    ensures
        r@ == attack_power(character@.attributes),
{
    AttackProfile::new(BASE_ATTACK + character.attributes().strength as u32 * 5)
}

/// Defense profile derived from the attributes.
fn defense_profile(character: Character) -> (r: DefenseProfile)
    ensures
        r@ == armor_of(character@.attributes),
{
    DefenseProfile::new(character.attributes().dexterity as u32 * 10)
}


/// Distinct identifiers: as many entities as slots.
proof fn census(bs: Seq<Body>)
    requires
        distinct(bs),
    ensures
        Set::new(|id: u64| holds(bs, id)).finite(),
        Set::new(|id: u64| holds(bs, id)).len() == bs.len(),
    decreases bs.len(),
{
    let all = Set::new(|id: u64| holds(bs, id));
    if bs.len() == 0 {
        assert(all =~= Set::<u64>::empty());
    } else {
        let init = bs.drop_last();
        let last = bs[bs.len() - 1];
        assert forall|i: int, j: int| 0 <= i < init.len() && 0 <= j < init.len() && i != j implies init[i].id != init[j].id by {
            assert(init[i] == bs[i]);
            assert(init[j] == bs[j]);
        }
        census(init);
        let rest = Set::new(|id: u64| holds(init, id));
        assert(all =~= rest.insert(last.id)) by {
            assert forall|id: u64| all.contains(id) <==> rest.insert(last.id).contains(id) by {
                if holds(bs, id) && id != last.id {
                    let i = choose|i: int| 0 <= i < bs.len() && bs[i].id == id;
                    assert(init[i] == bs[i]);
                }
                if holds(init, id) {
                    let i = choose|i: int| 0 <= i < init.len() && init[i].id == id;
                    assert(bs[i] == init[i]);
                }
                assert(bs[bs.len() - 1].id == last.id);
            }
        }
        assert(!rest.contains(last.id)) by {
            if holds(init, last.id) {
                let i = choose|i: int| 0 <= i < init.len() && init[i].id == last.id;
                assert(bs[i].id == bs[bs.len() - 1].id);
            }
        }
    }
}

/// Spawn points: column and row of each stay within `0..8`, hence
/// coordinates within `0..=2100`.
proof fn spawn_bounds(id: u64)
    ensures
        0 <= spawn_at(id).x <= 2100,
        0 <= spawn_at(id).y <= 2100,
{
    let index = (id % 64) as int;
    assert(0 <= index < 64);
    assert(0 <= index % 8 < 8);
    assert(0 <= index / 8 < 8);
}

/// Every entity perceives exactly the other entities within the view radius.
pub proof fn perception_is_exact(world: &World)
    requires
        world.wf(),
    ensures
        sight_is_exact(world@),
{
    let bs = world.registry.bodies@;
    let sight = world.registry.sight@;
    let w = world@;
    assert forall|a: u64, b: u64| w.contains_key(a) implies (#[trigger] w[a].visible.contains(b) <==> (b != a && w.contains_key(b)
        && within(w[a].position, w[b].position, VIEW_RADIUS_CM as int))) by {
        let i = slot(bs, a);
        assert(bs[i].id == a);
        model_at(bs, sight, i);
        assert(w[a].visible.contains(b) == sight[i]@.contains(b));
        if sight[i]@.contains(b) {
            assert(holds(bs, b));
        }
        if b != a && w.contains_key(b) {
            let j = slot(bs, b);
            assert(bs[j].id == b);
            model_at(bs, sight, j);
        }
    }
}

/// Perception is symmetric: A perceives B exactly when B perceives A.
pub proof fn perception_is_symmetric(w: Map<u64, Avatar>, a: u64, b: u64)
    requires
        sight_is_exact(w),
        w.contains_key(a),
        w.contains_key(b),
    ensures
        w[a].visible.contains(b) <==> w[b].visible.contains(a),
{
    distance_is_symmetric(w[a].position, w[b].position);
    assert(w[a].visible.contains(b) == (b != a && within(w[a].position, w[b].position, VIEW_RADIUS_CM as int)));
    assert(w[b].visible.contains(a) == (a != b && within(w[b].position, w[a].position, VIEW_RADIUS_CM as int)));
}

/// Any two spawn points are within view of each other, so two players who
/// connect one after the other always perceive each other.
pub proof fn spawn_points_see_each_other(a: u64, b: u64)
    ensures
        within(spawn_at(a), spawn_at(b), VIEW_RADIUS_CM as int),
{
    spawn_bounds(a);
    spawn_bounds(b);
    let dx = spawn_at(a).x - spawn_at(b).x;
    let dy = spawn_at(a).y - spawn_at(b).y;
    assert(dx * dx <= 2100 * 2100) by (nonlinear_arith)
        requires -2100 <= dx <= 2100;
    assert(dy * dy <= 2100 * 2100) by (nonlinear_arith)
        requires -2100 <= dy <= 2100;
}


/// The cell index never holds more cells than there are entities: empty
/// cells do not accumulate, however long the map is walked.
pub proof fn index_never_outgrows_population(world: &World)
    requires
        world.wf(),
    ensures
        world.cell_count() <= world@.len(),
{
    let bs = world.registry.bodies@;
    let cells = world.registry.cells@;
    let firsts = Seq::new(cells.len(), |k: int| cells[k].occupants@[0]);
    assert forall|k: int| 0 <= k < cells.len() implies located(bs, cells[k].coord, #[trigger] firsts[k]) by {
        assert(cells[k].occupants@.len() > 0);
        assert(cells[k].occupants@.contains(firsts[k]));
        assert(member(cells, cells[k].coord, firsts[k]));
    }
    assert(firsts.no_duplicates()) by {
        assert forall|k: int, l: int| 0 <= k < firsts.len() && 0 <= l < firsts.len() && k != l implies firsts[k] != firsts[l] by {
            if firsts[k] == firsts[l] {
                assert(located(bs, cells[k].coord, firsts[k]));
                assert(located(bs, cells[l].coord, firsts[l]));
                let i = choose|i: int| 0 <= i < bs.len() && bs[i].id == firsts[k] && cell_at(VIEW_RADIUS_CM as int, #[trigger] bs[i].position) == cells[k].coord;
                let j = choose|j: int| 0 <= j < bs.len() && bs[j].id == firsts[l] && cell_at(VIEW_RADIUS_CM as int, #[trigger] bs[j].position) == cells[l].coord;
                assert(i == j);
            }
        }
    }
    firsts.unique_seq_to_set();
    census(bs);
    let everyone = Set::new(|id: u64| holds(bs, id));
    assert(firsts.to_set().subset_of(everyone)) by {
        assert forall|v: u64| firsts.to_set().contains(v) implies everyone.contains(v) by {
            let k = choose|k: int| 0 <= k < firsts.len() && firsts[k] == v;
            assert(located(bs, cells[k].coord, firsts[k]));
        }
    }
    vstd::set_lib::lemma_len_subset(firsts.to_set(), everyone);
    assert(world@.dom() =~= everyone);
}


/// An entity that enters a world and then leaves it leaves the world as it
/// found it: same entities, same places, same perception.
pub proof fn leave_undoes_enter(before: Map<u64, Avatar>, entered: Map<u64, Avatar>, after: Map<u64, Avatar>, id: u64)
    requires
        sight_is_exact(before),
        sight_is_exact(after),
        !before.contains_key(id),
        entered.dom() == before.dom().insert(id),
        forall|k: u64|
            #![trigger entered[k]]
            before.contains_key(k) && k != id ==> entered[k].position == before[k].position && entered[k].rule
                == before[k].rule && entered[k].combat == before[k].combat && entered[k].character == before[k].character,
        after.dom() == entered.dom().remove(id),
        forall|k: u64|
            #![trigger after[k]]
            after.contains_key(k) ==> after[k].position == entered[k].position && after[k].rule == entered[k].rule
                && after[k].combat == entered[k].combat && after[k].character == entered[k].character,
    ensures
        after == before,
{
    assert(after.dom() =~= before.dom());
    assert forall|k: u64| #[trigger] after.contains_key(k) implies after[k] == before[k] by {
        assert(k != id);
        assert(entered[k].position == before[k].position);
        assert(after[k].position == entered[k].position);
        assert forall|b: u64| #[trigger] after[k].visible.contains(b) <==> before[k].visible.contains(b) by {
            if b != k && before.contains_key(b) {
                assert(entered[b].position == before[b].position);
                assert(after[b].position == entered[b].position);
            }
        }
        assert(after[k].visible =~= before[k].visible);
    }
    assert(after =~= before);
}

#[derive(Clone, Copy)]
struct Body {
    id: u64,
    position: Position,
    rule: MovementRule,
    combat: CombatRule,
    character: Character,
}

struct Cell {
    coord: CellCoord,
    occupants: Vec<u64>,
}

/// The registry behind a world: `sight[i]` lists what `bodies[i]`
/// perceives; `cells` indexes the bodies by the cell of their position, so
/// that a move is compared with the nine surrounding cells instead of the
/// whole population.
struct Registry {
    grid: Grid,
    bodies: Vec<Body>,
    sight: Vec<Vec<u64>>,
    cells: Vec<Cell>,
}

spec fn holds(bs: Seq<Body>, id: u64) -> bool {
    exists|i: int| 0 <= i < bs.len() && bs[i].id == id
}

spec fn slot(bs: Seq<Body>, id: u64) -> int {
    choose|i: int| 0 <= i < bs.len() && bs[i].id == id
}

spec fn distinct(bs: Seq<Body>) -> bool {
    forall|i: int, j: int| 0 <= i < bs.len() && 0 <= j < bs.len() && i != j ==> bs[i].id != bs[j].id
}

spec fn avatar(b: Body, seen: Seq<u64>) -> Avatar {
    Avatar { position: b.position, rule: b.rule, combat: b.combat, character: b.character, visible: seen.to_set() }
}

spec fn model(bs: Seq<Body>, sight: Seq<Vec<u64>>) -> Map<u64, Avatar> {
    Map::new(|id: u64| holds(bs, id), |id: u64| avatar(bs[slot(bs, id)], sight[slot(bs, id)]@))
}

/// Perception lists: one per body, without repetition, naming other present
/// bodies, and naming exactly those within the view radius.
spec fn sight_ok(bs: Seq<Body>, sight: Seq<Vec<u64>>) -> bool {
    &&& sight.len() == bs.len()
    &&& forall|i: int| 0 <= i < sight.len() ==> (#[trigger] sight[i])@.no_duplicates()
    &&& forall|i: int, v: u64|
        0 <= i < sight.len() && (#[trigger] sight[i]@.contains(v)) ==> holds(bs, v) && v != bs[i].id
    &&& forall|i: int, j: int|
        0 <= i < bs.len() && 0 <= j < bs.len() && i != j ==> (#[trigger] sight[i]@.contains(bs[j].id)
            <==> within(bs[i].position, bs[j].position, VIEW_RADIUS_CM as int))
}

/// Some cell with coordinate `c` lists `v`.
spec fn member(cells: Seq<Cell>, c: CellCoord, v: u64) -> bool {
    exists|k: int| 0 <= k < cells.len() && cells[k].coord == c && #[trigger] cells[k].occupants@.contains(v)
}

/// Some body `v` stands in cell `c`.
spec fn located(bs: Seq<Body>, c: CellCoord, v: u64) -> bool {
    exists|i: int| 0 <= i < bs.len() && bs[i].id == v && cell_at(VIEW_RADIUS_CM as int, #[trigger] bs[i].position) == c
}

/// Distinct cells, none empty, no occupant listed twice.
spec fn cells_shape(cells: Seq<Cell>) -> bool {
    &&& forall|k: int, l: int| 0 <= k < cells.len() && 0 <= l < cells.len() && k != l ==> cells[k].coord != cells[l].coord
    &&& forall|k: int| 0 <= k < cells.len() ==> (#[trigger] cells[k]).occupants@.len() > 0
        && cells[k].occupants@.no_duplicates()
}

/// The cell index: distinct cells, none empty, listing exactly the bodies
/// standing in them.
spec fn index_ok(bs: Seq<Body>, cells: Seq<Cell>) -> bool {
    &&& cells_shape(cells)
    &&& forall|c: CellCoord, v: u64| #![trigger member(cells, c, v)] #![trigger located(bs, c, v)]
        member(cells, c, v) <==> located(bs, c, v)
}

proof fn slot_of_index(bs: Seq<Body>, i: int)
    requires
        distinct(bs),
        0 <= i < bs.len(),
    ensures
        holds(bs, bs[i].id),
        slot(bs, bs[i].id) == i,
{
    assert(holds(bs, bs[i].id));
    let k = slot(bs, bs[i].id);
    assert(bs[k].id == bs[i].id);
}

proof fn model_at(bs: Seq<Body>, sight: Seq<Vec<u64>>, i: int)
    requires
        distinct(bs),
        0 <= i < bs.len(),
    ensures
        model(bs, sight).contains_key(bs[i].id),
        model(bs, sight)[bs[i].id] == avatar(bs[i], sight[i]@),
{
    slot_of_index(bs, i);
}

impl View for Registry {
    type V = Map<u64, Avatar>;

    closed spec fn view(&self) -> Map<u64, Avatar> {
        model(self.bodies@, self.sight@)
    }
}

/// `x` added to `list` unless already there.
spec fn with_added(list: Seq<u64>, x: u64) -> Seq<u64> {
    if list.contains(x) { list } else { list.push(x) }
}

fn includes(list: &Vec<u64>, x: u64) -> (r: bool)
    ensures
        r == list@.contains(x),
{
    let mut i: usize = 0;
    while i < list.len()
        invariant
            i <= list@.len(),
            forall|j: int| 0 <= j < i ==> list@[j] != x,
        decreases list@.len() - i,
    {
        if list[i] == x {
            return true;
        }
        i += 1;
    }
    false
}

fn add_unique(list: &mut Vec<u64>, x: u64)
    ensures
        final(list)@ == with_added(old(list)@, x),
{
    if !includes(list, x) {
        list.push(x);
    }
}

proof fn with_added_facts(list: Seq<u64>, x: u64)
    ensures
        forall|y: u64| #[trigger] with_added(list, x).contains(y) <==> (list.contains(y) || y == x),
        list.no_duplicates() ==> with_added(list, x).no_duplicates(),
{
    if !list.contains(x) {
        let l2 = list.push(x);
        assert forall|y: u64| #[trigger] l2.contains(y) <==> (list.contains(y) || y == x) by {
            if list.contains(y) {
                let k = choose|k: int| 0 <= k < list.len() && list[k] == y;
                assert(l2[k] == y);
            }
            if y == x {
                assert(l2[list.len() as int] == y);
            }
            if l2.contains(y) && y != x {
                let k = choose|k: int| 0 <= k < l2.len() && l2[k] == y;
                assert(list[k] == y);
            }
        }
        if list.no_duplicates() {
            assert forall|a: int, b: int| 0 <= a < l2.len() && 0 <= b < l2.len() && a != b implies l2[a]
                != l2[b] by {
                if a == list.len() {
                    assert(list[b] == l2[b]);
                } else if b == list.len() {
                    assert(list[a] == l2[a]);
                }
            }
        }
    }
}

fn remove_value(list: &mut Vec<u64>, x: u64)
    ensures
        old(list)@.no_duplicates() ==> final(list)@.no_duplicates(),
        old(list)@.no_duplicates() ==> forall|y: u64| #[trigger] final(list)@.contains(y) <==> (
            old(list)@.contains(y) && y != x),
{
    let ghost before = list@;
    let mut i: usize = 0;
    while i < list.len()
        invariant
            list@ == before,
            before == old(list)@,
            i <= list@.len(),
            forall|j: int| 0 <= j < i ==> list@[j] != x,
        decreases list@.len() - i,
    {
        if list[i] == x {
            list.remove(i);
            proof {
                let after = list@;
                assert(after =~= before.subrange(0, i as int) + before.subrange(i as int + 1, before.len() as int));
                if before.no_duplicates() {
                    assert forall|a: int, b: int| 0 <= a < after.len() && 0 <= b < after.len() && a != b implies after[a]
                        != after[b] by {
                        let a0 = if a < i { a } else { a + 1 };
                        let b0 = if b < i { b } else { b + 1 };
                        assert(after[a] == before[a0]);
                        assert(after[b] == before[b0]);
                    }
                    assert forall|y: u64| #[trigger] after.contains(y) <==> (before.contains(y) && y != x) by {
                        if after.contains(y) {
                            let k = choose|k: int| 0 <= k < after.len() && after[k] == y;
                            let k0 = if k < i { k } else { k + 1 };
                            assert(before[k0] == y);
                            assert(k0 != i);
                        }
                        if before.contains(y) && y != x {
                            let k = choose|k: int| 0 <= k < before.len() && before[k] == y;
                            assert(k != i);
                            if k < i {
                                assert(after[k] == y);
                            } else {
                                assert(after[k - 1] == y);
                            }
                        }
                    }
                }
            }
            return;
        }
        i += 1;
    }
    proof {
        assert forall|y: u64| #[trigger] list@.contains(y) <==> (before.contains(y) && y != x) by {
            if list@.contains(y) {
                let k = choose|k: int| 0 <= k < list@.len() && list@[k] == y;
                assert(list@[k] != x);
            }
        }
    }
}

impl Registry {
    /// Consistency of the registry: distinct identifiers, exact perception
    /// lists, exact cell index, cells as large as the view radius.
    pub closed spec fn wf(self) -> bool {
        &&& self.grid.side() == VIEW_RADIUS_CM
        &&& distinct(self.bodies@)
        &&& sight_ok(self.bodies@, self.sight@)
        &&& index_ok(self.bodies@, self.cells@)
    }

    /// Number of cells currently indexed.
    pub closed spec fn cell_count(self) -> nat {
        self.cells@.len()
    }

    /// Slot of an entity in the registry.
    fn find(&self, id: u64) -> (r: Option<usize>)
        ensures
            match r {
                Some(i) => i < self.bodies@.len() && self.bodies@[i as int].id == id,
                None => !holds(self.bodies@, id),
            },
    {
        let mut i: usize = 0;
        while i < self.bodies.len()
            invariant
                i <= self.bodies@.len(),
                forall|j: int| 0 <= j < i ==> self.bodies@[j].id != id,
            decreases self.bodies@.len() - i,
        {
            if self.bodies[i].id == id {
                return Some(i);
            }
            i += 1;
        }
        None
    }

    /// Slot of a cell in the index.
    fn find_cell(&self, coord: CellCoord) -> (r: Option<usize>)
        ensures
            match r {
                Some(k) => k < self.cells@.len() && self.cells@[k as int].coord == coord,
                None => forall|k: int| 0 <= k < self.cells@.len() ==> self.cells@[k].coord != coord,
            },
    {
        let mut k: usize = 0;
        while k < self.cells.len()
            invariant
                k <= self.cells@.len(),
                forall|j: int| 0 <= j < k ==> self.cells@[j].coord != coord,
            decreases self.cells@.len() - k,
        {
            if self.cells[k].coord == coord {
                return Some(k);
            }
            k += 1;
        }
        None
    }


    /// Everything of `wf` but the perception of slot `s`: pairs not involving
    /// `s` are exact, pairs involving it are merely symmetric.
    closed spec fn ready(self, s: int) -> bool {
        let bs = self.bodies@;
        let sight = self.sight@;
        &&& self.grid.side() == VIEW_RADIUS_CM
        &&& distinct(bs)
        &&& index_ok(bs, self.cells@)
        &&& 0 <= s < bs.len()
        &&& sight.len() == bs.len()
        &&& forall|i: int| 0 <= i < sight.len() ==> (#[trigger] sight[i])@.no_duplicates()
        &&& forall|i: int, v: u64|
            0 <= i < sight.len() && (#[trigger] sight[i]@.contains(v)) ==> holds(bs, v) && v != bs[i].id
        &&& forall|i: int, j: int|
            0 <= i < bs.len() && 0 <= j < bs.len() && i != j && i != s && j != s ==> (
            #[trigger] sight[i]@.contains(bs[j].id) <==> within(bs[i].position, bs[j].position, VIEW_RADIUS_CM as int))
        &&& forall|j: int|
            0 <= j < bs.len() && j != s ==> (#[trigger] sight[s]@.contains(bs[j].id) <==> sight[j]@.contains(bs[s].id))
    }

    /// Adds `a` and `b` to each other's perception.
    fn link(&mut self, a: usize, b: usize)
        requires
            a < old(self).sight@.len(),
            b < old(self).sight@.len(),
            old(self).sight@.len() == old(self).bodies@.len(),
            a != b,
        ensures
            final(self).grid == old(self).grid,
            final(self).bodies@ == old(self).bodies@,
            final(self).cells@ == old(self).cells@,
            final(self).sight@.len() == old(self).sight@.len(),
            final(self).sight@[a as int]@ == with_added(old(self).sight@[a as int]@, old(self).bodies@[b as int].id),
            final(self).sight@[b as int]@ == with_added(old(self).sight@[b as int]@, old(self).bodies@[a as int].id),
            forall|k: int| 0 <= k < old(self).sight@.len() && k != a && k != b ==> final(self).sight@[k] == old(self).sight@[k],
    {
        let ida = self.bodies[a].id;
        let idb = self.bodies[b].id;
        let mut la: Vec<u64> = Vec::new();
        self.sight.set_and_swap(a, &mut la);
        add_unique(&mut la, idb);
        self.sight.set(a, la);
        let mut lb: Vec<u64> = Vec::new();
        self.sight.set_and_swap(b, &mut lb);
        add_unique(&mut lb, ida);
        self.sight.set(b, lb);
    }

    /// Removes `a` and `b` from each other's perception.
    fn unlink(&mut self, a: usize, b: usize)
        requires
            a < old(self).sight@.len(),
            b < old(self).sight@.len(),
            old(self).sight@.len() == old(self).bodies@.len(),
            a != b,
            old(self).sight@[a as int]@.no_duplicates(),
            old(self).sight@[b as int]@.no_duplicates(),
        ensures
            final(self).grid == old(self).grid,
            final(self).bodies@ == old(self).bodies@,
            final(self).cells@ == old(self).cells@,
            final(self).sight@.len() == old(self).sight@.len(),
            final(self).sight@[a as int]@.no_duplicates(),
            final(self).sight@[b as int]@.no_duplicates(),
            forall|y: u64| #[trigger] final(self).sight@[a as int]@.contains(y) <==> (old(self).sight@[a as int]@.contains(y)
                && y != old(self).bodies@[b as int].id),
            forall|y: u64| #[trigger] final(self).sight@[b as int]@.contains(y) <==> (old(self).sight@[b as int]@.contains(y)
                && y != old(self).bodies@[a as int].id),
            forall|k: int| 0 <= k < old(self).sight@.len() && k != a && k != b ==> final(self).sight@[k] == old(self).sight@[k],
    {
        let ida = self.bodies[a].id;
        let idb = self.bodies[b].id;
        let mut la: Vec<u64> = Vec::new();
        self.sight.set_and_swap(a, &mut la);
        remove_value(&mut la, idb);
        self.sight.set(a, la);
        let mut lb: Vec<u64> = Vec::new();
        self.sight.set_and_swap(b, &mut lb);
        remove_value(&mut lb, ida);
        self.sight.set(b, lb);
    }

    /// The entities to compare with slot `si`: those it perceived before and
    /// the occupants of the nine cells around it, itself excluded.
    fn candidates(&self, si: usize, before: &Vec<u64>) -> (r: Vec<u64>)
        requires
            self.ready(si as int),
            before@ == self.sight@[si as int]@,
        ensures
            r@.no_duplicates(),
            forall|v: u64| #[trigger] r@.contains(v) ==> holds(self.bodies@, v) && v != self.bodies@[si as int].id,
            forall|v: u64| #[trigger] before@.contains(v) ==> r@.contains(v),
            forall|j: int|
                0 <= j < self.bodies@.len() && j != si && within(
                    self.bodies@[si as int].position,
                    self.bodies@[j].position,
                    VIEW_RADIUS_CM as int,
                ) ==> r@.contains(#[trigger] self.bodies@[j].id),
    {
        let ghost bs = self.bodies@;
        let ghost cells = self.cells@;
        let sid = self.bodies[si].id;
        let sp = self.bodies[si].position;
        let mut examined: Vec<u64> = before.clone();
        proof {
            assert(examined@ =~= before@);
        }
        let block = self.grid.neighbourhood(self.grid.cell_of(sp));
        let mut b: usize = 0;
        while b < block.len()
            invariant
                self.ready(si as int),
                bs == self.bodies@,
                cells == self.cells@,
                sid == bs[si as int].id,
                before@ == self.sight@[si as int]@,
                b <= block@.len(),
                examined@.no_duplicates(),
                forall|v: u64| #[trigger] examined@.contains(v) ==> holds(bs, v) && v != sid,
                forall|v: u64| #[trigger] before@.contains(v) ==> examined@.contains(v),
                forall|c: int, k: int, v: u64|
                    #![trigger block@[c], cells[k].occupants@.contains(v)]
                    0 <= c < b && 0 <= k < cells.len() && cells[k].coord == block@[c]
                        && cells[k].occupants@.contains(v) && v != sid ==> examined@.contains(v),
            decreases block@.len() - b,
        {
            match self.find_cell(block[b]) {
                None => {},
                Some(k) => {
                    let mut t: usize = 0;
                    while t < self.cells[k].occupants.len()
                        invariant
                            self.ready(si as int),
                            bs == self.bodies@,
                            cells == self.cells@,
                            sid == bs[si as int].id,
                            k < cells.len(),
                            t <= cells[k as int].occupants@.len(),
                            examined@.no_duplicates(),
                            forall|v: u64| #[trigger] examined@.contains(v) ==> holds(bs, v) && v != sid,
                            forall|v: u64| #[trigger] before@.contains(v) ==> examined@.contains(v),
                            forall|c: int, k2: int, v: u64|
                                #![trigger block@[c], cells[k2].occupants@.contains(v)]
                                0 <= c < b && 0 <= k2 < cells.len() && cells[k2].coord == block@[c]
                                    && cells[k2].occupants@.contains(v) && v != sid ==> examined@.contains(v),
                            forall|u: int| 0 <= u < t && cells[k as int].occupants@[u] != sid ==> examined@.contains(
                                #[trigger] cells[k as int].occupants@[u]),
                        decreases cells[k as int].occupants@.len() - t,
                    {
                        let v = self.cells[k].occupants[t];
                        proof {
                            assert(cells[k as int].occupants@.contains(v));
                            assert(member(cells, cells[k as int].coord, v));
                        }
                        if v != sid && !includes(&examined, v) {
                            let ghost old_e = examined@;
                            examined.push(v);
                            proof {
                                assert forall|y: u64| #[trigger] examined@.contains(y) <==> (old_e.contains(y) || y == v) by {
                                    with_added_facts(old_e, v);
                                    assert(examined@ == with_added(old_e, v));
                                }
                                with_added_facts(old_e, v);
                                assert(examined@ == with_added(old_e, v));
                            }
                        }
                        t += 1;
                    }
                    proof {
                        assert forall|c: int, k2: int, v: u64|
                            #![trigger block@[c], cells[k2].occupants@.contains(v)]
                            0 <= c < b + 1 && 0 <= k2 < cells.len() && cells[k2].coord == block@[c]
                                && cells[k2].occupants@.contains(v) && v != sid implies examined@.contains(v) by {
                            if c == b {
                                assert(k2 == k as int);
                                let u = choose|u: int| 0 <= u < cells[k2].occupants@.len() && cells[k2].occupants@[u] == v;
                                assert(cells[k as int].occupants@[u] == v);
                            }
                        }
                    }
                },
            }
            b += 1;
        }
        proof {
            assert forall|j: int|
                0 <= j < bs.len() && j != si && within(bs[si as int].position, bs[j].position, VIEW_RADIUS_CM as int)
                implies examined@.contains(#[trigger] bs[j].id) by {
                visible_lies_in_block(VIEW_RADIUS_CM, VIEW_RADIUS_CM, bs[si as int].position, bs[j].position);
                let target = cell_at(VIEW_RADIUS_CM as int, bs[j].position);
                let c = choose|c: int| 0 <= c < block@.len() && block@[c] == target;
                assert(located(bs, target, bs[j].id));
                assert(member(cells, target, bs[j].id));
                let k = choose|k: int|
                    0 <= k < cells.len() && cells[k].coord == target && cells[k].occupants@.contains(bs[j].id);
                assert(bs[j].id != sid);
            }
        }
        examined
    }


    /// Recomputes what slot `si` perceives, and symmetrically what the others
    /// perceive of it. Examined are the entities it perceived before (without
    /// them, an entity that left the block would never be told it vanished)
    /// and the occupants of the nine surrounding cells.
    fn refresh_visibility(&mut self, si: usize) -> (r: Vec<Delivery>)
        requires
            old(self).ready(si as int),
        ensures
            final(self).wf(),
            final(self).grid == old(self).grid,
            final(self).bodies@ == old(self).bodies@,
            final(self).cells@ == old(self).cells@,
            r@.no_duplicates(),
            forall|d: Delivery| #[trigger] r@.contains(d) <==> refresh_notice(
                old(self)@,
                old(self).bodies@[si as int].id,
                old(self).sight@[si as int]@.to_set(),
                d,
            ),
    {
        let ghost bs = self.bodies@;
        let ghost sight0 = self.sight@;
        let ghost w0 = self@;
        let sid = self.bodies[si].id;
        let sp = self.bodies[si].position;
        let before: Vec<u64> = self.sight[si].clone();
        proof {
            assert(before@ =~= sight0[si as int]@);
            model_at(bs, sight0, si as int);
        }
        let ghost bset = before@.to_set();
        let examined = self.candidates(si, &before);
        let mut out: Vec<Delivery> = Vec::new();
        let mut j: usize = 0;
        proof {
            assert(examined@.subrange(0, 0) =~= Seq::<u64>::empty());
        }
        while j < examined.len()
            invariant
                self.grid == old(self).grid,
                self.grid.side() == VIEW_RADIUS_CM,
                self.bodies@ == bs,
                self.cells@ == old(self).cells@,
                index_ok(bs, self.cells@),
                distinct(bs),
                0 <= si < bs.len(),
                sid == bs[si as int].id,
                sp == bs[si as int].position,
                w0 == model(bs, sight0),
                w0[sid].position == sp,
                bset == before@.to_set(),
                before@ == sight0[si as int]@,
                j <= examined@.len(),
                examined@.no_duplicates(),
                forall|v: u64| #[trigger] examined@.contains(v) ==> holds(bs, v) && v != sid,
                forall|v: u64| #[trigger] before@.contains(v) ==> examined@.contains(v),
                forall|k: int|
                    0 <= k < bs.len() && k != si && within(sp, bs[k].position, VIEW_RADIUS_CM as int)
                        ==> examined@.contains(#[trigger] bs[k].id),
                sight_shape(bs, self.sight@),
                exact_off(bs, self.sight@, si as int),
                settled(bs, self.sight@, si as int, examined@.subrange(0, j as int)),
                pending(bs, self.sight@, si as int, examined@.subrange(0, j as int), before@),
                out@.no_duplicates(),
                forall|d: Delivery| #[trigger] out@.contains(d) ==> refresh_notice(w0, sid, bset, d)
                    && examined@.subrange(0, j as int).contains(partner(sid, d)),
                forall|d: Delivery| refresh_notice(w0, sid, bset, d) && examined@.subrange(0, j as int).contains(
                    partner(sid, d)) ==> #[trigger] out@.contains(d),
            decreases examined@.len() - j,
        {
            let o = examined[j];
            let ghost done = examined@.subrange(0, j as int);
            let ghost sight_prev = self.sight@;
            let ghost out_prev = out@;
            proof {
                assert(examined@.contains(o));
                assert(examined@.subrange(0, j as int + 1) =~= done.push(o));
                assert(!done.contains(o)) by {
                    if done.contains(o) {
                        let u = choose|u: int| 0 <= u < j && done[u] == o;
                        assert(examined@[u] == examined@[j as int]);
                    }
                }
            }
            match self.find(o) {
                None => {},
                Some(oi) => {
                    let op = self.bodies[oi].position;
                    let now = sp.is_within(op, VIEW_RADIUS_CM);
                    let was = includes(&before, o);
                    proof {
                        model_at(bs, sight0, oi as int);
                        assert(oi != si);
                        assert(was == bset.contains(o));
                    }
                    if !was && now {
                        self.link(si, oi);
                        out.push(Delivery { recipient: sid, event: WorldEvent::EntityAppeared { entity_id: o, x: op.x, y: op.y } });
                        out.push(Delivery { recipient: o, event: WorldEvent::EntityAppeared { entity_id: sid, x: sp.x, y: sp.y } });
                    } else if was && !now {
                        self.unlink(si, oi);
                        out.push(Delivery { recipient: sid, event: WorldEvent::EntityVanished { entity_id: o } });
                        out.push(Delivery { recipient: o, event: WorldEvent::EntityVanished { entity_id: sid } });
                    } else if was && now {
                        out.push(Delivery { recipient: o, event: WorldEvent::EntityMoved { entity_id: sid, x: sp.x, y: sp.y } });
                    }
                    proof {
                        sight_step(bs, sight_prev, self.sight@, si as int, oi as int, done, before@);
                        assert(out@ =~= out_prev + notices_for(w0, sid, bset, o));
                        notices_step(w0, sid, bset, out_prev, out@, done, o);
                    }
                },
            }
            j += 1;
        }
        proof {
            let fin = self.sight@;
            assert(examined@.subrange(0, examined@.len() as int) =~= examined@);
            assert forall|i: int, k: int|
                0 <= i < bs.len() && 0 <= k < bs.len() && i != k implies (#[trigger] fin[i]@.contains(bs[k].id)
                <==> within(bs[i].position, bs[k].position, VIEW_RADIUS_CM as int)) by {
                if i == si as int {
                    if !examined@.contains(bs[k].id) {
                        assert(!before@.contains(bs[k].id));
                    }
                } else if k == si as int {
                    distance_is_symmetric(bs[i].position, bs[k].position);
                    if !examined@.contains(bs[i].id) {
                        assert(!before@.contains(bs[i].id));
                    }
                }
            }
            assert(sight_ok(bs, fin));
            assert forall|d: Delivery| #[trigger] out@.contains(d) <==> refresh_notice(w0, sid, bset, d) by {
                if refresh_notice(w0, sid, bset, d) {
                    notice_partner(w0, sid, bset, d);
                    let o = partner(sid, d);
                    let k = slot(bs, o);
                    assert(bs[k].id == o);
                    if !bset.contains(o) {
                        assert(w0[o].position == bs[k].position);
                        assert(examined@.contains(bs[k].id));
                    } else {
                        assert(before@.contains(o));
                    }
                }
            }
        }
        out
    }


    /// Lists `v` in cell `c`, creating the cell when absent.
    fn cell_insert(&mut self, c: CellCoord, v: u64)
        requires
            cells_shape(old(self).cells@),
        ensures
            cells_shape(final(self).cells@),
            final(self).grid == old(self).grid,
            final(self).bodies@ == old(self).bodies@,
            final(self).sight@ == old(self).sight@,
            forall|c2: CellCoord, v2: u64| #[trigger] member(final(self).cells@, c2, v2) <==> (member(old(self).cells@, c2, v2)
                || (c2 == c && v2 == v)),
    {
        let ghost before = self.cells@;
        match self.find_cell(c) {
            Some(k) => {
                let mut cell = Cell { coord: c, occupants: Vec::new() };
                self.cells.set_and_swap(k, &mut cell);
                let ghost occ0 = cell.occupants@;
                add_unique(&mut cell.occupants, v);
                proof {
                    with_added_facts(occ0, v);
                    assert(occ0 == before[k as int].occupants@);
                }
                self.cells.set(k, cell);
                proof {
                    let after = self.cells@;
                    assert forall|k2: int| 0 <= k2 < after.len() && k2 != k implies after[k2] == before[k2] by {}
                    assert forall|c2: CellCoord, v2: u64| #[trigger] member(after, c2, v2) <==> (member(before, c2, v2)
                        || (c2 == c && v2 == v)) by {
                        if member(after, c2, v2) {
                            let k2 = choose|k2: int| 0 <= k2 < after.len() && after[k2].coord == c2 && #[trigger] after[k2].occupants@.contains(v2);
                            if k2 != k && !(c2 == c && v2 == v) {
                                assert(before[k2].occupants@.contains(v2));
                            } else if k2 == k as int && !(c2 == c && v2 == v) {
                                assert(before[k2].occupants@.contains(v2));
                            }
                        }
                        if member(before, c2, v2) {
                            let k2 = choose|k2: int| 0 <= k2 < before.len() && before[k2].coord == c2 && #[trigger] before[k2].occupants@.contains(v2);
                            if k2 != k {
                                assert(after[k2].occupants@.contains(v2));
                            } else {
                                assert(after[k2].occupants@.contains(v2));
                            }
                        }
                        if c2 == c && v2 == v {
                            assert(after[k as int].occupants@.contains(v2));
                        }
                    }
                }
            },
            None => {
                let mut occupants: Vec<u64> = Vec::new();
                occupants.push(v);
                self.cells.push(Cell { coord: c, occupants });
                proof {
                    let after = self.cells@;
                    let n = before.len() as int;
                    assert(after[n].occupants@[0] == v);
                    assert forall|c2: CellCoord, v2: u64| #[trigger] member(after, c2, v2) <==> (member(before, c2, v2)
                        || (c2 == c && v2 == v)) by {
                        if member(after, c2, v2) {
                            let k2 = choose|k2: int| 0 <= k2 < after.len() && after[k2].coord == c2 && #[trigger] after[k2].occupants@.contains(v2);
                            if k2 < n {
                                assert(before[k2] == after[k2]);
                            } else {
                                let u = choose|u: int| 0 <= u < after[k2].occupants@.len() && after[k2].occupants@[u] == v2;
                            }
                        }
                        if member(before, c2, v2) {
                            let k2 = choose|k2: int| 0 <= k2 < before.len() && before[k2].coord == c2 && #[trigger] before[k2].occupants@.contains(v2);
                            assert(after[k2] == before[k2]);
                        }
                        if c2 == c && v2 == v {
                            assert(after[n].occupants@.contains(v2));
                        }
                    }
                }
            },
        }
    }

    /// Withdraws `v` from cell `c`, dropping the cell once empty: without
    /// that, a long walk across the map would leave empty cells behind.
    fn cell_remove(&mut self, c: CellCoord, v: u64)
        requires
            cells_shape(old(self).cells@),
        ensures
            cells_shape(final(self).cells@),
            final(self).grid == old(self).grid,
            final(self).bodies@ == old(self).bodies@,
            final(self).sight@ == old(self).sight@,
            final(self).cells@.len() <= old(self).cells@.len(),
            forall|c2: CellCoord, v2: u64| #[trigger] member(final(self).cells@, c2, v2) <==> (member(old(self).cells@, c2, v2)
                && !(c2 == c && v2 == v)),
    {
        let ghost before = self.cells@;
        match self.find_cell(c) {
            None => {
                proof {
                    assert forall|c2: CellCoord, v2: u64| #[trigger] member(before, c2, v2) implies !(c2 == c && v2 == v) by {
                        let k2 = choose|k2: int| 0 <= k2 < before.len() && before[k2].coord == c2 && #[trigger] before[k2].occupants@.contains(v2);
                    }
                }
            },
            Some(k) => {
                let mut cell = Cell { coord: c, occupants: Vec::new() };
                self.cells.set_and_swap(k, &mut cell);
                let ghost occ0 = cell.occupants@;
                proof {
                    assert(occ0 == before[k as int].occupants@);
                }
                remove_value(&mut cell.occupants, v);
                if cell.occupants.len() == 0 {
                    self.cells.remove(k);
                    proof {
                        let after = self.cells@;
                        assert(after =~= before.subrange(0, k as int) + before.subrange(k as int + 1, before.len() as int));
                        assert forall|c2: CellCoord, v2: u64| #[trigger] member(after, c2, v2) <==> (member(before, c2, v2)
                            && !(c2 == c && v2 == v)) by {
                            if member(after, c2, v2) {
                                let k2 = choose|k2: int| 0 <= k2 < after.len() && after[k2].coord == c2 && #[trigger] after[k2].occupants@.contains(v2);
                                let k0 = if k2 < k { k2 } else { k2 + 1 };
                                assert(after[k2] == before[k0]);
                                assert(before[k0].occupants@.contains(v2));
                            }
                            if member(before, c2, v2) && !(c2 == c && v2 == v) {
                                let k2 = choose|k2: int| 0 <= k2 < before.len() && before[k2].coord == c2 && #[trigger] before[k2].occupants@.contains(v2);
                                if k2 == k {
                                    assert(cell.occupants@.contains(v2));
                                } else if k2 < k {
                                    assert(after[k2] == before[k2]);
                                } else {
                                    assert(after[k2 - 1] == before[k2]);
                                }
                            }
                        }
                        assert forall|a: int, b: int| 0 <= a < after.len() && 0 <= b < after.len() && a != b implies after[a].coord
                            != after[b].coord by {
                            let a0 = if a < k { a } else { a + 1 };
                            let b0 = if b < k { b } else { b + 1 };
                            assert(after[a] == before[a0]);
                            assert(after[b] == before[b0]);
                        }
                        assert forall|a: int| 0 <= a < after.len() implies (#[trigger] after[a]).occupants@.len() > 0
                            && after[a].occupants@.no_duplicates() by {
                            let a0 = if a < k { a } else { a + 1 };
                            assert(after[a] == before[a0]);
                        }
                    }
                } else {
                    self.cells.set(k, cell);
                    proof {
                        let after = self.cells@;
                        assert forall|c2: CellCoord, v2: u64| #[trigger] member(after, c2, v2) <==> (member(before, c2, v2)
                            && !(c2 == c && v2 == v)) by {
                            if member(after, c2, v2) {
                                let k2 = choose|k2: int| 0 <= k2 < after.len() && after[k2].coord == c2 && #[trigger] after[k2].occupants@.contains(v2);
                                if k2 != k {
                                    assert(before[k2] == after[k2]);
                                } else {
                                    assert(before[k2].occupants@.contains(v2));
                                }
                            }
                            if member(before, c2, v2) && !(c2 == c && v2 == v) {
                                let k2 = choose|k2: int| 0 <= k2 < before.len() && before[k2].coord == c2 && #[trigger] before[k2].occupants@.contains(v2);
                                if k2 == k {
                                    assert(after[k2].occupants@.contains(v2));
                                } else {
                                    assert(after[k2] == before[k2]);
                                }
                            }
                        }
                        assert forall|a: int| 0 <= a < after.len() implies (#[trigger] after[a]).occupants@.len() > 0
                            && after[a].occupants@.no_duplicates() by {
                            if a != k {
                                assert(after[a] == before[a]);
                            }
                        }
                    }
                }
            },
        }
    }


    /// Moves slot `si` from the cell of `from` to the cell of its position
    /// (already updated) in the index, when the move crosses a cell border.
    fn reindex(&mut self, si: usize, from: Position, Ghost(prev): Ghost<Seq<Body>>)
        requires
            distinct(prev),
            si < prev.len(),
            prev[si as int].position == from,
            index_ok(prev, old(self).cells@),
            old(self).grid.side() == VIEW_RADIUS_CM,
            old(self).bodies@.len() == prev.len(),
            old(self).bodies@[si as int].id == prev[si as int].id,
            forall|i: int| 0 <= i < prev.len() && i != si ==> #[trigger] old(self).bodies@[i] == prev[i],
        ensures
            final(self).grid == old(self).grid,
            final(self).bodies@ == old(self).bodies@,
            final(self).sight@ == old(self).sight@,
            index_ok(final(self).bodies@, final(self).cells@),
    {
        let ghost next = self.bodies@;
        let id = self.bodies[si].id;
        let to = self.bodies[si].position;
        proof {
            located_after_move(prev, next, si as int);
        }
        if !self.grid.crosses_cell(from, to) {
            proof {
                assert forall|c: CellCoord, v: u64| #![trigger member(self.cells@, c, v)] #![trigger located(next, c, v)]
                    member(self.cells@, c, v) <==> located(next, c, v) by {
                    if v != id {
                        assert(located(next, c, v) == located(prev, c, v));
                    } else {
                        assert(located(next, c, v) == located(prev, c, v));
                    }
                }
            }
            return;
        }
        let before = self.grid.cell_of(from);
        let after = self.grid.cell_of(to);
        let ghost cells0 = self.cells@;
        self.cell_remove(before, id);
        let ghost cells1 = self.cells@;
        self.cell_insert(after, id);
        proof {
            assert forall|c: CellCoord, v: u64| #![trigger member(self.cells@, c, v)] #![trigger located(next, c, v)]
                member(self.cells@, c, v) <==> located(next, c, v) by {
                assert(member(self.cells@, c, v) <==> (member(cells1, c, v) || (c == after && v == id)));
                assert(member(cells1, c, v) <==> (member(cells0, c, v) && !(c == before && v == id)));
                assert(member(cells0, c, v) <==> located(prev, c, v));
                if v != id {
                    assert(located(next, c, v) == located(prev, c, v));
                } else {
                    assert(located(next, c, id) <==> c == after);
                    assert(located(prev, c, id) <==> c == before);
                }
            }
        }
    }

    /// Handles a move claimed by a client. `elapsed_ms` is measured by the
    /// server, never announced by the client.
    ///
    /// Absent entity: nothing happens. A dead entity, or one moving faster
    /// than its rule admits, stays put and is told its position again, so
    /// that the client resynchronises. Otherwise the entity moves and the
    /// perception around it is recomputed.
    fn request_move(&mut self, id: EntityId, x: i32, y: i32, elapsed_ms: u64) -> (r: Vec<Delivery>)
        requires
            old(self).wf(),
        ensures
            final(self).wf(),
            !old(self)@.contains_key(id) ==> r@ == Seq::<Delivery>::empty() && final(self)@ == old(self)@,
            old(self)@.contains_key(id) && (old(self)@[id].character@.health == 0 || !move_admitted(
                old(self)@[id].rule,
                old(self)@[id].position,
                Position { x, y },
                elapsed_ms,
            )) ==> {
                &&& r@ == seq![Delivery { recipient: id, event: WorldEvent::MoveRejected { x: old(self)@[id].position.x, y: old(self)@[id].position.y } }]
                &&& final(self)@ == old(self)@
            },
            old(self)@.contains_key(id) && old(self)@[id].character@.health > 0 && move_admitted(
                old(self)@[id].rule,
                old(self)@[id].position,
                Position { x, y },
                elapsed_ms,
            ) ==> {
                &&& others_kept(old(self)@, final(self)@, id)
                &&& final(self)@[id].position == (Position { x, y })
                &&& final(self)@[id].rule == old(self)@[id].rule
                &&& final(self)@[id].combat == old(self)@[id].combat
                &&& final(self)@[id].character == old(self)@[id].character
                &&& r@.no_duplicates()
                &&& forall|d: Delivery| #[trigger] r@.contains(d) <==> refresh_notice(final(self)@, id, old(self)@[id].visible, d)
            },
    {
        let target = Position::new(x, y);
        let si = match self.find(id) {
            None => {
                return Vec::new();
            },
            Some(i) => i,
        };
        proof {
            model_at(self.bodies@, self.sight@, si as int);
        }
        let body = self.bodies[si];
        let from = body.position;
        if !body.character.is_alive() {
            let mut r: Vec<Delivery> = Vec::new();
            r.push(Delivery { recipient: id, event: WorldEvent::MoveRejected { x: from.x, y: from.y } });
            return r;
        }
        match body.rule.verify(from, target, elapsed_ms) {
            MoveVerdict::TooFast { .. } => {
                let mut r: Vec<Delivery> = Vec::new();
                r.push(Delivery { recipient: id, event: WorldEvent::MoveRejected { x: from.x, y: from.y } });
                return r;
            },
            MoveVerdict::Accepted => {},
        }
        let ghost w_old = self@;
        let ghost prev = self.bodies@;
        let ghost sight0 = self.sight@;
        let moved = Body { position: target, ..body };
        self.bodies.set(si, moved);
        proof {
            assert forall|i: int| 0 <= i < prev.len() implies #[trigger] self.bodies@[i].id == prev[i].id by {}
            same_ids_model(prev, self.bodies@, sight0, self.sight@);
        }
        self.reindex(si, from, Ghost(prev));
        proof {
            let bs = self.bodies@;
            assert forall|i: int, j: int|
                0 <= i < bs.len() && 0 <= j < bs.len() && i != j && i != si && j != si implies (
                #[trigger] self.sight@[i]@.contains(bs[j].id) <==> within(bs[i].position, bs[j].position, VIEW_RADIUS_CM as int)) by {
                assert(bs[i] == prev[i]);
                assert(bs[j] == prev[j]);
            }
            assert forall|j: int| 0 <= j < bs.len() && j != si implies (#[trigger] self.sight@[si as int]@.contains(bs[j].id)
                <==> self.sight@[j]@.contains(bs[si as int].id)) by {
                assert(bs[j] == prev[j]);
                distance_is_symmetric(prev[si as int].position, prev[j].position);
            }
            assert forall|i: int, v: u64| 0 <= i < self.sight@.len() && (#[trigger] self.sight@[i]@.contains(v)) implies holds(bs, v)
                && v != bs[i].id by {
                assert(holds(prev, v));
                let k = choose|k: int| 0 <= k < prev.len() && prev[k].id == v;
                assert(bs[k].id == v);
            }
        }
        let ghost w_mid = self@;
        let r = self.refresh_visibility(si);
        proof {
            let bs = self.bodies@;
            same_ids_model(prev, bs, sight0, self.sight@);
            same_ids_model(prev, bs, sight0, sight0);
            assert(w_mid == model(bs, sight0));
            assert forall|k: u64| w_mid.contains_key(k) implies #[trigger] w_mid[k].position == self@[k].position by {}
            assert forall|d: Delivery| #[trigger] r@.contains(d) <==> refresh_notice(self@, id, w_old[id].visible, d) by {
                notice_depends_on_positions(w_mid, self@, id, w_old[id].visible, d);
                assert(sight0[si as int]@.to_set() == w_old[id].visible);
            }
            assert forall|k: u64| w_old.contains_key(k) && k != id implies #[trigger] self@[k].position == w_old[k].position
                && self@[k].rule == w_old[k].rule && self@[k].combat == w_old[k].combat && self@[k].character
                == w_old[k].character by {
                let i = slot(prev, k);
                assert(prev[i].id == k);
                assert(i != si);
                assert(bs[i] == prev[i]);
            }
        }
        r
    }


    /// Removes slot `si` from the registry: from its cell, from the
    /// perception of those who perceived it, and from the registry itself.
    /// Returns the notice owed to each of them.
    fn detach(&mut self, si: usize) -> (r: Vec<Delivery>)
        requires
            old(self).wf(),
            si < old(self).bodies@.len(),
        ensures
            final(self).wf(),
            final(self)@.dom() == old(self)@.dom().remove(old(self).bodies@[si as int].id),
            forall|k: u64|
                #![trigger final(self)@[k]]
                final(self)@.contains_key(k) ==> final(self)@[k].position == old(self)@[k].position && final(self)@[k].rule
                    == old(self)@[k].rule && final(self)@[k].combat == old(self)@[k].combat
                    && final(self)@[k].character == old(self)@[k].character,
            r@.no_duplicates(),
            forall|d: Delivery| #[trigger] r@.contains(d) <==> (d.event == WorldEvent::EntityVanished {
                entity_id: old(self).bodies@[si as int].id,
            } && old(self)@[old(self).bodies@[si as int].id].visible.contains(d.recipient)),
    {
        let ghost bs = self.bodies@;
        let ghost sight0 = self.sight@;
        let ghost w0 = self@;
        let id = self.bodies[si].id;
        let position = self.bodies[si].position;
        proof {
            model_at(bs, sight0, si as int);
        }
        let watchers: Vec<u64> = self.sight[si].clone();
        proof {
            assert(watchers@ =~= sight0[si as int]@);
        }
        let mut out: Vec<Delivery> = Vec::new();
        let mut t: usize = 0;
        while t < watchers.len()
            invariant
                self.grid == old(self).grid,
                self.bodies@ == bs,
                self.cells@ == old(self).cells@,
                self.sight@.len() == sight0.len(),
                sight0.len() == bs.len(),
                distinct(bs),
                0 <= si < bs.len(),
                id == bs[si as int].id,
                watchers@ == sight0[si as int]@,
                watchers@.no_duplicates(),
                t <= watchers@.len(),
                forall|v: u64| #[trigger] watchers@.contains(v) ==> holds(bs, v) && v != id,
                forall|i: int| 0 <= i < bs.len() ==> (#[trigger] sight0[i])@.no_duplicates(),
                forall|i: int| 0 <= i < bs.len() ==> (#[trigger] self.sight@[i])@.no_duplicates(),
                forall|i: int, y: u64|
                    0 <= i < bs.len() ==> (#[trigger] self.sight@[i]@.contains(y) <==> (sight0[i]@.contains(y) && !(y
                        == id && watchers@.subrange(0, t as int).contains(bs[i].id)))),
                out@ == watchers@.subrange(0, t as int).map_values(|w: u64| Delivery { recipient: w, event: WorldEvent::EntityVanished { entity_id: id } }),
            decreases watchers@.len() - t,
        {
            let w = watchers[t];
            let ghost sight_prev = self.sight@;
            proof {
                assert(watchers@.contains(w));
                assert(watchers@.subrange(0, t as int + 1) =~= watchers@.subrange(0, t as int).push(w));
            }
            match self.find(w) {
                None => {},
                Some(wi) => {
                    let mut list: Vec<u64> = Vec::new();
                    self.sight.set_and_swap(wi, &mut list);
                    remove_value(&mut list, id);
                    self.sight.set(wi, list);
                    proof {
                        assert forall|i: int, y: u64| 0 <= i < bs.len() implies (#[trigger] self.sight@[i]@.contains(y) <==> (
                            sight0[i]@.contains(y) && !(y == id && watchers@.subrange(0, t as int + 1).contains(bs[i].id)))) by {
                            let s1 = watchers@.subrange(0, t as int);
                            let s2 = watchers@.subrange(0, t as int + 1);
                            assert(s2.contains(bs[i].id) <==> (s1.contains(bs[i].id) || bs[i].id == w)) by {
                                if s2.contains(bs[i].id) && bs[i].id != w {
                                    let u = choose|u: int| 0 <= u < s2.len() && s2[u] == bs[i].id;
                                    assert(s1[u] == bs[i].id);
                                }
                                if s1.contains(bs[i].id) {
                                    let u = choose|u: int| 0 <= u < s1.len() && s1[u] == bs[i].id;
                                    assert(s2[u] == bs[i].id);
                                }
                                assert(s2[t as int] == w);
                            }
                            if i != wi {
                                assert(bs[i].id != w);
                                assert(self.sight@[i] == sight_prev[i]);
                            }
                        }
                    }
                    out.push(Delivery { recipient: w, event: WorldEvent::EntityVanished { entity_id: id } });
                },
            }
            proof {
                assert(out@ =~= watchers@.subrange(0, t as int + 1).map_values(|w: u64| Delivery { recipient: w, event: WorldEvent::EntityVanished { entity_id: id } }));
            }
            t += 1;
        }
        proof {
            assert(watchers@.subrange(0, watchers@.len() as int) =~= watchers@);
        }
        let ghost sight1 = self.sight@;
        let ghost cells0 = self.cells@;
        let cell = self.grid.cell_of(position);
        self.cell_remove(cell, id);
        self.bodies.remove(si);
        self.sight.remove(si);
        proof {
            let b2 = self.bodies@;
            let s2 = self.sight@;
            removed_slots(bs, si as int);
            assert(b2 == bs.remove(si as int));
            assert forall|i: int| 0 <= i < b2.len() implies #[trigger] s2[i] == sight1[if i < si { i } else { i + 1 }] by {}
            // no perception list names the departed entity any more
            assert forall|i: int| 0 <= i < bs.len() && i != si implies !(#[trigger] sight1[i])@.contains(id) by {
                if sight0[i]@.contains(id) {
                    assert(sight0[i]@.contains(bs[si as int].id));
                    assert(within(bs[i].position, bs[si as int].position, VIEW_RADIUS_CM as int));
                    distance_is_symmetric(bs[i].position, bs[si as int].position);
                    assert(sight0[si as int]@.contains(bs[i].id));
                }
            }
            assert forall|i: int| 0 <= i < s2.len() implies (#[trigger] s2[i])@.no_duplicates() by {
                let o = if i < si { i } else { i + 1 };
                assert(s2[i] == sight1[o]);
            }
            assert forall|i: int, v: u64| 0 <= i < s2.len() && (#[trigger] s2[i]@.contains(v)) implies holds(b2, v) && v != b2[i].id by {
                let o = if i < si { i } else { i + 1 };
                assert(s2[i] == sight1[o]);
                assert(sight0[o]@.contains(v));
                assert(v != id);
                assert(b2[i] == bs[o]);
            }
            assert forall|i: int, j: int| 0 <= i < b2.len() && 0 <= j < b2.len() && i != j implies (#[trigger] s2[i]@.contains(b2[j].id)
                <==> within(b2[i].position, b2[j].position, VIEW_RADIUS_CM as int)) by {
                let oi = if i < si { i } else { i + 1 };
                let oj = if j < si { j } else { j + 1 };
                assert(s2[i] == sight1[oi]);
                assert(b2[i] == bs[oi]);
                assert(b2[j] == bs[oj]);
                assert(bs[oj].id != id);
                assert(sight1[oi]@.contains(bs[oj].id) <==> sight0[oi]@.contains(bs[oj].id));
            }
            assert(sight_ok(b2, s2));
            assert forall|c: CellCoord, v: u64| #![trigger member(self.cells@, c, v)] #![trigger located(b2, c, v)]
                member(self.cells@, c, v) <==> located(b2, c, v) by {
                located_after_move(bs, bs, si as int);
                assert(member(cells0, c, v) <==> located(bs, c, v));
            }
            assert(index_ok(b2, self.cells@));
            // the model
            assert forall|k: u64| #[trigger] holds(b2, k) implies slot(b2, k) == (if slot(bs, k) < si { slot(bs, k) } else { slot(bs, k) - 1 }) by {
                let o = slot(bs, k);
                assert(bs[o].id == k);
                let i = if o < si { o } else { o - 1 };
                assert(b2[i] == bs[o]);
                slot_of_index(b2, i);
            }
            assert(self@.dom() =~= w0.dom().remove(id));
            assert forall|k: u64| self@.contains_key(k) implies #[trigger] self@[k].position == w0[k].position && self@[k].rule == w0[k].rule
                && self@[k].combat == w0[k].combat && self@[k].character == w0[k].character by {
                let o = slot(bs, k);
                assert(bs[o].id == k);
                let i = if o < si { o } else { o - 1 };
                assert(b2[i] == bs[o]);
            }
            // the notices
            assert forall|a: int, b: int| 0 <= a < out@.len() && 0 <= b < out@.len() && a != b implies out@[a] != out@[b] by {
                assert(out@[a].recipient == watchers@[a]);
                assert(out@[b].recipient == watchers@[b]);
            }
            assert forall|d: Delivery| #[trigger] out@.contains(d) <==> (d.event == WorldEvent::EntityVanished { entity_id: id }
                && w0[id].visible.contains(d.recipient)) by {
                if out@.contains(d) {
                    let u = choose|u: int| 0 <= u < out@.len() && out@[u] == d;
                    assert(watchers@[u] == d.recipient);
                }
                if d.event == (WorldEvent::EntityVanished { entity_id: id }) && w0[id].visible.contains(d.recipient) {
                    assert(watchers@.contains(d.recipient));
                    let u = choose|u: int| 0 <= u < watchers@.len() && watchers@[u] == d.recipient;
                    assert(out@[u] == d);
                }
            }
        }
        out
    }

    /// Removes an entity and tells those who perceived it that it vanished.
    /// Leaving twice is harmless.
    fn leave(&mut self, id: EntityId) -> (r: Vec<Delivery>)
        requires
            old(self).wf(),
        ensures
            final(self).wf(),
            !old(self)@.contains_key(id) ==> r@ == Seq::<Delivery>::empty() && final(self)@ == old(self)@,
            old(self)@.contains_key(id) ==> {
                &&& final(self)@.dom() == old(self)@.dom().remove(id)
                &&& forall|k: u64|
                    #![trigger final(self)@[k]]
                    final(self)@.contains_key(k) ==> final(self)@[k].position == old(self)@[k].position && final(self)@[k].rule
                        == old(self)@[k].rule && final(self)@[k].combat == old(self)@[k].combat
                        && final(self)@[k].character == old(self)@[k].character
                &&& r@.no_duplicates()
                &&& forall|d: Delivery| #[trigger] r@.contains(d) <==> (d.event == WorldEvent::EntityVanished { entity_id: id }
                    && old(self)@[id].visible.contains(d.recipient))
            },
    {
        match self.find(id) {
            None => Vec::new(),
            Some(si) => self.detach(si),
        }
    }


    /// Brings an entity into the world at its spawn point and tells it where
    /// it stands, then who is around (the notices of a refresh from an empty
    /// perception). Returns the spawn position.
    ///
    /// An identifier already present is first taken out silently, so that
    /// perception stays symmetric.
    fn enter(&mut self, id: EntityId) -> (r: (Position, Vec<Delivery>))
        requires
            old(self).wf(),
        ensures
            final(self).wf(),
            r.0 == spawn_at(id),
            final(self)@.dom() == old(self)@.dom().insert(id),
            forall|k: u64|
                #![trigger final(self)@[k]]
                old(self)@.contains_key(k) && k != id ==> final(self)@[k].position == old(self)@[k].position
                    && final(self)@[k].rule == old(self)@[k].rule && final(self)@[k].combat == old(self)@[k].combat
                    && final(self)@[k].character == old(self)@[k].character,
            final(self)@[id].position == spawn_at(id),
            final(self)@[id].rule.pace() == 700,
            final(self)@[id].rule.margin() == MovementRule::DEFAULT_TOLERANCE_CM,
            final(self)@[id].combat.reach() == CombatRule::MELEE_RANGE_CM,
            final(self)@[id].combat.cadence() == CombatRule::DEFAULT_COOLDOWN_MS,
            newcomer(final(self)@[id].character, id),
            r.1@.len() >= 1,
            r.1@[0] == (Delivery { recipient: id, event: WorldEvent::WorldEntered { entity_id: id, x: spawn_at(id).x, y: spawn_at(id).y } }),
            r.1@.drop_first().no_duplicates(),
            forall|d: Delivery| #[trigger] r.1@.drop_first().contains(d) <==> refresh_notice(final(self)@, id, Set::empty(), d),
    {
        let position = spawn_position(id);
        let ghost w_start = self@;
        match self.find(id) {
            Some(si) => {
                let _ = self.detach(si);
            },
            None => {},
        }
        let ghost w1 = self@;
        let ghost bs1 = self.bodies@;
        let ghost sight1 = self.sight@;
        let ghost cells1 = self.cells@;
        proof {
            assert(!holds(bs1, id)) by {
                if holds(bs1, id) {
                    assert(w1.contains_key(id));
                }
            }
        }
        let character = Character::create(CharacterId::new(id), starting_attributes(), ProgressionCurve::standard());
        let body = Body { id, position, rule: MovementRule::running(), combat: CombatRule::melee(), character };
        self.bodies.push(body);
        self.sight.push(Vec::new());
        let cell = self.grid.cell_of(position);
        self.cell_insert(cell, id);
        let si = self.bodies.len() - 1;
        proof {
            let bs = self.bodies@;
            let n = bs1.len() as int;
            assert(si == n);
            assert forall|i: int| 0 <= i < n implies #[trigger] bs[i] == bs1[i] by {}
            assert forall|v: u64| #[trigger] holds(bs, v) <==> (holds(bs1, v) || v == id) by {
                if holds(bs, v) && v != id {
                    let i = choose|i: int| 0 <= i < bs.len() && bs[i].id == v;
                    assert(bs1[i].id == v);
                }
                if holds(bs1, v) {
                    let i = choose|i: int| 0 <= i < bs1.len() && bs1[i].id == v;
                    assert(bs[i].id == v);
                }
                assert(bs[n].id == id);
            }
            assert forall|i: int, j: int| 0 <= i < bs.len() && 0 <= j < bs.len() && i != j implies bs[i].id != bs[j].id by {
                if i == n {
                    assert(bs1[j].id == bs[j].id);
                } else if j == n {
                    assert(bs1[i].id == bs[i].id);
                }
            }
            assert forall|c: CellCoord, v: u64| #[trigger] located(bs, c, v) <==> (located(bs1, c, v) || (c == cell && v == id)) by {
                if located(bs, c, v) {
                    let i = choose|i: int| 0 <= i < bs.len() && bs[i].id == v && cell_at(VIEW_RADIUS_CM as int, #[trigger] bs[i].position) == c;
                    if i < n {
                        assert(bs1[i] == bs[i]);
                    }
                }
                if located(bs1, c, v) {
                    let i = choose|i: int| 0 <= i < bs1.len() && bs1[i].id == v && cell_at(VIEW_RADIUS_CM as int, #[trigger] bs1[i].position) == c;
                    assert(bs[i] == bs1[i]);
                }
                if c == cell && v == id {
                    assert(cell_at(VIEW_RADIUS_CM as int, bs[n].position) == c);
                }
            }
            assert forall|c: CellCoord, v: u64| #![trigger member(self.cells@, c, v)] #![trigger located(bs, c, v)]
                member(self.cells@, c, v) <==> located(bs, c, v) by {
                assert(member(cells1, c, v) <==> located(bs1, c, v));
            }
            let sg = self.sight@;
            assert forall|i: int| 0 <= i < n implies #[trigger] sg[i] == sight1[i] by {}
            assert(sg[n]@ =~= Seq::<u64>::empty());
            assert forall|i: int, v: u64| 0 <= i < sg.len() && (#[trigger] sg[i]@.contains(v)) implies holds(bs, v) && v != bs[i].id by {
                if i < n {
                    assert(sight1[i]@.contains(v));
                }
            }
            assert forall|i: int, j: int|
                0 <= i < bs.len() && 0 <= j < bs.len() && i != j && i != n && j != n implies (
                #[trigger] sg[i]@.contains(bs[j].id) <==> within(bs[i].position, bs[j].position, VIEW_RADIUS_CM as int)) by {
                assert(sight1[i]@.contains(bs1[j].id) <==> within(bs1[i].position, bs1[j].position, VIEW_RADIUS_CM as int));
            }
            assert forall|j: int| 0 <= j < bs.len() && j != n implies (#[trigger] sg[n]@.contains(bs[j].id) <==> sg[j]@.contains(bs[n].id)) by {
                assert(!sight1[j]@.contains(id)) by {
                    if sight1[j]@.contains(id) {
                        assert(holds(bs1, id));
                    }
                }
            }
            assert(self.ready(si as int));
        }
        let ghost w_mid = self@;
        let ghost sight_mid = self.sight@;
        proof {
            assert(sight_mid[si as int]@ =~= Seq::<u64>::empty());
            assert(sight_mid[si as int]@.to_set() =~= Set::<u64>::empty());
        }
        let mut notices = self.refresh_visibility(si);
        let mut out: Vec<Delivery> = Vec::new();
        out.push(Delivery { recipient: id, event: WorldEvent::WorldEntered { entity_id: id, x: position.x, y: position.y } });
        let ghost tail = notices@;
        out.append(&mut notices);
        proof {
            let bs = self.bodies@;
            let n = bs1.len() as int;
            assert(out@.drop_first() =~= tail);
            same_ids_model(bs, bs, sight_mid, self.sight@);
            same_ids_model(bs, bs, sight_mid, sight_mid);
            assert forall|k: u64| w_mid.contains_key(k) implies #[trigger] w_mid[k].position == self@[k].position by {}
            assert forall|d: Delivery| #[trigger] out@.drop_first().contains(d) <==> refresh_notice(self@, id, Set::empty(), d) by {
                notice_depends_on_positions(w_mid, self@, id, Set::empty(), d);
            }
            assert forall|i: int| 0 <= i < n implies #[trigger] bs[i] == bs1[i] by {}
            assert(self@.dom() =~= w_start.dom().insert(id)) by {
                assert forall|k: u64| self@.contains_key(k) <==> (w_start.contains_key(k) || k == id) by {
                    if holds(bs1, k) {
                        let i = choose|i: int| 0 <= i < bs1.len() && bs1[i].id == k;
                        assert(bs[i].id == k);
                    }
                    if holds(bs, k) && k != id {
                        let i = choose|i: int| 0 <= i < bs.len() && bs[i].id == k;
                        assert(bs1[i].id == k);
                    }
                    assert(bs[n].id == id);
                    assert(w1.contains_key(k) == holds(bs1, k));
                }
            }
            assert forall|k: u64| w_start.contains_key(k) && k != id implies #[trigger] self@[k].position == w_start[k].position
                && self@[k].rule == w_start[k].rule && self@[k].combat == w_start[k].combat && self@[k].character
                == w_start[k].character by {
                assert(w1.contains_key(k));
                let i = slot(bs1, k);
                assert(bs1[i].id == k);
                slot_of_index(bs, i);
                model_at(bs1, sight1, i);
            }
            slot_of_index(bs, n);
            assert(self@[id].character == character);
        }
        (position, out)
    }


    /// Adds `id` and whoever it perceives to `recipients`, if present.
    fn gather(&self, id: u64, recipients: &mut Vec<u64>)
        requires
            distinct(self.bodies@),
            self.sight@.len() == self.bodies@.len(),
            old(recipients)@.no_duplicates(),
        ensures
            final(recipients)@.no_duplicates(),
            forall|r: u64| #[trigger] final(recipients)@.contains(r) <==> (old(recipients)@.contains(r) || (self@.contains_key(id) && (
                r == id || self@[id].visible.contains(r)))),
    {
        match self.find(id) {
            None => {},
            Some(i) => {
                proof {
                    model_at(self.bodies@, self.sight@, i as int);
                }
                let ghost start = recipients@;
                let ghost seen = self.sight@[i as int]@;
                proof {
                    with_added_facts(start, id);
                }
                add_unique(recipients, id);
                let mut t: usize = 0;
                while t < self.sight[i].len()
                    invariant
                        i < self.sight@.len(),
                        seen == self.sight@[i as int]@,
                        t <= seen.len(),
                        recipients@.no_duplicates(),
                        forall|r: u64| #[trigger] recipients@.contains(r) <==> (start.contains(r) || r == id
                            || seen.subrange(0, t as int).contains(r)),
                    decreases seen.len() - t,
                {
                    let v = self.sight[i][t];
                    let ghost prev = recipients@;
                    proof {
                        with_added_facts(prev, v);
                        assert(seen.subrange(0, t as int + 1) =~= seen.subrange(0, t as int).push(v));
                        assert forall|r: u64| #[trigger] seen.subrange(0, t as int + 1).contains(r) <==> (seen.subrange(0, t as int).contains(r) || r == v) by {
                            let s1 = seen.subrange(0, t as int);
                            let s2 = seen.subrange(0, t as int + 1);
                            if s2.contains(r) && r != v {
                                let u = choose|u: int| 0 <= u < s2.len() && s2[u] == r;
                                assert(s1[u] == r);
                            }
                            if s1.contains(r) {
                                let u = choose|u: int| 0 <= u < s1.len() && s1[u] == r;
                                assert(s2[u] == r);
                            }
                            assert(s2[t as int] == v);
                        }
                    }
                    add_unique(recipients, v);
                    t += 1;
                }
                proof {
                    assert(seen.subrange(0, seen.len() as int) =~= seen);
                    assert forall|r: u64| #[trigger] seen.contains(r) == seen.to_set().contains(r) by {}
                }
            },
        }
    }

    /// Tells `event` to both entities and to whoever perceives either: a
    /// witness near the target but far from the attacker sees the blow land.
    fn broadcast_around(&self, first: u64, second: u64, event: WorldEvent) -> (r: Vec<Delivery>)
        requires
            distinct(self.bodies@),
            self.sight@.len() == self.bodies@.len(),
        ensures
            broadcast(r@, self@, first, second, event),
    {
        let mut recipients: Vec<u64> = Vec::new();
        self.gather(first, &mut recipients);
        self.gather(second, &mut recipients);
        let mut out: Vec<Delivery> = Vec::new();
        let mut t: usize = 0;
        while t < recipients.len()
            invariant
                t <= recipients@.len(),
                out@ == recipients@.subrange(0, t as int).map_values(|v: u64| Delivery { recipient: v, event }),
            decreases recipients@.len() - t,
        {
            out.push(Delivery { recipient: recipients[t], event });
            proof {
                assert(out@ =~= recipients@.subrange(0, t as int + 1).map_values(|v: u64| Delivery { recipient: v, event }));
            }
            t += 1;
        }
        proof {
            assert(recipients@.subrange(0, recipients@.len() as int) =~= recipients@);
            assert forall|a: int, b: int| 0 <= a < out@.len() && 0 <= b < out@.len() && a != b implies out@[a] != out@[b] by {
                assert(out@[a].recipient == recipients@[a]);
                assert(out@[b].recipient == recipients@[b]);
            }
            assert forall|d: Delivery| #[trigger] out@.contains(d) <==> (d.event == event && around(self@, first, second, d.recipient)) by {
                if out@.contains(d) {
                    let u = choose|u: int| 0 <= u < out@.len() && out@[u] == d;
                    assert(recipients@.contains(recipients@[u]));
                }
                if d.event == event && around(self@, first, second, d.recipient) {
                    assert(recipients@.contains(d.recipient));
                    let u = choose|u: int| 0 <= u < recipients@.len() && recipients@[u] == d.recipient;
                    assert(out@[u] == d);
                }
            }
        }
        out
    }


    /// Replaces the character of slot `i`, leaving everything else in place.
    fn set_character(&mut self, i: usize, character: Character)
        requires
            old(self).wf(),
            i < old(self).bodies@.len(),
        ensures
            final(self).wf(),
            final(self).grid == old(self).grid,
            final(self).cells@ == old(self).cells@,
            final(self).sight@ == old(self).sight@,
            final(self).bodies@ == old(self).bodies@.update(i as int, Body { character, ..old(self).bodies@[i as int] }),
            places_kept(old(self)@, final(self)@, old(self).bodies@[i as int].id, old(self).bodies@[i as int].id),
            final(self)@[old(self).bodies@[i as int].id].character == character,
            forall|k: u64| #[trigger] final(self)@.contains_key(k) ==> final(self)@[k].visible == old(self)@[k].visible,
    {
        let ghost bs = self.bodies@;
        let b = self.bodies[i];
        self.bodies.set(i, Body { character, ..b });
        proof {
            let bs2 = self.bodies@;
            assert forall|j: int| #![trigger bs2[j]] 0 <= j < bs.len() implies bs2[j].id == bs[j].id && bs2[j].position == bs[j].position by {}
            same_places(bs, bs2, self.sight@, self.cells@);
            same_ids_model(bs, bs2, self.sight@, self.sight@);
            same_ids_model(bs, bs, self.sight@, self.sight@);
            slot_of_index(bs, i as int);
            assert forall|k: u64| #[trigger] self@.contains_key(k) implies self@[k].visible == model(bs, self.sight@)[k].visible by {}
            assert forall|k: u64| model(bs, self.sight@).contains_key(k) implies #[trigger] self@[k].position == model(bs, self.sight@)[k].position
                && self@[k].rule == model(bs, self.sight@)[k].rule && self@[k].combat == model(bs, self.sight@)[k].combat
                && (k != b.id && k != b.id ==> self@[k].character == model(bs, self.sight@)[k].character) by {
                let j = slot(bs, k);
                if k != b.id {
                    assert(j != i);
                }
            }
        }
    }

    /// The consequences of a death: announced around killer and victim, then
    /// the reward goes to the killer (`50` times the victim's level).
    fn on_death(&mut self, ki: usize, vi: usize) -> (r: Vec<Delivery>)
        requires
            old(self).wf(),
            ki < old(self).bodies@.len(),
            vi < old(self).bodies@.len(),
            ki != vi,
        ensures
            final(self).wf(),
            places_kept(old(self)@, final(self)@, old(self).bodies@[ki as int].id, old(self).bodies@[ki as int].id),
            final(self)@[old(self).bodies@[ki as int].id].character@ == after_gain(
                old(self)@[old(self).bodies@[ki as int].id].character@,
                50 * old(self)@[old(self).bodies@[vi as int].id].character@.level,
            ),
            forall|k: u64| #[trigger] final(self)@.contains_key(k) ==> final(self)@[k].visible == old(self)@[k].visible,
            exists|p: Seq<Delivery>|
                #![trigger broadcast(p, old(self)@, old(self).bodies@[ki as int].id, old(self).bodies@[vi as int].id, WorldEvent::EntityDied { entity: old(self).bodies@[vi as int].id, killer: old(self).bodies@[ki as int].id })]
                r@ == p + seq![Delivery { recipient: old(self).bodies@[ki as int].id, event: WorldEvent::ExperienceGained {
                    amount: (50 * old(self)@[old(self).bodies@[vi as int].id].character@.level) as u64,
                    level: after_gain(old(self)@[old(self).bodies@[ki as int].id].character@, 50 * old(self)@[old(self).bodies@[vi as int].id].character@.level).level,
                } }] && broadcast(p, old(self)@, old(self).bodies@[ki as int].id, old(self).bodies@[vi as int].id, WorldEvent::EntityDied {
                    entity: old(self).bodies@[vi as int].id,
                    killer: old(self).bodies@[ki as int].id,
                }),
    {
        let killer = self.bodies[ki];
        let victim = self.bodies[vi];
        proof {
            model_at(self.bodies@, self.sight@, ki as int);
            model_at(self.bodies@, self.sight@, vi as int);
        }
        let reward = experience_reward(victim.character.level());
        let mut out = self.broadcast_around(killer.id, victim.id, WorldEvent::EntityDied { entity: victim.id, killer: killer.id });
        let ghost p = out@;
        let (grown, _) = killer.character.gain_experience(reward);
        self.set_character(ki, grown);
        out.push(Delivery { recipient: killer.id, event: WorldEvent::ExperienceGained { amount: reward.get(), level: grown.level().get() } });
        proof {
            assert(out@ == p + seq![Delivery { recipient: killer.id, event: WorldEvent::ExperienceGained { amount: reward@, level: grown@.level } }]);
        }
        out
    }

    /// Resolves an attack claimed by a client. `elapsed_ms` is measured by the
    /// server since the attacker's previous attempt, refused ones included, so
    /// that a burst of refused requests does not bank time for the next one.
    ///
    /// Absent attacker: nothing happens. Absent target: an explicit refusal,
    /// so that a desynchronised client does not strike thin air unawares.
    /// Refused engagement: the reason, and nobody is hurt. Otherwise the
    /// target takes the blow, everybody around is told, and a death is
    /// announced and rewarded.
    fn request_attack(&mut self, attacker_id: EntityId, target_id: EntityId, elapsed_ms: u64) -> (r: Vec<Delivery>)
        requires
            old(self).wf(),
        ensures
            final(self).wf(),
            !old(self)@.contains_key(attacker_id) ==> r@ == Seq::<Delivery>::empty() && final(self)@ == old(self)@,
            old(self)@.contains_key(attacker_id) && !old(self)@.contains_key(target_id) ==> {
                &&& r@ == seq![Delivery { recipient: attacker_id, event: WorldEvent::AttackRefused { reason: AttackRefusal::NoSuchTarget } }]
                &&& final(self)@ == old(self)@
            },
            old(self)@.contains_key(attacker_id) && old(self)@.contains_key(target_id) && refusal_in(old(self)@, attacker_id, target_id, elapsed_ms) is Some ==> {
                &&& r@ == seq![Delivery { recipient: attacker_id, event: WorldEvent::AttackRefused {
                    reason: refusal_in(old(self)@, attacker_id, target_id, elapsed_ms)->0,
                } }]
                &&& final(self)@ == old(self)@
            },
            old(self)@.contains_key(attacker_id) && old(self)@.contains_key(target_id) && refusal_in(old(self)@, attacker_id, target_id, elapsed_ms) is None ==> {
                let w = old(self)@;
                let damage = blow(w, attacker_id, target_id);
                let left = health_after(w[target_id].character@.health, damage);
                let hit = WorldEvent::DamageDealt { attacker: attacker_id, target: target_id, damage: damage as u32, remaining_health: left };
                let reward = 50 * w[target_id].character@.level;
                let grown = after_gain(w[attacker_id].character@, reward);
                &&& places_kept(w, final(self)@, attacker_id, target_id)
                &&& final(self)@[target_id].character@ == (CharacterView { health: left, ..w[target_id].character@ })
                &&& left > 0 ==> final(self)@[attacker_id].character == w[attacker_id].character && broadcast(r@, w, attacker_id, target_id, hit)
                &&& left == 0 ==> {
                    &&& final(self)@[attacker_id].character@ == grown
                    &&& exists|p1: Seq<Delivery>, p2: Seq<Delivery>|
                        #![trigger broadcast(p1, w, attacker_id, target_id, hit), broadcast(p2, w, attacker_id, target_id, WorldEvent::EntityDied { entity: target_id, killer: attacker_id })]
                        {
                        &&& r@ == p1 + p2 + seq![Delivery { recipient: attacker_id, event: WorldEvent::ExperienceGained { amount: reward as u64, level: grown.level } }]
                        &&& broadcast(p1, w, attacker_id, target_id, hit)
                        &&& broadcast(p2, w, attacker_id, target_id, WorldEvent::EntityDied { entity: target_id, killer: attacker_id })
                    }
                }
            },
    {
        let ghost w0 = self@;
        let ai = match self.find(attacker_id) {
            None => {
                return Vec::new();
            },
            Some(i) => i,
        };
        let ti = match self.find(target_id) {
            None => {
                let mut r: Vec<Delivery> = Vec::new();
                r.push(Delivery { recipient: attacker_id, event: WorldEvent::AttackRefused { reason: AttackRefusal::NoSuchTarget } });
                proof {
                    assert(!w0.contains_key(target_id));
                }
                return r;
            },
            Some(i) => i,
        };
        proof {
            model_at(self.bodies@, self.sight@, ai as int);
            model_at(self.bodies@, self.sight@, ti as int);
        }
        let attacker = self.bodies[ai];
        let target = self.bodies[ti];
        let engagement = Engagement {
            attacker_at: attacker.position,
            target_at: target.position,
            attacker_alive: attacker.character.is_alive(),
            target_alive: target.character.is_alive(),
            same_entity: attacker_id == target_id,
        };
        match attacker.combat.authorize(engagement, elapsed_ms) {
            Err(rejection) => {
                let mut r: Vec<Delivery> = Vec::new();
                r.push(Delivery { recipient: attacker_id, event: WorldEvent::AttackRefused { reason: refusal_of(rejection) } });
                return r;
            },
            Ok(()) => {},
        }
        let damage = resolve_attack(
            attack_profile(attacker.character),
            defense_profile(target.character),
            Resistance::none(),
            target.character.level(),
        );
        let hurt = target.character.take_damage(damage);
        self.set_character(ti, hurt);
        let ghost w1 = self@;
        let remaining_health = hurt.vitals().current();
        let died = !hurt.is_alive();
        let mut out = self.broadcast_around(
            attacker_id,
            target_id,
            WorldEvent::DamageDealt { attacker: attacker_id, target: target_id, damage, remaining_health },
        );
        proof {
            around_transfer(w1, w0, attacker_id, target_id);
        }
        if died {
            let ghost p1 = out@;
            let mut more = self.on_death(ai, ti);
            let ghost tail = more@;
            out.append(&mut more);
            proof {
                around_transfer(w1, w0, attacker_id, target_id);
                let p2 = choose|p: Seq<Delivery>|
                    #![trigger broadcast(p, w1, attacker_id, target_id, WorldEvent::EntityDied { entity: target_id, killer: attacker_id })]
                    tail == p + seq![Delivery { recipient: attacker_id, event: WorldEvent::ExperienceGained {
                        amount: (50 * w1[target_id].character@.level) as u64,
                        level: after_gain(w1[attacker_id].character@, 50 * w1[target_id].character@.level).level,
                    } }] && broadcast(p, w1, attacker_id, target_id, WorldEvent::EntityDied { entity: target_id, killer: attacker_id });
                assert(out@ == p1 + tail);
                assert(broadcast(p1, w0, attacker_id, target_id, WorldEvent::DamageDealt { attacker: attacker_id, target: target_id, damage, remaining_health })) by {
                    assert forall|d: Delivery| #[trigger] p1.contains(d) <==> (d.event == (WorldEvent::DamageDealt { attacker: attacker_id, target: target_id, damage, remaining_health })
                        && around(w0, attacker_id, target_id, d.recipient)) by {
                        assert(around(w1, attacker_id, target_id, d.recipient) == around(w0, attacker_id, target_id, d.recipient));
                    }
                }
                assert(broadcast(p2, w0, attacker_id, target_id, WorldEvent::EntityDied { entity: target_id, killer: attacker_id })) by {
                    assert forall|d: Delivery| #[trigger] p2.contains(d) <==> (d.event == (WorldEvent::EntityDied { entity: target_id, killer: attacker_id })
                        && around(w0, attacker_id, target_id, d.recipient)) by {
                        assert(around(w1, attacker_id, target_id, d.recipient) == around(w0, attacker_id, target_id, d.recipient));
                    }
                }
                assert(out@ =~= p1 + p2 + seq![Delivery { recipient: attacker_id, event: WorldEvent::ExperienceGained {
                    amount: (50 * w0[target_id].character@.level) as u64,
                    level: after_gain(w0[attacker_id].character@, 50 * w0[target_id].character@.level).level,
                } }]);
            }
        }
        proof {
            assert(damage as int == blow(w0, attacker_id, target_id));
            assert(remaining_health == health_after(w0[target_id].character@.health, damage as int));
            assert(self@[target_id].character@ == (CharacterView { health: remaining_health, ..w0[target_id].character@ }));
            assert(places_kept(w0, self@, attacker_id, target_id));
            assert((blow(w0, attacker_id, target_id) as u32) == damage);
            if died {
                assert(self@[attacker_id].character@ == after_gain(w0[attacker_id].character@, 50 * w0[target_id].character@.level));
            }
            if !died {
                assert(self@[attacker_id].character == w0[attacker_id].character);
                assert(broadcast(out@, w0, attacker_id, target_id, WorldEvent::DamageDealt { attacker: attacker_id, target: target_id, damage, remaining_health }));
            }
        }
        out
    }


    /// Brings a dead entity back, at full health, at its spawn point; the
    /// return is told around it (once to itself), then the perception around
    /// its new position is recomputed. A living entity is left as it is:
    /// respawning alive would be a free heal one message away.
    fn request_respawn(&mut self, id: EntityId) -> (r: Vec<Delivery>)
        requires
            old(self).wf(),
        ensures
            final(self).wf(),
            !old(self)@.contains_key(id) ==> r@ == Seq::<Delivery>::empty() && final(self)@ == old(self)@,
            old(self)@.contains_key(id) && old(self)@[id].character@.health > 0 ==> r@ == Seq::<Delivery>::empty()
                && final(self)@ == old(self)@,
            old(self)@.contains_key(id) && old(self)@[id].character@.health == 0 ==> {
                let w = old(self)@;
                let back = CharacterView { health: w[id].character@.max_health, ..w[id].character@ };
                let news = WorldEvent::EntityRespawned { entity: id, x: spawn_at(id).x, y: spawn_at(id).y, health: back.health };
                &&& others_kept(w, final(self)@, id)
                &&& final(self)@[id].position == spawn_at(id)
                &&& final(self)@[id].rule == w[id].rule
                &&& final(self)@[id].combat == w[id].combat
                &&& final(self)@[id].character@ == back
                &&& exists|p1: Seq<Delivery>, p2: Seq<Delivery>|
                    #![trigger broadcast(p1, w, id, id, news), p2.no_duplicates()]
                    {
                    &&& r@ == p1 + p2
                    &&& broadcast(p1, w, id, id, news)
                    &&& p2.no_duplicates()
                    &&& forall|d: Delivery| #[trigger] p2.contains(d) <==> refresh_notice(final(self)@, id, w[id].visible, d)
                }
            },
    {
        let si = match self.find(id) {
            None => {
                return Vec::new();
            },
            Some(i) => i,
        };
        proof {
            model_at(self.bodies@, self.sight@, si as int);
        }
        let body = self.bodies[si];
        if body.character.is_alive() {
            return Vec::new();
        }
        let position = spawn_position(id);
        let from = body.position;
        let revived = body.character.respawn();
        let health = revived.vitals().current();
        let ghost w_old = self@;
        let ghost prev = self.bodies@;
        let ghost sight0 = self.sight@;
        self.bodies.set(si, Body { position, character: revived, ..body });
        proof {
            assert forall|i: int| 0 <= i < prev.len() implies #[trigger] self.bodies@[i].id == prev[i].id by {}
            same_ids_model(prev, self.bodies@, sight0, self.sight@);
        }
        self.reindex(si, from, Ghost(prev));
        proof {
            let bs = self.bodies@;
            assert forall|i: int, j: int|
                0 <= i < bs.len() && 0 <= j < bs.len() && i != j && i != si && j != si implies (
                #[trigger] self.sight@[i]@.contains(bs[j].id) <==> within(bs[i].position, bs[j].position, VIEW_RADIUS_CM as int)) by {
                assert(bs[i] == prev[i]);
                assert(bs[j] == prev[j]);
            }
            assert forall|j: int| 0 <= j < bs.len() && j != si implies (#[trigger] self.sight@[si as int]@.contains(bs[j].id)
                <==> self.sight@[j]@.contains(bs[si as int].id)) by {
                assert(bs[j] == prev[j]);
                distance_is_symmetric(prev[si as int].position, prev[j].position);
            }
            assert forall|i: int, v: u64| 0 <= i < self.sight@.len() && (#[trigger] self.sight@[i]@.contains(v)) implies holds(bs, v)
                && v != bs[i].id by {
                assert(holds(prev, v));
                let k = choose|k: int| 0 <= k < prev.len() && prev[k].id == v;
                assert(bs[k].id == v);
            }
        }
        let ghost w_mid = self@;
        let mut out = self.broadcast_around(
            id,
            id,
            WorldEvent::EntityRespawned { entity: id, x: position.x, y: position.y, health },
        );
        let ghost p1 = out@;
        let mut notices = self.refresh_visibility(si);
        let ghost p2 = notices@;
        out.append(&mut notices);
        proof {
            let bs = self.bodies@;
            same_ids_model(prev, bs, sight0, self.sight@);
            same_ids_model(prev, bs, sight0, sight0);
            same_ids_model(prev, prev, sight0, sight0);
            assert(w_mid == model(bs, sight0));
            assert forall|k: u64| w_mid.contains_key(k) implies #[trigger] w_mid[k].position == self@[k].position by {}
            assert forall|d: Delivery| #[trigger] p2.contains(d) <==> refresh_notice(self@, id, w_old[id].visible, d) by {
                notice_depends_on_positions(w_mid, self@, id, w_old[id].visible, d);
                assert(sight0[si as int]@.to_set() == w_old[id].visible);
            }
            assert forall|k: u64| w_old.contains_key(k) && k != id implies #[trigger] self@[k].position == w_old[k].position
                && self@[k].rule == w_old[k].rule && self@[k].combat == w_old[k].combat && self@[k].character
                == w_old[k].character by {
                let i = slot(prev, k);
                assert(prev[i].id == k);
                assert(i != si);
                assert(bs[i] == prev[i]);
            }
            assert forall|k: u64| w_mid.contains_key(k) implies #[trigger] w_mid[k].visible == w_old[k].visible by {}
            around_transfer(w_mid, w_old, id, id);
            let news = WorldEvent::EntityRespawned { entity: id, x: position.x, y: position.y, health };
            assert(broadcast(p1, w_old, id, id, news)) by {
                assert forall|d: Delivery| #[trigger] p1.contains(d) <==> (d.event == news && around(w_old, id, id, d.recipient)) by {
                    assert(around(w_mid, id, id, d.recipient) == around(w_old, id, id, d.recipient));
                }
            }
            assert(out@ == p1 + p2);
        }
        out
    }


    /// Number of entities present.
    fn population(&self) -> (r: usize)
        requires
            self.wf(),
        ensures
            r == self@.len(),
    {
        proof {
            census(self.bodies@);
            assert(self@.dom() =~= Set::new(|id: u64| holds(self.bodies@, id)));
        }
        self.bodies.len()
    }

    /// An empty world.
    fn new() -> (r: Self)
        ensures
            r.wf(),
            r@ == Map::<u64, Avatar>::empty(),
            r.cell_count() == 0,
    {
        let r = Self { grid: Grid::with_default_view(), bodies: Vec::new(), sight: Vec::new(), cells: Vec::new() };
        assert(r@ =~= Map::<u64, Avatar>::empty());
        r
    }

    /// Whether an entity is present.
    fn contains(&self, id: EntityId) -> (r: bool)
        requires
            self.wf(),
        ensures
            r == self@.contains_key(id),
    {
        self.find(id).is_some()
    }

    /// Position of an entity, if present.
    fn position_of(&self, id: EntityId) -> (r: Option<Position>)
        requires
            self.wf(),
        ensures
            r == (if self@.contains_key(id) { Some(self@[id].position) } else { None::<Position> }),
    {
        match self.find(id) {
            Some(i) => {
                proof {
                    model_at(self.bodies@, self.sight@, i as int);
                }
                Some(self.bodies[i].position)
            },
            None => None,
        }
    }

    /// Character of an entity, if present.
    fn character_of(&self, id: EntityId) -> (r: Option<Character>)
        requires
            self.wf(),
        ensures
            r == (if self@.contains_key(id) { Some(self@[id].character) } else { None::<Character> }),
    {
        match self.find(id) {
            Some(i) => {
                proof {
                    model_at(self.bodies@, self.sight@, i as int);
                }
                Some(self.bodies[i].character)
            },
            None => None,
        }
    }

    /// Number of cells in the spatial index.
    fn indexed_cells(&self) -> (r: usize)
        ensures
            r == self.cell_count(),
    {
        self.cells.len()
    }
}

/// Shared state of the world: who is present, where, and who perceives whom.
/// It is consistent at all times: identifiers are distinct, every entity
/// perceives exactly the others within the view radius, and the cell index
/// lists exactly where everybody stands.
pub struct World {
    registry: Registry,
}

impl View for World {
    type V = Map<u64, Avatar>;

    closed spec fn view(&self) -> Map<u64, Avatar> {
        self.registry@
    }
}

impl World {
    #[verifier::type_invariant]
    spec fn consistent(self) -> bool {
        self.registry.wf()
    }

    /// Consistency of the registry: distinct identifiers, exact perception
    /// lists, exact cell index, cells as large as the view radius. It always
    /// holds (it is the type's invariant); the constructor and every request
    /// also state it, so that the laws can be applied to their results.
    pub closed spec fn wf(self) -> bool {
        self.registry.wf()
    }

    /// Number of cells currently indexed.
    pub closed spec fn cell_count(self) -> nat {
        self.registry.cell_count()
    }

    /// Handles a move claimed by a client. `elapsed_ms` is measured by the
    /// server, never announced by the client.
    ///
    /// Absent entity: nothing happens. A dead entity, or one moving faster
    /// than its rule admits, stays put and is told its position again, so
    /// that the client resynchronises. Otherwise the entity moves and the
    /// perception around it is recomputed.
    pub fn request_move(&mut self, id: EntityId, x: i32, y: i32, elapsed_ms: u64) -> (r: Vec<Delivery>)
        ensures
            final(self).wf(),
            !old(self)@.contains_key(id) ==> r@ == Seq::<Delivery>::empty() && final(self)@ == old(self)@,
            old(self)@.contains_key(id) && (old(self)@[id].character@.health == 0 || !move_admitted(
                old(self)@[id].rule,
                old(self)@[id].position,
                Position { x, y },
                elapsed_ms,
            )) ==> {
                &&& r@ == seq![Delivery { recipient: id, event: WorldEvent::MoveRejected { x: old(self)@[id].position.x, y: old(self)@[id].position.y } }]
                &&& final(self)@ == old(self)@
            },
            old(self)@.contains_key(id) && old(self)@[id].character@.health > 0 && move_admitted(
                old(self)@[id].rule,
                old(self)@[id].position,
                Position { x, y },
                elapsed_ms,
            ) ==> {
                &&& others_kept(old(self)@, final(self)@, id)
                &&& final(self)@[id].position == (Position { x, y })
                &&& final(self)@[id].rule == old(self)@[id].rule
                &&& final(self)@[id].combat == old(self)@[id].combat
                &&& final(self)@[id].character == old(self)@[id].character
                &&& r@.no_duplicates()
                &&& forall|d: Delivery| #[trigger] r@.contains(d) <==> refresh_notice(final(self)@, id, old(self)@[id].visible, d)
            },
    {
        proof {
            use_type_invariant(&*self);
        }
        let mut registry = Registry::new();
        std::mem::swap(&mut registry, &mut self.registry);
        let r = registry.request_move(id, x, y, elapsed_ms);
        self.registry = registry;
        r
    }

    /// Removes an entity and tells those who perceived it that it vanished.
    /// Leaving twice is harmless.
    pub fn leave(&mut self, id: EntityId) -> (r: Vec<Delivery>)
        ensures
            final(self).wf(),
            !old(self)@.contains_key(id) ==> r@ == Seq::<Delivery>::empty() && final(self)@ == old(self)@,
            old(self)@.contains_key(id) ==> {
                &&& final(self)@.dom() == old(self)@.dom().remove(id)
                &&& forall|k: u64|
                    #![trigger final(self)@[k]]
                    final(self)@.contains_key(k) ==> final(self)@[k].position == old(self)@[k].position && final(self)@[k].rule
                        == old(self)@[k].rule && final(self)@[k].combat == old(self)@[k].combat
                        && final(self)@[k].character == old(self)@[k].character
                &&& r@.no_duplicates()
                &&& forall|d: Delivery| #[trigger] r@.contains(d) <==> (d.event == WorldEvent::EntityVanished { entity_id: id }
                    && old(self)@[id].visible.contains(d.recipient))
            },
    {
        proof {
            use_type_invariant(&*self);
        }
        let mut registry = Registry::new();
        std::mem::swap(&mut registry, &mut self.registry);
        let r = registry.leave(id);
        self.registry = registry;
        r
    }

    /// Brings an entity into the world at its spawn point and tells it where
    /// it stands, then who is around (the notices of a refresh from an empty
    /// perception). Returns the spawn position.
    ///
    /// An identifier already present is first taken out silently, so that
    /// perception stays symmetric.
    pub fn enter(&mut self, id: EntityId) -> (r: (Position, Vec<Delivery>))
        ensures
            final(self).wf(),
            r.0 == spawn_at(id),
            final(self)@.dom() == old(self)@.dom().insert(id),
            forall|k: u64|
                #![trigger final(self)@[k]]
                old(self)@.contains_key(k) && k != id ==> final(self)@[k].position == old(self)@[k].position
                    && final(self)@[k].rule == old(self)@[k].rule && final(self)@[k].combat == old(self)@[k].combat
                    && final(self)@[k].character == old(self)@[k].character,
            final(self)@[id].position == spawn_at(id),
            final(self)@[id].rule.pace() == 700,
            final(self)@[id].rule.margin() == MovementRule::DEFAULT_TOLERANCE_CM,
            final(self)@[id].combat.reach() == CombatRule::MELEE_RANGE_CM,
            final(self)@[id].combat.cadence() == CombatRule::DEFAULT_COOLDOWN_MS,
            newcomer(final(self)@[id].character, id),
            r.1@.len() >= 1,
            r.1@[0] == (Delivery { recipient: id, event: WorldEvent::WorldEntered { entity_id: id, x: spawn_at(id).x, y: spawn_at(id).y } }),
            r.1@.drop_first().no_duplicates(),
            forall|d: Delivery| #[trigger] r.1@.drop_first().contains(d) <==> refresh_notice(final(self)@, id, Set::empty(), d),
    {
        proof {
            use_type_invariant(&*self);
        }
        let mut registry = Registry::new();
        std::mem::swap(&mut registry, &mut self.registry);
        let r = registry.enter(id);
        self.registry = registry;
        r
    }

    /// Resolves an attack claimed by a client. `elapsed_ms` is measured by the
    /// server since the attacker's previous attempt, refused ones included, so
    /// that a burst of refused requests does not bank time for the next one.
    ///
    /// Absent attacker: nothing happens. Absent target: an explicit refusal,
    /// so that a desynchronised client does not strike thin air unawares.
    /// Refused engagement: the reason, and nobody is hurt. Otherwise the
    /// target takes the blow, everybody around is told, and a death is
    /// announced and rewarded.
    pub fn request_attack(&mut self, attacker_id: EntityId, target_id: EntityId, elapsed_ms: u64) -> (r: Vec<Delivery>)
        ensures
            final(self).wf(),
            !old(self)@.contains_key(attacker_id) ==> r@ == Seq::<Delivery>::empty() && final(self)@ == old(self)@,
            old(self)@.contains_key(attacker_id) && !old(self)@.contains_key(target_id) ==> {
                &&& r@ == seq![Delivery { recipient: attacker_id, event: WorldEvent::AttackRefused { reason: AttackRefusal::NoSuchTarget } }]
                &&& final(self)@ == old(self)@
            },
            old(self)@.contains_key(attacker_id) && old(self)@.contains_key(target_id) && refusal_in(old(self)@, attacker_id, target_id, elapsed_ms) is Some ==> {
                &&& r@ == seq![Delivery { recipient: attacker_id, event: WorldEvent::AttackRefused {
                    reason: refusal_in(old(self)@, attacker_id, target_id, elapsed_ms)->0,
                } }]
                &&& final(self)@ == old(self)@
            },
            old(self)@.contains_key(attacker_id) && old(self)@.contains_key(target_id) && refusal_in(old(self)@, attacker_id, target_id, elapsed_ms) is None ==> {
                let w = old(self)@;
                let damage = blow(w, attacker_id, target_id);
                let left = health_after(w[target_id].character@.health, damage);
                let hit = WorldEvent::DamageDealt { attacker: attacker_id, target: target_id, damage: damage as u32, remaining_health: left };
                let reward = 50 * w[target_id].character@.level;
                let grown = after_gain(w[attacker_id].character@, reward);
                &&& places_kept(w, final(self)@, attacker_id, target_id)
                &&& final(self)@[target_id].character@ == (CharacterView { health: left, ..w[target_id].character@ })
                &&& left > 0 ==> final(self)@[attacker_id].character == w[attacker_id].character && broadcast(r@, w, attacker_id, target_id, hit)
                &&& left == 0 ==> {
                    &&& final(self)@[attacker_id].character@ == grown
                    &&& exists|p1: Seq<Delivery>, p2: Seq<Delivery>|
                        #![trigger broadcast(p1, w, attacker_id, target_id, hit), broadcast(p2, w, attacker_id, target_id, WorldEvent::EntityDied { entity: target_id, killer: attacker_id })]
                        {
                        &&& r@ == p1 + p2 + seq![Delivery { recipient: attacker_id, event: WorldEvent::ExperienceGained { amount: reward as u64, level: grown.level } }]
                        &&& broadcast(p1, w, attacker_id, target_id, hit)
                        &&& broadcast(p2, w, attacker_id, target_id, WorldEvent::EntityDied { entity: target_id, killer: attacker_id })
                    }
                }
            },
    {
        proof {
            use_type_invariant(&*self);
        }
        let mut registry = Registry::new();
        std::mem::swap(&mut registry, &mut self.registry);
        let r = registry.request_attack(attacker_id, target_id, elapsed_ms);
        self.registry = registry;
        r
    }

    /// Brings a dead entity back, at full health, at its spawn point; the
    /// return is told around it (once to itself), then the perception around
    /// its new position is recomputed. A living entity is left as it is:
    /// respawning alive would be a free heal one message away.
    pub fn request_respawn(&mut self, id: EntityId) -> (r: Vec<Delivery>)
        ensures
            final(self).wf(),
            !old(self)@.contains_key(id) ==> r@ == Seq::<Delivery>::empty() && final(self)@ == old(self)@,
            old(self)@.contains_key(id) && old(self)@[id].character@.health > 0 ==> r@ == Seq::<Delivery>::empty()
                && final(self)@ == old(self)@,
            old(self)@.contains_key(id) && old(self)@[id].character@.health == 0 ==> {
                let w = old(self)@;
                let back = CharacterView { health: w[id].character@.max_health, ..w[id].character@ };
                let news = WorldEvent::EntityRespawned { entity: id, x: spawn_at(id).x, y: spawn_at(id).y, health: back.health };
                &&& others_kept(w, final(self)@, id)
                &&& final(self)@[id].position == spawn_at(id)
                &&& final(self)@[id].rule == w[id].rule
                &&& final(self)@[id].combat == w[id].combat
                &&& final(self)@[id].character@ == back
                &&& exists|p1: Seq<Delivery>, p2: Seq<Delivery>|
                    #![trigger broadcast(p1, w, id, id, news), p2.no_duplicates()]
                    {
                    &&& r@ == p1 + p2
                    &&& broadcast(p1, w, id, id, news)
                    &&& p2.no_duplicates()
                    &&& forall|d: Delivery| #[trigger] p2.contains(d) <==> refresh_notice(final(self)@, id, w[id].visible, d)
                }
            },
    {
        proof {
            use_type_invariant(&*self);
        }
        let mut registry = Registry::new();
        std::mem::swap(&mut registry, &mut self.registry);
        let r = registry.request_respawn(id);
        self.registry = registry;
        r
    }

    /// Number of entities present.
    pub fn population(&self) -> (r: usize)
        ensures
            r == self@.len(),
    {
        proof {
            use_type_invariant(self);
        }
        self.registry.population()
    }

    /// An empty world.
    pub fn new() -> (r: Self)
        ensures
            r.wf(),
            r@ == Map::<u64, Avatar>::empty(),
            r.cell_count() == 0,
    {
        World { registry: Registry::new() }
    }

    /// Whether an entity is present.
    pub fn contains(&self, id: EntityId) -> (r: bool)
        ensures
            r == self@.contains_key(id),
    {
        proof {
            use_type_invariant(self);
        }
        self.registry.contains(id)
    }

    /// Position of an entity, if present.
    pub fn position_of(&self, id: EntityId) -> (r: Option<Position>)
        ensures
            r == (if self@.contains_key(id) { Some(self@[id].position) } else { None::<Position> }),
    {
        proof {
            use_type_invariant(self);
        }
        self.registry.position_of(id)
    }

    /// Character of an entity, if present.
    pub fn character_of(&self, id: EntityId) -> (r: Option<Character>)
        ensures
            r == (if self@.contains_key(id) { Some(self@[id].character) } else { None::<Character> }),
    {
        proof {
            use_type_invariant(self);
        }
        self.registry.character_of(id)
    }

    /// Number of cells in the spatial index.
    pub fn indexed_cells(&self) -> (r: usize)
        ensures
            r == self.cell_count(),
    {
        proof {
            use_type_invariant(self);
        }
        self.registry.indexed_cells()
    }
}

impl Default for World {
    fn default() -> (r: Self)
        ensures
            r.wf(),
            r@ == Map::<u64, Avatar>::empty(),
    {
        Self::new()
    }
}

} // verus!
