//! Object kinds and the contact-driven consumers built on them: colliding
//! pairs that explode are destroyed and replaced by a fresh effect at their
//! midpoint, and chemically reacting pairs transform or consume each other.
//! Both consumers resolve each event's handles to entities and silently drop
//! an event whose entities are already gone.

use vstd::prelude::*;

use crate::effects::{Explosion, STRENGTH_LIMIT};
use crate::math::{tdiv, Vec2};
use crate::registry::{EntityRec, HandleRegistry};
use crate::types::{ContactKind, Entity, PhysicsContactEvent, Shape};
use crate::world::Physics;

verus! {

/// The kinds of object the reactions distinguish.
#[derive(Clone, Copy, Debug, PartialEq, Eq, Structural, Hash)]
pub enum AsteroidType {
    Big,
    Medium,
    Small,
    Bitty,
    Bomb,
    Hydrogen,
    Oxygen,
    Water,
    WaterMedium,
    WaterBig,
    Sulphur,
    Acid,
    AcidMedium,
    AcidBig,
    ShipPiece(usize),
    ShipPieceTarnished(usize),
    EncasedArtifact,
    Artifact,
}

impl AsteroidType {
    /// The sprite index the host draws for this kind.
    pub open spec fn sprite_num_spec(self) -> int {
        match self {
            AsteroidType::Big => 1,
            AsteroidType::Medium => 2,
            AsteroidType::Small => 3,
            AsteroidType::Bitty => 4,
            AsteroidType::Bomb => 10,
            AsteroidType::Hydrogen => 27,
            AsteroidType::Oxygen => 28,
            AsteroidType::Sulphur => 68,
            AsteroidType::Water => 29,
            AsteroidType::WaterMedium => 37,
            AsteroidType::WaterBig => 38,
            AsteroidType::Acid => 53,
            AsteroidType::AcidMedium => 54,
            AsteroidType::AcidBig => 55,
            AsteroidType::ShipPiece(idx) => 56 + idx,
            AsteroidType::ShipPieceTarnished(idx) => 62 + idx,
            AsteroidType::EncasedArtifact => 69,
            AsteroidType::Artifact => 70,
        }
    }

    pub fn get_sprite_num(&self) -> (r: usize)
        requires
            (self matches AsteroidType::ShipPiece(idx) ==> idx <= 6),
            (self matches AsteroidType::ShipPieceTarnished(idx) ==> idx <= 6),
        ensures
            r == self.sprite_num_spec(),
    {
        match self {
            AsteroidType::Big => 1,
            AsteroidType::Medium => 2,
            AsteroidType::Small => 3,
            AsteroidType::Bitty => 4,
            AsteroidType::Bomb => 10,
            AsteroidType::Hydrogen => 27,
            AsteroidType::Oxygen => 28,
            AsteroidType::Sulphur => 68,
            AsteroidType::Water => 29,
            AsteroidType::WaterMedium => 37,
            AsteroidType::WaterBig => 38,
            AsteroidType::Acid => 53,
            AsteroidType::AcidMedium => 54,
            AsteroidType::AcidBig => 55,
            AsteroidType::ShipPiece(idx) => 56 + *idx,
            AsteroidType::ShipPieceTarnished(idx) => 62 + *idx,
            AsteroidType::EncasedArtifact => 69,
            AsteroidType::Artifact => 70,
        }
    }

    /// The collider radius of this kind, in world units.
    pub open spec fn radius_spec(self) -> int {
        match self {
            AsteroidType::Big => 8,
            AsteroidType::Medium => 6,
            AsteroidType::Small => 4,
            AsteroidType::Bitty => 2,
            AsteroidType::Bomb => 4,
            AsteroidType::Hydrogen => 4,
            AsteroidType::Oxygen => 4,
            AsteroidType::Sulphur => 4,
            AsteroidType::Water | AsteroidType::Acid => 4,
            AsteroidType::WaterMedium | AsteroidType::AcidMedium => 6,
            AsteroidType::WaterBig | AsteroidType::AcidBig => 8,
            AsteroidType::ShipPiece(_) | AsteroidType::ShipPieceTarnished(_) => 4,
            AsteroidType::EncasedArtifact => 8,
            AsteroidType::Artifact => 6,
        }
    }

    pub fn get_radius(&self) -> (r: i64)
        ensures
            r == self.radius_spec(),
            2 <= r <= 8,
    {
        match self {
            AsteroidType::Big => 8,
            AsteroidType::Medium => 6,
            AsteroidType::Small => 4,
            AsteroidType::Bitty => 2,
            AsteroidType::Bomb => 4,
            AsteroidType::Hydrogen => 4,
            AsteroidType::Oxygen => 4,
            AsteroidType::Sulphur => 4,
            AsteroidType::Water | AsteroidType::Acid => 4,
            AsteroidType::WaterMedium | AsteroidType::AcidMedium => 6,
            AsteroidType::WaterBig | AsteroidType::AcidBig => 8,
            AsteroidType::ShipPiece(_) | AsteroidType::ShipPieceTarnished(_) => 4,
            AsteroidType::EncasedArtifact => 8,
            AsteroidType::Artifact => 6,
        }
    }

    /// The body mass of this kind.
    pub open spec fn mass_spec(self) -> int {
        match self {
            AsteroidType::Big => 20,
            AsteroidType::Medium => 10,
            AsteroidType::Small => 5,
            AsteroidType::Bitty => 4,
            AsteroidType::Bomb => 20,
            AsteroidType::Hydrogen => 4,
            AsteroidType::Oxygen => 4,
            AsteroidType::Water => 8,
            AsteroidType::WaterMedium => 16,
            AsteroidType::WaterBig => 32,
            AsteroidType::Sulphur => 4,
            AsteroidType::Acid => 12,
            AsteroidType::AcidMedium => 20,
            AsteroidType::AcidBig => 36,
            AsteroidType::ShipPiece(_) | AsteroidType::ShipPieceTarnished(_) => 80,
            AsteroidType::EncasedArtifact => 80,
            AsteroidType::Artifact => 70,
        }
    }

    pub fn get_mass(&self) -> (r: i64)
        ensures
            r == self.mass_spec(),
            4 <= r <= 80,
    {
        match self {
            AsteroidType::Big => 20,
            AsteroidType::Medium => 10,
            AsteroidType::Small => 5,
            AsteroidType::Bitty => 4,
            AsteroidType::Bomb => 20,
            AsteroidType::Hydrogen => 4,
            AsteroidType::Oxygen => 4,
            AsteroidType::Water => 8,
            AsteroidType::WaterMedium => 16,
            AsteroidType::WaterBig => 32,
            AsteroidType::Sulphur => 4,
            AsteroidType::Acid => 12,
            AsteroidType::AcidMedium => 20,
            AsteroidType::AcidBig => 36,
            AsteroidType::ShipPiece(_) | AsteroidType::ShipPieceTarnished(_) => 80,
            AsteroidType::EncasedArtifact => 80,
            AsteroidType::Artifact => 70,
        }
    }

    /// Whether a collision of the two kinds detonates, and with what
    /// strength and particle sprites.
    pub open spec fn explodes_spec(self, other: AsteroidType) -> Option<(int, Seq<usize>)> {
        match (self, other) {
            (AsteroidType::Bomb, AsteroidType::Bomb) => Some((500_000int, seq![36usize])),
            (AsteroidType::Hydrogen, AsteroidType::Bomb) => Some((500_000int, seq![34usize])),
            (AsteroidType::Bomb, AsteroidType::Hydrogen) => Some((500_000int, seq![34usize])),
            _ => None,
        }
    }

    /// The detonation a collision of the two kinds causes, if any: its
    /// strength and the particle sprites it scatters.
    pub fn explodes(&self, other: AsteroidType) -> (r: Option<(i64, Vec<usize>)>)
        ensures
            r is Some <==> self.explodes_spec(other) is Some,
            r is Some ==> {
                &&& (r->0).0 == (self.explodes_spec(other)->0).0
                &&& ((r->0).1)@ == (self.explodes_spec(other)->0).1
                &&& 0 <= (r->0).0 <= STRENGTH_LIMIT
            },
    {
        match (self, other) {
            (AsteroidType::Bomb, AsteroidType::Bomb) => {
                let mut v: Vec<usize> = Vec::new();
                v.push(36);
                proof {
                    assert(v@ =~= seq![36usize]);
                }
                Some((500_000, v))
            },
            (AsteroidType::Hydrogen, AsteroidType::Bomb) => {
                let mut v: Vec<usize> = Vec::new();
                v.push(34);
                proof {
                    assert(v@ =~= seq![34usize]);
                }
                Some((500_000, v))
            },
            (AsteroidType::Bomb, AsteroidType::Hydrogen) => {
                let mut v: Vec<usize> = Vec::new();
                v.push(34);
                proof {
                    assert(v@ =~= seq![34usize]);
                }
                Some((500_000, v))
            },
            _ => None,
        }
    }

    /// What a collision of the two kinds turns each side into: `Some(k)`
    /// transforms the side, `None` consumes it; `None` overall means no
    /// reaction.
    pub open spec fn reacts_spec(self, other: AsteroidType) -> Option<
        (Option<AsteroidType>, Option<AsteroidType>),
    > {
        match (self, other) {
            (AsteroidType::Hydrogen, AsteroidType::Oxygen) => Some(
                (Some(AsteroidType::Water), None),
            ),
            (AsteroidType::Oxygen, AsteroidType::Hydrogen) => Some(
                (Some(AsteroidType::Water), None),
            ),
            (AsteroidType::Water, AsteroidType::Water) => Some(
                (Some(AsteroidType::WaterMedium), None),
            ),
            (AsteroidType::WaterMedium, AsteroidType::WaterMedium) => Some(
                (Some(AsteroidType::WaterBig), None),
            ),
            (AsteroidType::Water, AsteroidType::Sulphur) => Some((Some(AsteroidType::Acid), None)),
            (AsteroidType::WaterMedium, AsteroidType::Sulphur) => Some(
                (Some(AsteroidType::AcidMedium), None),
            ),
            (AsteroidType::WaterBig, AsteroidType::Sulphur) => Some(
                (Some(AsteroidType::AcidBig), None),
            ),
            (AsteroidType::Sulphur, AsteroidType::Water) => Some((None, Some(AsteroidType::Acid))),
            (AsteroidType::Sulphur, AsteroidType::WaterMedium) => Some(
                (None, Some(AsteroidType::AcidMedium)),
            ),
            (AsteroidType::Sulphur, AsteroidType::WaterBig) => Some(
                (None, Some(AsteroidType::AcidBig)),
            ),
            (AsteroidType::Acid, AsteroidType::ShipPieceTarnished(idx)) => Some(
                (None, Some(AsteroidType::ShipPiece(idx))),
            ),
            (AsteroidType::ShipPieceTarnished(idx), AsteroidType::Acid) => Some(
                (Some(AsteroidType::ShipPiece(idx)), None),
            ),
            _ => None,
        }
    }

    /// The chemical outcome of a collision of the two kinds, if any.
    pub fn reacts(&self, other: AsteroidType) -> (r: Option<
        (Option<AsteroidType>, Option<AsteroidType>),
    >)
        ensures
            r == self.reacts_spec(other),
    {
        match (self, other) {
            (AsteroidType::Hydrogen, AsteroidType::Oxygen)
            | (AsteroidType::Oxygen, AsteroidType::Hydrogen) => {
                Some((Some(AsteroidType::Water), None))
            },
            (AsteroidType::Water, AsteroidType::Water) => {
                Some((Some(AsteroidType::WaterMedium), None))
            },
            (AsteroidType::WaterMedium, AsteroidType::WaterMedium) => {
                Some((Some(AsteroidType::WaterBig), None))
            },
            (AsteroidType::Water, AsteroidType::Sulphur) => Some((Some(AsteroidType::Acid), None)),
            (AsteroidType::WaterMedium, AsteroidType::Sulphur) => {
                Some((Some(AsteroidType::AcidMedium), None))
            },
            (AsteroidType::WaterBig, AsteroidType::Sulphur) => {
                Some((Some(AsteroidType::AcidBig), None))
            },
            (AsteroidType::Sulphur, AsteroidType::Water) => Some((None, Some(AsteroidType::Acid))),
            (AsteroidType::Sulphur, AsteroidType::WaterMedium) => {
                Some((None, Some(AsteroidType::AcidMedium)))
            },
            (AsteroidType::Sulphur, AsteroidType::WaterBig) => {
                Some((None, Some(AsteroidType::AcidBig)))
            },
            (AsteroidType::Acid, AsteroidType::ShipPieceTarnished(idx)) => {
                Some((None, Some(AsteroidType::ShipPiece(idx))))
            },
            (AsteroidType::ShipPieceTarnished(idx), AsteroidType::Acid) => {
                Some((Some(AsteroidType::ShipPiece(*idx)), None))
            },
            _ => None,
        }
    }
}

/// The kind recorded for entity `e` in a kind store, if any (first match).
pub open spec fn kind_of(s: Seq<(Entity, AsteroidType)>, e: Entity, n: int) -> Option<AsteroidType>
    decreases n,
{
    if n <= 0 {
        None
    } else {
        match kind_of(s, e, n - 1) {
            Some(k) => Some(k),
            None => {
                if s[n - 1].0 == e {
                    Some(s[n - 1].1)
                } else {
                    None
                }
            },
        }
    }
}

/// Once recorded, a kind stays found under any longer scan.
pub proof fn lemma_kind_stable(s: Seq<(Entity, AsteroidType)>, e: Entity, m: int, n: int)
    requires
        m <= n,
        kind_of(s, e, m) is Some,
    ensures
        kind_of(s, e, n) == kind_of(s, e, m),
    decreases n - m,
{
    if m < n {
        lemma_kind_stable(s, e, m, n - 1);
    }
}

/// Look entity `e`'s kind up in a kind store.
pub fn lookup_kind(kinds: &Vec<(Entity, AsteroidType)>, e: Entity) -> (r: Option<AsteroidType>)
    ensures
        r == kind_of(kinds@, e, kinds@.len() as int),
{
    let n = kinds.len();
    let mut t: usize = 0;
    while t < n
        invariant
            t <= n,
            n == kinds@.len(),
            kind_of(kinds@, e, t as int) is None,
        decreases n - t,
    {
        let entry = kinds[t];
        if entry.0.id == e.id {
            proof {
                assert(entry.0 == e);
                assert(kind_of(kinds@, e, t as int + 1) == Some(entry.1));
                lemma_kind_stable(kinds@, e, t as int + 1, kinds@.len() as int);
            }
            return Some(entry.1);
        }
        t += 1;
    }
    None
}

/// The destruction a contact event triggers, if any: the event just
/// started, both colliders resolve to entities, both entities have recorded
/// kinds, and the two kinds detonate together. The payload is the two
/// entities and the blast's strength and particle sprites.
pub open spec fn explode_decision(
    phys: Physics,
    kinds: Seq<(Entity, AsteroidType)>,
    ev: PhysicsContactEvent,
) -> Option<(Entity, Entity, int, Seq<usize>)> {
    if ev.kind is Started {
        match (phys.collider_entity_spec(ev.a as int), phys.collider_entity_spec(ev.b as int)) {
            (Some(ea), Some(eb)) => {
                match (kind_of(kinds, ea, kinds.len() as int), kind_of(
                    kinds,
                    eb,
                    kinds.len() as int,
                )) {
                    (Some(ka), Some(kb)) => {
                        match ka.explodes_spec(kb) {
                            Some(p) => Some((ea, eb, p.0, p.1)),
                            None => None,
                        }
                    },
                    _ => None,
                }
            },
            _ => None,
        }
    } else {
        None
    }
}

/// Where the replacement effect for a destroyed pair appears: the midpoint
/// of the two entities' body positions, when the registry still resolves
/// both; rounding is toward zero on each axis.
pub open spec fn explode_site(phys: Physics, reg: HandleRegistry, ea: Entity, eb: Entity) -> Option<
    Vec2,
> {
    let n = reg.recs@.len() as int;
    match (reg.find_spec(ea, n), reg.find_spec(eb, n)) {
        (Some(ta), Some(tb)) => {
            match (reg.recs@[ta].handle, reg.recs@[tb].handle) {
                (Some(ha), Some(hb)) => {
                    match (phys.position_spec(ha), phys.position_spec(hb)) {
                        (Some(pa), Some(pb)) => Some(
                            Vec2 {
                                x: tdiv(pa.pos.x + pb.pos.x, 2) as i64,
                                y: tdiv(pa.pos.y + pb.pos.y, 2) as i64,
                            },
                        ),
                        _ => None,
                    }
                },
                _ => None,
            }
        },
        _ => None,
    }
}

/// The effect spawns the first `k` events give rise to, in event order:
/// `(site, strength, particles)` for each detonating pair whose midpoint is
/// still resolvable.
pub open spec fn spawn_list(
    phys: Physics,
    reg: HandleRegistry,
    kinds: Seq<(Entity, AsteroidType)>,
    events: Seq<PhysicsContactEvent>,
    k: int,
) -> Seq<(Vec2, int, Seq<usize>)>
    decreases k,
{
    if k <= 0 {
        Seq::empty()
    } else {
        let prefix = spawn_list(phys, reg, kinds, events, k - 1);
        match explode_decision(phys, kinds, events[k - 1]) {
            Some(d) => {
                match explode_site(phys, reg, d.0, d.1) {
                    Some(site) => prefix.push((site, d.2, d.3)),
                    None => prefix,
                }
            },
            None => prefix,
        }
    }
}

/// Entity `e` is destroyed by one of the first `k` events.
pub open spec fn explode_killed(
    phys: Physics,
    kinds: Seq<(Entity, AsteroidType)>,
    events: Seq<PhysicsContactEvent>,
    k: int,
    e: Entity,
) -> bool
    decreases k,
{
    if k <= 0 {
        false
    } else {
        explode_killed(phys, kinds, events, k - 1, e) || (match explode_decision(
            phys,
            kinds,
            events[k - 1],
        ) {
            Some(d) => d.0 == e || d.1 == e,
            None => false,
        })
    }
}

/// The entities the first `k` events destroy, in event order (each
/// detonating pair contributes both its entities).
pub open spec fn kill_list(
    phys: Physics,
    kinds: Seq<(Entity, AsteroidType)>,
    events: Seq<PhysicsContactEvent>,
    k: int,
) -> Seq<Entity>
    decreases k,
{
    if k <= 0 {
        Seq::empty()
    } else {
        let prefix = kill_list(phys, kinds, events, k - 1);
        match explode_decision(phys, kinds, events[k - 1]) {
            Some(d) => prefix.push(d.0).push(d.1),
            None => prefix,
        }
    }
}

/// An entity stands in the kill list exactly when some event destroys it.
pub proof fn lemma_kill_list_iff(
    phys: Physics,
    kinds: Seq<(Entity, AsteroidType)>,
    events: Seq<PhysicsContactEvent>,
    k: int,
    e: Entity,
)
    ensures
        kill_list(phys, kinds, events, k).contains(e) <==> explode_killed(
            phys,
            kinds,
            events,
            k,
            e,
        ),
    decreases k,
{
    if k > 0 {
        lemma_kill_list_iff(phys, kinds, events, k - 1, e);
        let pre = kill_list(phys, kinds, events, k - 1);
        let cur = kill_list(phys, kinds, events, k);
        match explode_decision(phys, kinds, events[k - 1]) {
            Some(d) => {
                assert(cur == pre.push(d.0).push(d.1));
                if pre.contains(e) {
                    let i = choose|i: int| 0 <= i < pre.len() && pre[i] == e;
                    assert(cur[i] == e);
                }
                if d.0 == e {
                    assert(cur[cur.len() - 2] == e);
                }
                if d.1 == e {
                    assert(cur[cur.len() - 1] == e);
                }
                if cur.contains(e) {
                    let i = choose|i: int| 0 <= i < cur.len() && cur[i] == e;
                    if i < pre.len() {
                        assert(pre[i] == e);
                    }
                }
            },
            None => {
            },
        }
    }
}

/// The collision-driven destruction consumer: for each started contact
/// between two entities whose kinds detonate together, mark both entities
/// dead and emit a fresh combusting effect at their midpoint. A chain
/// reaction is a fresh instance, never recursion: the emitted effects spend
/// their charge on a later effect pass, so one consumer pass always ends.
/// Events whose colliders no longer resolve are silently dropped; nothing
/// else changes.
pub fn explosion_consumer_pass(
    phys: &Physics,
    reg: &mut HandleRegistry,
    kinds: &Vec<(Entity, AsteroidType)>,
    events: &Vec<PhysicsContactEvent>,
) -> (spawns: Vec<(Vec2, Explosion)>)
    requires
        phys.wf(),
    ensures
        final(reg).recs@.len() == old(reg).recs@.len(),
        forall|t: int|
            0 <= t < old(reg).recs@.len() ==> final(reg).recs@[t] == (if explode_killed(
                *phys,
                kinds@,
                events@,
                events@.len() as int,
                (#[trigger] old(reg).recs@[t]).entity,
            ) {
                EntityRec { alive: false, ..old(reg).recs@[t] }
            } else {
                old(reg).recs@[t]
            }),
        spawns@.len() == spawn_list(
            *phys,
            *old(reg),
            kinds@,
            events@,
            events@.len() as int,
        ).len(),
        forall|m: int|
            0 <= m < spawns@.len() ==> {
                let d = spawn_list(*phys, *old(reg), kinds@, events@, events@.len() as int)[m];
                &&& (#[trigger] spawns@[m]).0 == d.0
                &&& spawns@[m].1 is Combusting
                &&& spawns@[m].1->Combusting_strength == d.1
                &&& spawns@[m].1->Combusting_particles@ == d.2
            },
{
    let ghost reg0 = *reg;
    let n = events.len();
    let mut spawns: Vec<(Vec2, Explosion)> = Vec::new();
    let mut kills: Vec<Entity> = Vec::new();
    let mut k: usize = 0;
    while k < n
        invariant
            phys.wf(),
            k <= n,
            n == events@.len(),
            *reg == reg0,
            kills@ == kill_list(*phys, kinds@, events@, k as int),
            spawns@.len() == spawn_list(*phys, reg0, kinds@, events@, k as int).len(),
            forall|m: int|
                0 <= m < spawns@.len() ==> {
                    let d = spawn_list(*phys, reg0, kinds@, events@, k as int)[m];
                    &&& (#[trigger] spawns@[m]).0 == d.0
                    &&& spawns@[m].1 is Combusting
                    &&& spawns@[m].1->Combusting_strength == d.1
                    &&& spawns@[m].1->Combusting_particles@ == d.2
                },
        decreases n - k,
    {
        let ev = events[k];
        let mut handled = false;
        if matches!(ev.kind, ContactKind::Started) {
            let ra = phys.get_collider_entity(ev.a);
            let rb = phys.get_collider_entity(ev.b);
            if let (Some(ea), Some(eb)) = (ra, rb) {
                let ka = lookup_kind(kinds, ea);
                let kb = lookup_kind(kinds, eb);
                if let (Some(ka), Some(kb)) = (ka, kb) {
                    if let Some((strength, particles)) = ka.explodes(kb) {
                        handled = true;
                        proof {
                            assert(explode_decision(*phys, kinds@, events@[k as int]) == Some(
                                (ea, eb, strength as int, particles@),
                            )) by {
                                assert(ka.explodes_spec(kb) is Some);
                            }
                        }
                        let site = explode_site_exec(phys, reg, ea, eb);
                        if let Some(site) = site {
                            spawns.push(
                                (site, Explosion::Combusting { strength, particles }),
                            );
                        }
                        kills.push(ea);
                        kills.push(eb);
                    }
                }
            }
        }
        proof {
            if !handled {
                assert(explode_decision(*phys, kinds@, events@[k as int]) is None);
            }
        }
        k += 1;
    }

    // Apply the deaths after every event has been decided, so a pair's
    // midpoint is still resolvable when a later event names one of its
    // entities.
    let m = kills.len();
    let mut i: usize = 0;
    while i < m
        invariant
            i <= m,
            m == kills@.len(),
            reg.recs@.len() == reg0.recs@.len(),
            forall|t: int|
                0 <= t < reg0.recs@.len() ==> reg.recs@[t] == (if (exists|idx: int|
                    0 <= idx < i && kills@[idx] == (#[trigger] reg0.recs@[t]).entity) {
                    EntityRec { alive: false, ..reg0.recs@[t] }
                } else {
                    reg0.recs@[t]
                }),
        decreases m - i,
    {
        let e = kills[i];
        reg.kill(e);
        proof {
            assert forall|t: int|
                0 <= t < reg0.recs@.len() implies reg.recs@[t] == (if (exists|idx: int|
                0 <= idx < i + 1 && kills@[idx] == (#[trigger] reg0.recs@[t]).entity) {
                EntityRec { alive: false, ..reg0.recs@[t] }
            } else {
                reg0.recs@[t]
            }) by {
                if reg0.recs@[t].entity == e {
                    assert(kills@[i as int] == reg0.recs@[t].entity);
                }
            }
        }
        i += 1;
    }
    proof {
        assert forall|t: int|
            0 <= t < reg0.recs@.len() implies reg.recs@[t] == (if explode_killed(
            *phys,
            kinds@,
            events@,
            events@.len() as int,
            (#[trigger] reg0.recs@[t]).entity,
        ) {
            EntityRec { alive: false, ..reg0.recs@[t] }
        } else {
            reg0.recs@[t]
        }) by {
            lemma_kill_list_iff(
                *phys,
                kinds@,
                events@,
                events@.len() as int,
                reg0.recs@[t].entity,
            );
            if kills@.contains(reg0.recs@[t].entity) {
                let idx = choose|idx: int|
                    0 <= idx < kills@.len() && kills@[idx] == reg0.recs@[t].entity;
                assert(exists|idx2: int|
                    0 <= idx2 < kills@.len() && kills@[idx2] == reg0.recs@[t].entity);
            } else {
                assert(forall|idx: int|
                    0 <= idx < kills@.len() ==> kills@[idx] != reg0.recs@[t].entity);
            }
        }
    }
    spawns
}

/// The first record of entity `e` in a kind store, if any.
pub open spec fn find_kind_idx(s: Seq<(Entity, AsteroidType)>, e: Entity, n: int) -> Option<int>
    decreases n,
{
    if n <= 0 {
        None
    } else {
        match find_kind_idx(s, e, n - 1) {
            Some(i) => Some(i),
            None => {
                if s[n - 1].0 == e {
                    Some(n - 1)
                } else {
                    None
                }
            },
        }
    }
}

proof fn lemma_find_kind_idx_stable(s: Seq<(Entity, AsteroidType)>, e: Entity, m: int, n: int)
    requires
        m <= n,
        find_kind_idx(s, e, m) is Some,
    ensures
        find_kind_idx(s, e, n) == find_kind_idx(s, e, m),
    decreases n - m,
{
    if m < n {
        lemma_find_kind_idx_stable(s, e, m, n - 1);
    }
}

/// The kind store with entity `e`'s first record set to kind `k`; unchanged
/// when `e` has no record.
pub open spec fn apply_kind(s: Seq<(Entity, AsteroidType)>, e: Entity, k: AsteroidType) -> Seq<
    (Entity, AsteroidType),
> {
    match find_kind_idx(s, e, s.len() as int) {
        Some(i) => s.update(i, (e, k)),
        None => s,
    }
}

/// Set entity `e`'s recorded kind.
pub fn set_kind(kinds: &mut Vec<(Entity, AsteroidType)>, e: Entity, k: AsteroidType)
    ensures
        final(kinds)@ == apply_kind(old(kinds)@, e, k),
{
    let n = kinds.len();
    let mut t: usize = 0;
    while t < n
        invariant
            t <= n,
            n == kinds@.len(),
            *kinds == *old(kinds),
            find_kind_idx(kinds@, e, t as int) is None,
        decreases n - t,
    {
        let entry = kinds[t];
        if entry.0.id == e.id {
            proof {
                assert(entry.0 == e);
                assert(find_kind_idx(kinds@, e, t as int + 1) == Some(t as int));
                lemma_find_kind_idx_stable(kinds@, e, t as int + 1, kinds@.len() as int);
            }
            kinds.set(t, (e, k));
            return ;
        }
        t += 1;
    }
}

/// The chemical outcome a contact event triggers, if any: the event just
/// started, both colliders resolve to entities, both entities have recorded
/// kinds, and the two kinds react. The payload is the two entities and what
/// each becomes (`None` consumes the side).
pub open spec fn react_decision(
    phys: Physics,
    kinds: Seq<(Entity, AsteroidType)>,
    ev: PhysicsContactEvent,
) -> Option<(Entity, Entity, Option<AsteroidType>, Option<AsteroidType>)> {
    if ev.kind is Started {
        match (phys.collider_entity_spec(ev.a as int), phys.collider_entity_spec(ev.b as int)) {
            (Some(ea), Some(eb)) => {
                match (kind_of(kinds, ea, kinds.len() as int), kind_of(
                    kinds,
                    eb,
                    kinds.len() as int,
                )) {
                    (Some(ka), Some(kb)) => {
                        match ka.reacts_spec(kb) {
                            Some(p) => Some((ea, eb, p.0, p.1)),
                            None => None,
                        }
                    },
                    _ => None,
                }
            },
            _ => None,
        }
    } else {
        None
    }
}

/// The kind store after the first `k` events have reacted, in order; each
/// event reads the store as the events before it left it.
pub open spec fn kinds_after(
    phys: Physics,
    events: Seq<PhysicsContactEvent>,
    s0: Seq<(Entity, AsteroidType)>,
    k: int,
) -> Seq<(Entity, AsteroidType)>
    decreases k,
{
    if k <= 0 {
        s0
    } else {
        let s = kinds_after(phys, events, s0, k - 1);
        match react_decision(phys, s, events[k - 1]) {
            Some(d) => {
                let s1 = match d.2 {
                    Some(nk) => apply_kind(s, d.0, nk),
                    None => s,
                };
                match d.3 {
                    Some(nk) => apply_kind(s1, d.1, nk),
                    None => s1,
                }
            },
            None => s,
        }
    }
}

/// The entities the first `k` reaction events consume, in event order.
pub open spec fn react_kill_list(
    phys: Physics,
    events: Seq<PhysicsContactEvent>,
    s0: Seq<(Entity, AsteroidType)>,
    k: int,
) -> Seq<Entity>
    decreases k,
{
    if k <= 0 {
        Seq::empty()
    } else {
        let prefix = react_kill_list(phys, events, s0, k - 1);
        match react_decision(phys, kinds_after(phys, events, s0, k - 1), events[k - 1]) {
            Some(d) => {
                let p1 = if d.2 is None {
                    prefix.push(d.0)
                } else {
                    prefix
                };
                if d.3 is None {
                    p1.push(d.1)
                } else {
                    p1
                }
            },
            None => prefix,
        }
    }
}

/// The shape swaps the first `k` reaction events schedule, in order: each
/// transformed side whose registry record still holds a handle gets the
/// circle of its new kind's radius.
pub open spec fn resize_list(
    phys: Physics,
    reg: HandleRegistry,
    events: Seq<PhysicsContactEvent>,
    s0: Seq<(Entity, AsteroidType)>,
    k: int,
) -> Seq<(crate::types::PhysicsHandle, Shape)>
    decreases k,
{
    if k <= 0 {
        Seq::empty()
    } else {
        let prefix = resize_list(phys, reg, events, s0, k - 1);
        match react_decision(phys, kinds_after(phys, events, s0, k - 1), events[k - 1]) {
            Some(d) => {
                let p1 = match d.2 {
                    Some(nk) => push_resize(prefix, reg, d.0, nk),
                    None => prefix,
                };
                match d.3 {
                    Some(nk) => push_resize(p1, reg, d.1, nk),
                    None => p1,
                }
            },
            None => prefix,
        }
    }
}

/// Append the shape swap for one transformed entity, when its record still
/// holds a handle.
pub open spec fn push_resize(
    prefix: Seq<(crate::types::PhysicsHandle, Shape)>,
    reg: HandleRegistry,
    e: Entity,
    nk: AsteroidType,
) -> Seq<(crate::types::PhysicsHandle, Shape)> {
    match reg.find_spec(e, reg.recs@.len() as int) {
        Some(t) => {
            match reg.recs@[t].handle {
                Some(h) => prefix.push((h, Shape::Circle { radius: nk.radius_spec() as i64 })),
                None => prefix,
            }
        },
        None => prefix,
    }
}

/// The collider slab after the scheduled shape swaps below `m` have been
/// applied in order.
pub open spec fn colliders_after(
    cols: Seq<Option<crate::types::Collider>>,
    list: Seq<(crate::types::PhysicsHandle, Shape)>,
    m: int,
) -> Seq<Option<crate::types::Collider>>
    decreases m,
{
    if m <= 0 {
        cols
    } else {
        let pre = colliders_after(cols, list, m - 1);
        let h = list[m - 1].0;
        if h.collider is Some && 0 <= h.collider->0 < pre.len() && pre[h.collider->0 as int]
            is Some {
            pre.update(
                h.collider->0 as int,
                Some(
                    crate::types::Collider {
                        shape: list[m - 1].1,
                        ..pre[h.collider->0 as int]->0
                    },
                ),
            )
        } else {
            pre
        }
    }
}

/// Entity `e` is consumed by one of the first `k` reaction events.
pub open spec fn react_killed(
    phys: Physics,
    events: Seq<PhysicsContactEvent>,
    s0: Seq<(Entity, AsteroidType)>,
    k: int,
    e: Entity,
) -> bool {
    react_kill_list(phys, events, s0, k).contains(e)
}

/// The chemical-reaction consumer: for each started contact between two
/// entities whose kinds react, transform each surviving side's recorded
/// kind and schedule its collider for the new radius, and mark each
/// consumed side's entity dead. Events whose colliders no longer resolve
/// are silently dropped. Later events read the kinds as earlier events
/// left them; deaths and shape swaps land after every event is decided.
pub fn reaction_consumer_pass(
    phys: &mut Physics,
    reg: &mut HandleRegistry,
    kinds: &mut Vec<(Entity, AsteroidType)>,
    events: &Vec<PhysicsContactEvent>,
)
    requires
        old(phys).wf(),
    ensures
        final(phys).wf(),
        final(kinds)@ == kinds_after(*old(phys), events@, old(kinds)@, events@.len() as int),
        final(reg).recs@.len() == old(reg).recs@.len(),
        forall|t: int|
            0 <= t < old(reg).recs@.len() ==> final(reg).recs@[t] == (if react_killed(
                *old(phys),
                events@,
                old(kinds)@,
                events@.len() as int,
                (#[trigger] old(reg).recs@[t]).entity,
            ) {
                EntityRec { alive: false, ..old(reg).recs@[t] }
            } else {
                old(reg).recs@[t]
            }),
        final(phys).bodies@ == old(phys).bodies@,
        old(phys).same_logs(*final(phys)),
        final(phys).colliders@ == colliders_after(
            old(phys).colliders@,
            resize_list(
                *old(phys),
                *old(reg),
                events@,
                old(kinds)@,
                events@.len() as int,
            ),
            resize_list(
                *old(phys),
                *old(reg),
                events@,
                old(kinds)@,
                events@.len() as int,
            ).len() as int,
        ),
{
    let ghost phys0 = *phys;
    let ghost reg0 = *reg;
    let ghost kinds0 = kinds@;
    let n = events.len();
    let mut kills: Vec<Entity> = Vec::new();
    let mut resizes: Vec<(crate::types::PhysicsHandle, Shape)> = Vec::new();
    let mut k: usize = 0;
    while k < n
        invariant
            phys.wf(),
            *phys == phys0,
            *reg == reg0,
            k <= n,
            n == events@.len(),
            kinds@ == kinds_after(phys0, events@, kinds0, k as int),
            kills@ == react_kill_list(phys0, events@, kinds0, k as int),
            resizes@ == resize_list(phys0, reg0, events@, kinds0, k as int),
            forall|m: int| 0 <= m < resizes@.len() ==> (#[trigger] resizes@[m]).1.wf(),
        decreases n - k,
    {
        let ev = events[k];
        let mut handled = false;
        if matches!(ev.kind, ContactKind::Started) {
            let ra = phys.get_collider_entity(ev.a);
            let rb = phys.get_collider_entity(ev.b);
            if let (Some(ea), Some(eb)) = (ra, rb) {
                let ka = lookup_kind(kinds, ea);
                let kb = lookup_kind(kinds, eb);
                if let (Some(ka), Some(kb)) = (ka, kb) {
                    if let Some((out_a, out_b)) = ka.reacts(kb) {
                        handled = true;
                        proof {
                            assert(react_decision(phys0, kinds@, events@[k as int]) == Some(
                                (ea, eb, out_a, out_b),
                            ));
                        }
                        match out_a {
                            Some(nk) => {
                                push_resize_exec(&mut resizes, reg, ea, nk);
                                set_kind(kinds, ea, nk);
                            },
                            None => {
                                kills.push(ea);
                            },
                        }
                        match out_b {
                            Some(nk) => {
                                push_resize_exec(&mut resizes, reg, eb, nk);
                                set_kind(kinds, eb, nk);
                            },
                            None => {
                                kills.push(eb);
                            },
                        }
                    }
                }
            }
        }
        proof {
            if !handled {
                assert(react_decision(phys0, kinds_after(phys0, events@, kinds0, k as int), events@[k as int]) is None);
            }
        }
        k += 1;
    }

    // Apply the deaths.
    let m = kills.len();
    let mut i: usize = 0;
    while i < m
        invariant
            i <= m,
            m == kills@.len(),
            *phys == phys0,
            phys.wf(),
            reg.recs@.len() == reg0.recs@.len(),
            forall|t: int|
                0 <= t < reg0.recs@.len() ==> reg.recs@[t] == (if (exists|idx: int|
                    0 <= idx < i && kills@[idx] == (#[trigger] reg0.recs@[t]).entity) {
                    EntityRec { alive: false, ..reg0.recs@[t] }
                } else {
                    reg0.recs@[t]
                }),
        decreases m - i,
    {
        let e = kills[i];
        reg.kill(e);
        proof {
            assert forall|t: int|
                0 <= t < reg0.recs@.len() implies reg.recs@[t] == (if (exists|idx: int|
                0 <= idx < i + 1 && kills@[idx] == (#[trigger] reg0.recs@[t]).entity) {
                EntityRec { alive: false, ..reg0.recs@[t] }
            } else {
                reg0.recs@[t]
            }) by {
                if reg0.recs@[t].entity == e {
                    assert(kills@[i as int] == reg0.recs@[t].entity);
                }
            }
        }
        i += 1;
    }
    proof {
        let klist = react_kill_list(phys0, events@, kinds0, n as int);
        assert forall|t: int|
            0 <= t < reg0.recs@.len() implies reg.recs@[t] == (if react_killed(
            phys0,
            events@,
            kinds0,
            n as int,
            (#[trigger] reg0.recs@[t]).entity,
        ) {
            EntityRec { alive: false, ..reg0.recs@[t] }
        } else {
            reg0.recs@[t]
        }) by {
            if klist.contains(reg0.recs@[t].entity) {
                let idx = choose|idx: int|
                    0 <= idx < klist.len() && klist[idx] == reg0.recs@[t].entity;
                assert(kills@[idx] == reg0.recs@[t].entity);
            }
        }
    }

    // Apply the scheduled shape swaps.
    let ghost rlist = resizes@;
    let p = resizes.len();
    let mut q: usize = 0;
    while q < p
        invariant
            q <= p,
            p == rlist.len(),
            resizes@ == rlist,
            forall|w: int| 0 <= w < rlist.len() ==> (#[trigger] rlist[w]).1.wf(),
            phys.wf(),
            phys.bodies@ == phys0.bodies@,
            phys0.same_logs(*phys),
            phys.colliders@ == colliders_after(phys0.colliders@, rlist, q as int),
        decreases p - q,
    {
        let (h, shape) = resizes[q];
        phys.change_shape(&h, shape);
        q += 1;
    }
}

/// Record the shape swap for one transformed entity.
fn push_resize_exec(
    resizes: &mut Vec<(crate::types::PhysicsHandle, Shape)>,
    reg: &HandleRegistry,
    e: Entity,
    nk: AsteroidType,
)
    ensures
        final(resizes)@ == push_resize(old(resizes)@, *reg, e, nk),
        forall|m: int|
            0 <= m < old(resizes)@.len() && (#[trigger] old(resizes)@[m]).1.wf() ==> final(resizes)@[m].1.wf(),
        forall|m: int|
            old(resizes)@.len() <= m < final(resizes)@.len() ==> (#[trigger] final(resizes)@[m]).1.wf(),
{
    if let Some(t) = reg.find(e) {
        let rec = reg.recs[t];
        if let Some(h) = rec.handle {
            let r = nk.get_radius();
            resizes.push((h, Shape::Circle { radius: r }));
        }
    }
}

/// Compute the replacement site for a destroyed pair.
fn explode_site_exec(phys: &Physics, reg: &HandleRegistry, ea: Entity, eb: Entity) -> (r: Option<
    Vec2,
>)
    requires
        phys.wf(),
    ensures
        r == explode_site(*phys, *reg, ea, eb),
{
    if let (Some(ta), Some(tb)) = (reg.find(ea), reg.find(eb)) {
        let ra = reg.recs[ta];
        let rb = reg.recs[tb];
        if let (Some(ha), Some(hb)) = (ra.handle, rb.handle) {
            if let (Some(pa), Some(pb)) = (phys.get_position(&ha), phys.get_position(&hb)) {
                proof {
                    assert(phys.bodies@[ha.body->0 as int] is Some);
                    assert(phys.bodies@[ha.body->0 as int]->0.wf());
                    assert(phys.bodies@[hb.body->0 as int] is Some);
                    assert(phys.bodies@[hb.body->0 as int]->0.wf());
                }
                let sx = crate::math::div_trunc(pa.pos.x + pb.pos.x, 2);
                let sy = crate::math::div_trunc(pa.pos.y + pb.pos.y, 2);
                return Some(Vec2 { x: sx, y: sy });
            }
        }
    }
    None
}

} // verus!
