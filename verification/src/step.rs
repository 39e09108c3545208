//! The tick: integrate accumulated effects into velocities and poses, detect
//! threshold crossings against the last tick's positions, append the
//! resulting edge-triggered events, and apply contact response between solid
//! colliders.
//!
//! Every spec function here reads the world as it stands *before* the step;
//! `step`'s contract pins each body, each collider and both logs to them.

use vstd::prelude::*;

use crate::geometry::classify_at;
use crate::geometry::classify_exec;
use crate::math::{
    clamp, clamp_spec, div_trunc, sgn, sgn_exec, tdiv, vadd, vadd_exec, Vec2, COORD_LIMIT,
    VEL_LIMIT,
};
use crate::types::{
    Body, BodyStatus, Collider, ContactKind, PhysicsContactEvent, PhysicsProximityEvent, Proximity,
    ANGLE_LIMIT, DAMP_LIMIT, FORCE_LIMIT, MASS_LIMIT,
};
use crate::world::Physics;

verus! {

/// Velocity nudge (per axis) that a solid contact gives a dynamic body,
/// pushing it away from the collider it overlaps.
pub const SEP_PUSH: i64 = 4;

/// Factor scale used by per-step linear damping: a damping coefficient `d`
/// multiplies the velocity by `1000 / (1000 + d)` each step.
pub const DAMP_SCALE: i64 = 1000;

impl Physics {
    /// The velocity body `i` carries after the step consumes its
    /// accumulators and applies damping: each component gains the queued
    /// velocity change plus the queued force divided by the mass, is clamped,
    /// and is then scaled by `1000 / (1000 + damping)`. A non-dynamic body
    /// keeps its velocity.
    pub open spec fn vel_integrated(self, i: int) -> Vec2 {
        let b = self.body_at(i);
        if b.status is Dynamic {
            let sx = b.vel.x + b.accel_accum.x + tdiv(b.force_accum.x as int, b.mass as int);
            let sy = b.vel.y + b.accel_accum.y + tdiv(b.force_accum.y as int, b.mass as int);
            let vx = tdiv(clamp_spec(sx, VEL_LIMIT as int) * DAMP_SCALE, DAMP_SCALE + b.damping);
            let vy = tdiv(clamp_spec(sy, VEL_LIMIT as int) * DAMP_SCALE, DAMP_SCALE + b.damping);
            Vec2 { x: vx as i64, y: vy as i64 }
        } else {
            b.vel
        }
    }

    /// The position body `i` reaches: one unit timestep of the integrated
    /// velocity, clamped into the world bounds. A non-dynamic body stays.
    pub open spec fn pos_after(self, i: int) -> Vec2 {
        let b = self.body_at(i);
        if b.status is Dynamic {
            Vec2 {
                x: clamp_spec(b.pos.x + self.vel_integrated(i).x, COORD_LIMIT as int) as i64,
                y: clamp_spec(b.pos.y + self.vel_integrated(i).y, COORD_LIMIT as int) as i64,
            }
        } else {
            b.pos
        }
    }

    /// The rotation body `i` reaches: one unit timestep of its angular
    /// velocity, clamped. A non-dynamic body stays.
    pub open spec fn rot_after(self, i: int) -> i64 {
        let b = self.body_at(i);
        if b.status is Dynamic {
            clamp_spec(b.rot + b.ang_vel, ANGLE_LIMIT as int) as i64
        } else {
            b.rot
        }
    }

    /// Body `i` with its accumulators consumed and its pose integrated, but
    /// before contact response.
    pub open spec fn integrated_body(self, i: int) -> Body {
        Body {
            pos: self.pos_after(i),
            rot: self.rot_after(i),
            vel: self.vel_integrated(i),
            accel_accum: Vec2::zero_spec(),
            force_accum: Vec2::zero_spec(),
            ..self.body_at(i)
        }
    }

    /// The world position collider `j` holds once poses are integrated.
    pub open spec fn wpos_after(self, j: int) -> Option<Vec2> {
        if self.live_coll(j) && self.live_body(self.coll_at(j).parent as int) {
            Some(vadd(self.pos_after(self.coll_at(j).parent as int), self.coll_at(j).offset))
        } else {
            None
        }
    }

    /// The proximity the pair `(i, j)` reaches this step, or `None` while
    /// either collider does not stand in the world.
    pub open spec fn new_status(self, i: int, j: int) -> Option<Proximity> {
        match (self.wpos_after(i), self.wpos_after(j)) {
            (Some(pi), Some(pj)) => Some(
                classify_at(pi, self.coll_at(i).shape, pj, self.coll_at(j).shape),
            ),
            _ => None,
        }
    }

    /// The proximity the pair `(i, j)` held at the end of the last step; a
    /// pair with no recorded position on either side counts as disjoint, so
    /// a pair born overlapping fires its transition on its first step.
    pub open spec fn prev_status(self, i: int, j: int) -> Proximity {
        match (self.coll_at(i).last_pos, self.coll_at(j).last_pos) {
            (Some(qi), Some(qj)) => classify_at(
                qi,
                self.coll_at(i).shape,
                qj,
                self.coll_at(j).shape,
            ),
            _ => Proximity::Disjoint,
        }
    }

    /// The contact events the pair `(i, j)` contributes this step: pairs of
    /// solid colliders report the edge into and out of intersection, at most
    /// one event per pair per step.
    pub open spec fn contact_events_pair(self, i: int, j: int) -> Seq<PhysicsContactEvent> {
        if self.new_status(i, j) is Some && !self.coll_at(i).sensor && !self.coll_at(j).sensor {
            let n = self.new_status(i, j)->0;
            let p = self.prev_status(i, j);
            if !(p is Intersecting) && n is Intersecting {
                seq![
                    PhysicsContactEvent { a: i as usize, b: j as usize, kind: ContactKind::Started },
                ]
            } else if p is Intersecting && !(n is Intersecting) {
                seq![
                    PhysicsContactEvent { a: i as usize, b: j as usize, kind: ContactKind::Stopped },
                ]
            } else {
                Seq::empty()
            }
        } else {
            Seq::empty()
        }
    }

    /// The proximity events the pair `(i, j)` contributes this step: pairs
    /// involving a sensor report each change of proximity, at most one event
    /// per pair per step, and none while the state merely persists.
    pub open spec fn prox_events_pair(self, i: int, j: int) -> Seq<PhysicsProximityEvent> {
        if self.new_status(i, j) is Some && (self.coll_at(i).sensor || self.coll_at(j).sensor) {
            let n = self.new_status(i, j)->0;
            let p = self.prev_status(i, j);
            if p != n {
                seq![
                    PhysicsProximityEvent {
                        a: i as usize,
                        b: j as usize,
                        previous: p,
                        new_status: n,
                    },
                ]
            } else {
                Seq::empty()
            }
        } else {
            Seq::empty()
        }
    }

    /// The contact events of the pairs `(i, i+1) .. (i, jend-1)`, in order.
    pub open spec fn contact_row(self, i: int, jend: int) -> Seq<PhysicsContactEvent>
        decreases jend - i,
    {
        if jend <= i + 1 {
            Seq::empty()
        } else {
            self.contact_row(i, jend - 1) + self.contact_events_pair(i, jend - 1)
        }
    }

    /// The contact events of every pair whose first collider is below
    /// `iend`, in lexicographic pair order.
    pub open spec fn contact_rows(self, iend: int) -> Seq<PhysicsContactEvent>
        decreases iend,
    {
        if iend <= 0 {
            Seq::empty()
        } else {
            self.contact_rows(iend - 1) + self.contact_row(iend - 1, self.colliders@.len() as int)
        }
    }

    /// Everything the step appends to the contact log.
    pub open spec fn contact_batch(self) -> Seq<PhysicsContactEvent> {
        self.contact_rows(self.colliders@.len() as int)
    }

    /// The proximity events of the pairs `(i, i+1) .. (i, jend-1)`, in
    /// order.
    pub open spec fn prox_row(self, i: int, jend: int) -> Seq<PhysicsProximityEvent>
        decreases jend - i,
    {
        if jend <= i + 1 {
            Seq::empty()
        } else {
            self.prox_row(i, jend - 1) + self.prox_events_pair(i, jend - 1)
        }
    }

    /// The proximity events of every pair whose first collider is below
    /// `iend`, in lexicographic pair order.
    pub open spec fn prox_rows(self, iend: int) -> Seq<PhysicsProximityEvent>
        decreases iend,
    {
        if iend <= 0 {
            Seq::empty()
        } else {
            self.prox_rows(iend - 1) + self.prox_row(iend - 1, self.colliders@.len() as int)
        }
    }

    /// Everything the step appends to the proximity log.
    pub open spec fn prox_batch(self) -> Seq<PhysicsProximityEvent> {
        self.prox_rows(self.colliders@.len() as int)
    }

    /// Body `i` is dynamic and carries a live solid primary collider, so
    /// contact response can reach it.
    pub open spec fn push_ctx(self, i: int) -> bool {
        &&& self.live_body(i)
        &&& self.body_at(i).status is Dynamic
        &&& self.live_coll(self.body_at(i).primary as int)
        &&& !self.coll_at(self.body_at(i).primary as int).sensor
        &&& self.coll_at(self.body_at(i).primary as int).parent == i
    }

    /// Collider `k` pushes body `i` this step: `i` can take response, `k` is
    /// another live solid collider, and the two overlap at the integrated
    /// poses.
    pub open spec fn push_applies(self, i: int, k: int) -> bool {
        let ci = self.body_at(i).primary as int;
        &&& self.push_ctx(i)
        &&& k != ci
        &&& self.live_coll(k)
        &&& !self.coll_at(k).sensor
        &&& self.wpos_after(ci) is Some
        &&& self.wpos_after(k) is Some
        &&& classify_at(
            self.wpos_after(ci)->0,
            self.coll_at(ci).shape,
            self.wpos_after(k)->0,
            self.coll_at(k).shape,
        ) is Intersecting
    }

    /// The separating nudge collider `k` gives body `i`: `SEP_PUSH` along
    /// the sign of each axis difference of the two collider centres.
    pub open spec fn push_term(self, i: int, k: int) -> Vec2 {
        let ci = self.body_at(i).primary as int;
        let p = self.wpos_after(ci)->0;
        let q = self.wpos_after(k)->0;
        Vec2 {
            x: (sgn(p.x - q.x) * SEP_PUSH) as i64,
            y: (sgn(p.y - q.y) * SEP_PUSH) as i64,
        }
    }

    /// The response accumulated on body `i` from colliders below `kend`,
    /// clamped after each contribution.
    pub open spec fn push_upto(self, i: int, kend: int) -> Vec2
        decreases kend,
    {
        if kend <= 0 {
            Vec2::zero_spec()
        } else {
            let acc = self.push_upto(i, kend - 1);
            if self.push_applies(i, kend - 1) {
                Vec2 {
                    x: clamp_spec(acc.x + self.push_term(i, kend - 1).x, VEL_LIMIT as int) as i64,
                    y: clamp_spec(acc.y + self.push_term(i, kend - 1).y, VEL_LIMIT as int) as i64,
                }
            } else {
                acc
            }
        }
    }

    /// The whole response on body `i`.
    pub open spec fn push_total(self, i: int) -> Vec2 {
        self.push_upto(i, self.colliders@.len() as int)
    }

    /// Body `i` as the step leaves it: integrated, with contact response
    /// folded into the velocity.
    pub open spec fn stepped_body_value(self, i: int) -> Body {
        Body {
            vel: Vec2 {
                x: clamp_spec(
                    self.vel_integrated(i).x + self.push_total(i).x,
                    VEL_LIMIT as int,
                ) as i64,
                y: clamp_spec(
                    self.vel_integrated(i).y + self.push_total(i).y,
                    VEL_LIMIT as int,
                ) as i64,
            },
            ..self.integrated_body(i)
        }
    }

    /// Body slot `i` as the step leaves it.
    pub open spec fn stepped_body(self, i: int) -> Option<Body> {
        if self.live_body(i) {
            Some(self.stepped_body_value(i))
        } else {
            None
        }
    }

    /// Collider slot `j` as the step leaves it: unchanged but for the
    /// recorded world position the next step will compare against.
    pub open spec fn stepped_collider(self, j: int) -> Option<Collider> {
        if self.live_coll(j) {
            Some(Collider { last_pos: self.wpos_after(j), ..self.coll_at(j) })
        } else {
            None
        }
    }

    /// An integrated velocity stays inside the velocity bound.
    pub proof fn lemma_vel_integrated_bounded(self, i: int)
        requires
            self.wf(),
            self.live_body(i),
        ensures
            self.vel_integrated(i).bounded(VEL_LIMIT as int),
    {
        let b = self.body_at(i);
        assert(self.bodies@[i] is Some);
        assert(b.wf());
        if b.status is Dynamic {
            let sx = b.vel.x + b.accel_accum.x + tdiv(b.force_accum.x as int, b.mass as int);
            let sy = b.vel.y + b.accel_accum.y + tdiv(b.force_accum.y as int, b.mass as int);
            lemma_damped_bounded(clamp_spec(sx, VEL_LIMIT as int), b.damping as int);
            lemma_damped_bounded(clamp_spec(sy, VEL_LIMIT as int), b.damping as int);
        }
    }

    /// An integrated position stays inside the world bound.
    pub proof fn lemma_pos_after_bounded(self, i: int)
        requires
            self.wf(),
            self.live_body(i),
        ensures
            self.pos_after(i).bounded(COORD_LIMIT as int),
    {
        assert(self.bodies@[i] is Some);
        assert(self.body_at(i).wf());
    }

    /// An integrated collider world position stays inside twice the world
    /// bound.
    pub proof fn lemma_wpos_bounded(self, j: int)
        requires
            self.wf(),
            self.wpos_after(j) is Some,
        ensures
            self.wpos_after(j)->0.bounded(2 * COORD_LIMIT as int),
    {
        assert(self.colliders@[j] is Some);
        assert(self.coll_at(j).wf());
        self.lemma_pos_after_bounded(self.coll_at(j).parent as int);
    }

    /// A body that cannot take contact response accumulates no push.
    pub proof fn lemma_push_zero(self, i: int, n: int)
        requires
            !self.push_ctx(i),
        ensures
            self.push_upto(i, n) == Vec2::zero_spec(),
        decreases n,
    {
        if n > 0 {
            self.lemma_push_zero(i, n - 1);
        }
    }

    /// An accumulated push stays inside the velocity bound.
    pub proof fn lemma_push_bounded(self, i: int, n: int)
        ensures
            self.push_upto(i, n).bounded(VEL_LIMIT as int),
        decreases n,
    {
        if n > 0 {
            self.lemma_push_bounded(i, n - 1);
        }
    }

    /// Advance the simulation exactly one tick: consume the accumulated
    /// forces and velocity changes, damp and integrate every dynamic body,
    /// append to the logs exactly this tick's contact and proximity
    /// transitions (one event per pair that crossed a threshold, none for a
    /// pair whose state persists), nudge overlapping solid dynamic bodies
    /// apart, and record every collider's position for the next tick's
    /// comparison. Deterministic: the outcome is a function of the state.
    pub fn step(&mut self)
        requires
            old(self).wf(),
        ensures
            final(self).wf(),
            final(self).bodies@.len() == old(self).bodies@.len(),
            final(self).colliders@.len() == old(self).colliders@.len(),
            forall|i: int|
                0 <= i < old(self).bodies@.len() ==> final(self).bodies@[i] == old(
                    self,
                ).stepped_body(i),
            forall|j: int|
                0 <= j < old(self).colliders@.len() ==> final(self).colliders@[j] == old(
                    self,
                ).stepped_collider(j),
            final(self).contacts@ == old(self).contacts@ + old(self).contact_batch(),
            final(self).proximities@ == old(self).proximities@ + old(self).prox_batch(),
            final(self).contact_tick_start == old(self).contacts@.len(),
            final(self).prox_tick_start == old(self).proximities@.len(),
    {
        let ghost w0 = *self;
        let n_b = self.bodies.len();
        let n_c = self.colliders.len();

        // Integrate every body's accumulators into velocity and pose.
        let mut i: usize = 0;
        while i < n_b
            invariant
                w0.wf(),
                i <= n_b,
                n_b == self.bodies@.len(),
                n_b == w0.bodies@.len(),
                self.colliders@ == w0.colliders@,
                self.contacts@ == w0.contacts@,
                self.proximities@ == w0.proximities@,
                self.contact_tick_start == w0.contact_tick_start,
                self.prox_tick_start == w0.prox_tick_start,
                forall|k: int|
                    0 <= k < i ==> self.bodies@[k] == (if w0.live_body(k) {
                        Some(w0.integrated_body(k))
                    } else {
                        None::<Body>
                    }),
                forall|k: int| i <= k < n_b ==> self.bodies@[k] == w0.bodies@[k],
            decreases n_b - i,
        {
            let ob = self.bodies[i];
            if let Some(body) = ob {
                proof {
                    assert(w0.bodies@[i as int] is Some);
                    assert(w0.bodies@[i as int]->0.wf());
                }
                if matches!(body.status, BodyStatus::Dynamic) {
                    proof {
                        lemma_force_div_bounded(body.force_accum.x as int, body.mass as int);
                        lemma_force_div_bounded(body.force_accum.y as int, body.mass as int);
                    }
                    let fdx = div_trunc(body.force_accum.x, body.mass);
                    let fdy = div_trunc(body.force_accum.y, body.mass);
                    let cx = clamp(body.vel.x + body.accel_accum.x + fdx, VEL_LIMIT);
                    let cy = clamp(body.vel.y + body.accel_accum.y + fdy, VEL_LIMIT);
                    proof {
                        lemma_damped_bounded(cx as int, body.damping as int);
                        lemma_damped_bounded(cy as int, body.damping as int);
                    }
                    let vx = div_trunc(cx * DAMP_SCALE, DAMP_SCALE + body.damping);
                    let vy = div_trunc(cy * DAMP_SCALE, DAMP_SCALE + body.damping);
                    let px = clamp(body.pos.x + vx, COORD_LIMIT);
                    let py = clamp(body.pos.y + vy, COORD_LIMIT);
                    let rot = clamp(body.rot + body.ang_vel, ANGLE_LIMIT);
                    let nb = Body {
                        pos: Vec2 { x: px, y: py },
                        rot,
                        vel: Vec2 { x: vx, y: vy },
                        accel_accum: Vec2::zero(),
                        force_accum: Vec2::zero(),
                        ..body
                    };
                    self.bodies.set(i, Some(nb));
                    proof {
                        assert(nb == w0.integrated_body(i as int));
                    }
                } else {
                    let nb = Body {
                        accel_accum: Vec2::zero(),
                        force_accum: Vec2::zero(),
                        ..body
                    };
                    self.bodies.set(i, Some(nb));
                    proof {
                        assert(nb == w0.integrated_body(i as int));
                    }
                }
            }
            i += 1;
        }

        // Mark where this tick's log entries begin.
        self.contact_tick_start = self.contacts.len();
        self.prox_tick_start = self.proximities.len();

        // Record every collider's integrated world position.
        let mut wpos: Vec<Option<Vec2>> = Vec::new();
        let mut j: usize = 0;
        while j < n_c
            invariant
                w0.wf(),
                j <= n_c,
                n_b == self.bodies@.len(),
                n_b == w0.bodies@.len(),
                n_c == self.colliders@.len(),
                n_c == w0.colliders@.len(),
                self.colliders@ == w0.colliders@,
                self.contacts@ == w0.contacts@,
                self.proximities@ == w0.proximities@,
                self.contact_tick_start == w0.contacts@.len(),
                self.prox_tick_start == w0.proximities@.len(),
                bodies_integrated(w0, self.bodies@),
                wpos@.len() == j,
                forall|m: int| 0 <= m < j ==> wpos@[m] == w0.wpos_after(m),
            decreases n_c - j,
        {
            let mut entry: Option<Vec2> = None;
            if let Some(coll) = self.colliders[j] {
                proof {
                    assert(w0.colliders@[j as int] is Some);
                    assert(w0.colliders@[j as int]->0.wf());
                }
                if let Some(pb) = self.bodies[coll.parent] {
                    proof {
                        assert(w0.live_body(coll.parent as int));
                        w0.lemma_pos_after_bounded(coll.parent as int);
                        assert(pb == w0.integrated_body(coll.parent as int));
                    }
                    entry = Some(vadd_exec(pb.pos, coll.offset));
                }
            }
            proof {
                assert(entry == w0.wpos_after(j as int));
            }
            wpos.push(entry);
            j += 1;
        }

        // Scan every pair once, in order, appending this tick's transitions.
        let mut i: usize = 0;
        while i < n_c
            invariant
                w0.wf(),
                i <= n_c,
                n_b == self.bodies@.len(),
                n_b == w0.bodies@.len(),
                n_c == self.colliders@.len(),
                n_c == w0.colliders@.len(),
                self.colliders@ == w0.colliders@,
                bodies_integrated(w0, self.bodies@),
                wpos@.len() == n_c,
                forall|m: int| 0 <= m < n_c ==> wpos@[m] == w0.wpos_after(m),
                self.contact_tick_start == w0.contacts@.len(),
                self.prox_tick_start == w0.proximities@.len(),
                self.contacts@ == w0.contacts@ + w0.contact_rows(i as int),
                self.proximities@ == w0.proximities@ + w0.prox_rows(i as int),
            decreases n_c - i,
        {
            let mut j: usize = i + 1;
            while j < n_c
                invariant
                    w0.wf(),
                    i < n_c,
                    i + 1 <= j <= n_c,
                    n_b == self.bodies@.len(),
                    n_b == w0.bodies@.len(),
                    n_c == self.colliders@.len(),
                    n_c == w0.colliders@.len(),
                    self.colliders@ == w0.colliders@,
                    bodies_integrated(w0, self.bodies@),
                    wpos@.len() == n_c,
                    forall|m: int| 0 <= m < n_c ==> wpos@[m] == w0.wpos_after(m),
                    self.contact_tick_start == w0.contacts@.len(),
                    self.prox_tick_start == w0.proximities@.len(),
                    self.contacts@ == w0.contacts@ + w0.contact_rows(i as int) + w0.contact_row(
                        i as int,
                        j as int,
                    ),
                    self.proximities@ == w0.proximities@ + w0.prox_rows(i as int) + w0.prox_row(
                        i as int,
                        j as int,
                    ),
                decreases n_c - j,
            {
                if let (Some(pi), Some(pj)) = (wpos[i], wpos[j]) {
                    proof {
                        assert(wpos@[i as int] == w0.wpos_after(i as int));
                        assert(wpos@[j as int] == w0.wpos_after(j as int));
                        assert(w0.live_coll(i as int));
                        assert(w0.live_coll(j as int));
                        assert(w0.colliders@[i as int]->0.wf());
                        assert(w0.colliders@[j as int]->0.wf());
                        w0.lemma_wpos_bounded(i as int);
                        w0.lemma_wpos_bounded(j as int);
                    }
                    let ci = self.colliders[i].unwrap();
                    let cj = self.colliders[j].unwrap();
                    let new_st = classify_exec(pi, ci.shape, pj, cj.shape);
                    let prev_st = if let (Some(qi), Some(qj)) = (ci.last_pos, cj.last_pos) {
                        classify_exec(qi, ci.shape, qj, cj.shape)
                    } else {
                        Proximity::Disjoint
                    };
                    proof {
                        assert(Some(new_st) == w0.new_status(i as int, j as int));
                        assert(prev_st == w0.prev_status(i as int, j as int));
                    }
                    if ci.sensor || cj.sensor {
                        if prev_st != new_st {
                            self.proximities.push(
                                PhysicsProximityEvent {
                                    a: i,
                                    b: j,
                                    previous: prev_st,
                                    new_status: new_st,
                                },
                            );
                        }
                    } else {
                        if !matches!(prev_st, Proximity::Intersecting) && matches!(
                            new_st,
                            Proximity::Intersecting,
                        ) {
                            self.contacts.push(
                                PhysicsContactEvent { a: i, b: j, kind: ContactKind::Started },
                            );
                        } else if matches!(prev_st, Proximity::Intersecting) && !matches!(
                            new_st,
                            Proximity::Intersecting,
                        ) {
                            self.contacts.push(
                                PhysicsContactEvent { a: i, b: j, kind: ContactKind::Stopped },
                            );
                        }
                    }
                }
                proof {
                    assert(w0.contact_row(i as int, j as int + 1) == w0.contact_row(
                        i as int,
                        j as int,
                    ) + w0.contact_events_pair(i as int, j as int));
                    assert(w0.prox_row(i as int, j as int + 1) == w0.prox_row(i as int, j as int)
                        + w0.prox_events_pair(i as int, j as int));
                    assert(self.contacts@ =~= w0.contacts@ + w0.contact_rows(i as int)
                        + w0.contact_row(i as int, j as int + 1));
                    assert(self.proximities@ =~= w0.proximities@ + w0.prox_rows(i as int)
                        + w0.prox_row(i as int, j as int + 1));
                }
                j += 1;
            }
            proof {
                assert(w0.contact_rows(i as int + 1) == w0.contact_rows(i as int) + w0.contact_row(
                    i as int,
                    n_c as int,
                ));
                assert(self.contacts@ =~= w0.contacts@ + w0.contact_rows(i as int + 1));
                assert(w0.prox_rows(i as int + 1) == w0.prox_rows(i as int) + w0.prox_row(
                    i as int,
                    n_c as int,
                ));
                assert(self.proximities@ =~= w0.proximities@ + w0.prox_rows(i as int + 1));
            }
            i += 1;
        }

        // Contact response: nudge each dynamic body away from the solid
        // colliders its own solid collider overlaps.
        let mut i: usize = 0;
        while i < n_b
            invariant
                w0.wf(),
                i <= n_b,
                n_b == self.bodies@.len(),
                n_b == w0.bodies@.len(),
                n_c == self.colliders@.len(),
                n_c == w0.colliders@.len(),
                self.colliders@ == w0.colliders@,
                wpos@.len() == n_c,
                forall|m: int| 0 <= m < n_c ==> wpos@[m] == w0.wpos_after(m),
                self.contact_tick_start == w0.contacts@.len(),
                self.prox_tick_start == w0.proximities@.len(),
                self.contacts@ == w0.contacts@ + w0.contact_batch(),
                self.proximities@ == w0.proximities@ + w0.prox_batch(),
                forall|k: int| 0 <= k < i ==> self.bodies@[k] == w0.stepped_body(k),
                forall|k: int|
                    i <= k < n_b ==> self.bodies@[k] == (if w0.live_body(k) {
                        Some(w0.integrated_body(k))
                    } else {
                        None::<Body>
                    }),
            decreases n_b - i,
        {
            let ob = self.bodies[i];
            if let Some(body) = ob {
                proof {
                    assert(w0.live_body(i as int));
                    assert(body == w0.integrated_body(i as int));
                    w0.lemma_vel_integrated_bounded(i as int);
                }
                let mut applied = false;
                if matches!(body.status, BodyStatus::Dynamic) && body.primary < n_c {
                    if let Some(cp) = self.colliders[body.primary] {
                        if !cp.sensor && cp.parent == i {
                            if let Some(p_ci) = wpos[body.primary] {
                                proof {
                                    assert(w0.push_ctx(i as int));
                                    assert(w0.wpos_after(body.primary as int) == Some(p_ci));
                                    w0.lemma_wpos_bounded(body.primary as int);
                                    assert(w0.colliders@[body.primary as int]->0.wf());
                                }
                                let mut accx: i64 = 0;
                                let mut accy: i64 = 0;
                                let mut k: usize = 0;
                                while k < n_c
                                    invariant
                                        w0.wf(),
                                        k <= n_c,
                                        i < n_b,
                                        n_c == self.colliders@.len(),
                                        n_c == w0.colliders@.len(),
                                        self.colliders@ == w0.colliders@,
                                        wpos@.len() == n_c,
                                        forall|m: int|
                                            0 <= m < n_c ==> wpos@[m] == w0.wpos_after(m),
                                        w0.push_ctx(i as int),
                                        body == w0.integrated_body(i as int),
                                        body.primary < n_c,
                                        cp == w0.coll_at(body.primary as int),
                                        w0.wpos_after(body.primary as int) == Some(p_ci),
                                        p_ci.bounded(2 * COORD_LIMIT as int),
                                        (Vec2 { x: accx, y: accy }) == w0.push_upto(
                                            i as int,
                                            k as int,
                                        ),
                                        -VEL_LIMIT <= accx <= VEL_LIMIT,
                                        -VEL_LIMIT <= accy <= VEL_LIMIT,
                                    decreases n_c - k,
                                {
                                    if k != body.primary {
                                        if let Some(pk) = wpos[k] {
                                            proof {
                                                assert(wpos@[k as int] == w0.wpos_after(k as int));
                                                assert(w0.live_coll(k as int));
                                                assert(w0.colliders@[k as int]->0.wf());
                                                w0.lemma_wpos_bounded(k as int);
                                            }
                                            let ck = self.colliders[k].unwrap();
                                            if !ck.sensor {
                                                let cls = classify_exec(
                                                    p_ci,
                                                    cp.shape,
                                                    pk,
                                                    ck.shape,
                                                );
                                                if matches!(cls, Proximity::Intersecting) {
                                                    proof {
                                                        assert(w0.push_applies(i as int, k as int));
                                                    }
                                                    accx = clamp(
                                                        accx + sgn_exec(p_ci.x - pk.x) * SEP_PUSH,
                                                        VEL_LIMIT,
                                                    );
                                                    accy = clamp(
                                                        accy + sgn_exec(p_ci.y - pk.y) * SEP_PUSH,
                                                        VEL_LIMIT,
                                                    );
                                                }
                                            }
                                        }
                                    }
                                    proof {
                                        assert((Vec2 { x: accx, y: accy }) == w0.push_upto(
                                            i as int,
                                            k as int + 1,
                                        ));
                                    }
                                    k += 1;
                                }
                                let nvx = clamp(body.vel.x + accx, VEL_LIMIT);
                                let nvy = clamp(body.vel.y + accy, VEL_LIMIT);
                                let nb = Body { vel: Vec2 { x: nvx, y: nvy }, ..body };
                                self.bodies.set(i, Some(nb));
                                proof {
                                    assert(nb == w0.stepped_body_value(i as int));
                                }
                                applied = true;
                            }
                        }
                    }
                }
                if !applied {
                    proof {
                        assert(!w0.push_ctx(i as int));
                        w0.lemma_push_zero(i as int, n_c as int);
                        assert(w0.push_total(i as int) == Vec2::zero_spec());
                        assert(body == w0.stepped_body_value(i as int));
                    }
                }
            }
            i += 1;
        }

        // Remember every collider's world position for the next tick.
        let mut j: usize = 0;
        while j < n_c
            invariant
                w0.wf(),
                j <= n_c,
                n_b == self.bodies@.len(),
                n_b == w0.bodies@.len(),
                n_c == self.colliders@.len(),
                n_c == w0.colliders@.len(),
                wpos@.len() == n_c,
                forall|m: int| 0 <= m < n_c ==> wpos@[m] == w0.wpos_after(m),
                self.contact_tick_start == w0.contacts@.len(),
                self.prox_tick_start == w0.proximities@.len(),
                self.contacts@ == w0.contacts@ + w0.contact_batch(),
                self.proximities@ == w0.proximities@ + w0.prox_batch(),
                forall|k: int| 0 <= k < n_b ==> self.bodies@[k] == w0.stepped_body(k),
                forall|m: int| 0 <= m < j ==> self.colliders@[m] == w0.stepped_collider(m),
                forall|m: int| j <= m < n_c ==> self.colliders@[m] == w0.colliders@[m],
            decreases n_c - j,
        {
            if let Some(coll) = self.colliders[j] {
                let lp = wpos[j];
                self.colliders.set(j, Some(Collider { last_pos: lp, ..coll }));
            }
            j += 1;
        }

        // The state is well-formed again.
        proof {
            assert(w0 == *old(self));
            assert forall|i: int|
                0 <= i < self.bodies@.len() && self.bodies@[i] is Some implies (
            #[trigger] self.bodies@[i])->0.wf() && self.bodies@[i]->0.primary
                < self.colliders@.len() by {
                assert(self.bodies@[i] == w0.stepped_body(i));
                assert(w0.live_body(i));
                assert(w0.bodies@[i]->0.wf());
                w0.lemma_vel_integrated_bounded(i);
                w0.lemma_pos_after_bounded(i);
            }
            assert forall|j: int|
                0 <= j < self.colliders@.len() && self.colliders@[j] is Some implies (
            #[trigger] self.colliders@[j])->0.wf() && self.colliders@[j]->0.parent
                < self.bodies@.len() by {
                assert(self.colliders@[j] == w0.stepped_collider(j));
                assert(w0.live_coll(j));
                assert(w0.colliders@[j]->0.wf());
                if w0.wpos_after(j) is Some {
                    w0.lemma_wpos_bounded(j);
                }
            }
        }
    }

    /// Among the proximity events one step appends, those naming the pair
    /// `(i, j)` are exactly the pair's own transition: one event when the
    /// pair crossed a threshold this tick, and none while its state merely
    /// persists.
    pub proof fn lemma_prox_exactly_once_per_pair(self, i: usize, j: usize)
        requires
            i < j < self.colliders@.len(),
        ensures
            self.prox_batch().filter(names_pair_prox(i, j)) == self.prox_events_pair(
                i as int,
                j as int,
            ),
    {
        assert(vstd::std_specs::vec::spec_vec_len(&self.colliders) == self.colliders@.len());
        self.lemma_prox_rows_filter(self.colliders@.len() as int, i, j);
    }

    /// Among the contact events one step appends, those naming the pair
    /// `(i, j)` are exactly the pair's own transition: one event when the
    /// pair started or stopped touching this tick, and none otherwise.
    pub proof fn lemma_contact_exactly_once_per_pair(self, i: usize, j: usize)
        requires
            i < j < self.colliders@.len(),
        ensures
            self.contact_batch().filter(names_pair_contact(i, j)) == self.contact_events_pair(
                i as int,
                j as int,
            ),
    {
        assert(vstd::std_specs::vec::spec_vec_len(&self.colliders) == self.colliders@.len());
        self.lemma_contact_rows_filter(self.colliders@.len() as int, i, j);
    }

    proof fn lemma_prox_row_filter(self, i: int, jend: int, i0: usize, j0: usize)
        requires
            0 <= i,
            jend <= usize::MAX + 1,
        ensures
            self.prox_row(i, jend).filter(names_pair_prox(i0, j0)) == (if i == i0 as int && i + 1
                <= (j0 as int) < jend {
                self.prox_events_pair(i0 as int, j0 as int)
            } else {
                Seq::<PhysicsProximityEvent>::empty()
            }),
        decreases jend - i,
    {
        let pred = names_pair_prox(i0, j0);
        if jend <= i + 1 {
            lemma_filter_empty(pred);
        } else {
            self.lemma_prox_row_filter(i, jend - 1, i0, j0);
            Seq::filter_distributes_over_add(
                self.prox_row(i, jend - 1),
                self.prox_events_pair(i, jend - 1),
                pred,
            );
            lemma_filter_small(self.prox_events_pair(i, jend - 1), pred);
            let s = self.prox_events_pair(i, jend - 1);
            if s.len() > 0 {
                assert(s[0].a == (i as usize) && s[0].b == ((jend - 1) as usize));
                if i == i0 as int && jend - 1 == j0 as int {
                    assert(pred(s[0]));
                } else {
                    assert(!pred(s[0]));
                }
            }
            assert(self.prox_row(i, jend).filter(pred) =~= (if i == i0 as int && i + 1 <= (j0 as int) < jend {
                self.prox_events_pair(i0 as int, j0 as int)
            } else {
                Seq::<PhysicsProximityEvent>::empty()
            }));
        }
    }

    proof fn lemma_prox_rows_filter(self, iend: int, i0: usize, j0: usize)
        requires
            i0 < j0,
            (j0 as int) < self.colliders@.len(),
            self.colliders@.len() <= usize::MAX,
        ensures
            self.prox_rows(iend).filter(names_pair_prox(i0, j0)) == (if (i0 as int) < iend {
                self.prox_events_pair(i0 as int, j0 as int)
            } else {
                Seq::<PhysicsProximityEvent>::empty()
            }),
        decreases iend,
    {
        let pred = names_pair_prox(i0, j0);
        if iend <= 0 {
            lemma_filter_empty(pred);
        } else {
            self.lemma_prox_rows_filter(iend - 1, i0, j0);
            self.lemma_prox_row_filter(iend - 1, self.colliders@.len() as int, i0, j0);
            Seq::filter_distributes_over_add(
                self.prox_rows(iend - 1),
                self.prox_row(iend - 1, self.colliders@.len() as int),
                pred,
            );
            assert(self.prox_rows(iend).filter(pred) =~= (if (i0 as int) < iend {
                self.prox_events_pair(i0 as int, j0 as int)
            } else {
                Seq::<PhysicsProximityEvent>::empty()
            }));
        }
    }

    proof fn lemma_contact_row_filter(self, i: int, jend: int, i0: usize, j0: usize)
        requires
            0 <= i,
            jend <= usize::MAX + 1,
        ensures
            self.contact_row(i, jend).filter(names_pair_contact(i0, j0)) == (if i == i0 as int && i + 1 <= (j0 as int) < jend {
                self.contact_events_pair(i0 as int, j0 as int)
            } else {
                Seq::<PhysicsContactEvent>::empty()
            }),
        decreases jend - i,
    {
        let pred = names_pair_contact(i0, j0);
        if jend <= i + 1 {
            lemma_filter_empty(pred);
        } else {
            self.lemma_contact_row_filter(i, jend - 1, i0, j0);
            Seq::filter_distributes_over_add(
                self.contact_row(i, jend - 1),
                self.contact_events_pair(i, jend - 1),
                pred,
            );
            lemma_filter_small(self.contact_events_pair(i, jend - 1), pred);
            let s = self.contact_events_pair(i, jend - 1);
            if s.len() > 0 {
                assert(s[0].a == (i as usize) && s[0].b == ((jend - 1) as usize));
                if i == i0 as int && jend - 1 == j0 as int {
                    assert(pred(s[0]));
                } else {
                    assert(!pred(s[0]));
                }
            }
            assert(self.contact_row(i, jend).filter(pred) =~= (if i == i0 as int && i + 1 <= (j0 as int) < jend {
                self.contact_events_pair(i0 as int, j0 as int)
            } else {
                Seq::<PhysicsContactEvent>::empty()
            }));
        }
    }

    proof fn lemma_contact_rows_filter(self, iend: int, i0: usize, j0: usize)
        requires
            i0 < j0,
            (j0 as int) < self.colliders@.len(),
            self.colliders@.len() <= usize::MAX,
        ensures
            self.contact_rows(iend).filter(names_pair_contact(i0, j0)) == (if (i0 as int) < iend {
                self.contact_events_pair(i0 as int, j0 as int)
            } else {
                Seq::<PhysicsContactEvent>::empty()
            }),
        decreases iend,
    {
        let pred = names_pair_contact(i0, j0);
        if iend <= 0 {
            lemma_filter_empty(pred);
        } else {
            self.lemma_contact_rows_filter(iend - 1, i0, j0);
            self.lemma_contact_row_filter(iend - 1, self.colliders@.len() as int, i0, j0);
            Seq::filter_distributes_over_add(
                self.contact_rows(iend - 1),
                self.contact_row(iend - 1, self.colliders@.len() as int),
                pred,
            );
            assert(self.contact_rows(iend).filter(pred) =~= (if (i0 as int) < iend {
                self.contact_events_pair(i0 as int, j0 as int)
            } else {
                Seq::<PhysicsContactEvent>::empty()
            }));
        }
    }
}

/// Holds of the proximity events that name the collider pair `(i0, j0)`.
pub open spec fn names_pair_prox(i0: usize, j0: usize) -> spec_fn(PhysicsProximityEvent) -> bool {
    |e: PhysicsProximityEvent| e.a == i0 && e.b == j0
}

/// Holds of the contact events that name the collider pair `(i0, j0)`.
pub open spec fn names_pair_contact(i0: usize, j0: usize) -> spec_fn(PhysicsContactEvent) -> bool {
    |e: PhysicsContactEvent| e.a == i0 && e.b == j0
}

/// Filtering the empty sequence yields the empty sequence.
proof fn lemma_filter_empty<T>(pred: spec_fn(T) -> bool)
    ensures
        Seq::<T>::empty().filter(pred) == Seq::<T>::empty(),
{
    reveal(Seq::filter);
}

/// Filtering a sequence of at most one element keeps it exactly when the
/// predicate holds of that element.
proof fn lemma_filter_small<T>(s: Seq<T>, pred: spec_fn(T) -> bool)
    requires
        s.len() <= 1,
    ensures
        s.len() == 0 ==> s.filter(pred) == Seq::<T>::empty(),
        s.len() == 1 && pred(s[0]) ==> s.filter(pred) == s,
        s.len() == 1 && !pred(s[0]) ==> s.filter(pred) == Seq::<T>::empty(),
{
    reveal(Seq::filter);
    if s.len() == 1 {
        assert(s.drop_last() =~= Seq::<T>::empty());
        assert(s.drop_last().filter(pred) == Seq::<T>::empty());
        if pred(s[0]) {
            assert(s.filter(pred) =~= s);
        }
    } else {
        assert(s =~= Seq::<T>::empty());
    }
}

/// The body slab of `cur` is `w0`'s with every live body integrated.
pub open spec fn bodies_integrated(w0: Physics, cur: Seq<Option<Body>>) -> bool {
    &&& cur.len() == w0.bodies@.len()
    &&& forall|k: int|
        0 <= k < cur.len() ==> cur[k] == (if w0.live_body(k) {
            Some(w0.integrated_body(k))
        } else {
            None::<Body>
        })
}

/// A queued force divided by any legal mass stays inside the force bound.
proof fn lemma_force_div_bounded(f: int, m: int)
    requires
        -FORCE_LIMIT <= f <= FORCE_LIMIT,
        1 <= m <= MASS_LIMIT,
    ensures
        -FORCE_LIMIT <= tdiv(f, m) <= FORCE_LIMIT,
{
    if f >= 0 {
        assert(0 <= f / m <= FORCE_LIMIT) by (nonlinear_arith)
            requires
                0 <= f <= FORCE_LIMIT,
                1 <= m,
        ;
    } else {
        assert(0 <= (-f) / m <= FORCE_LIMIT) by (nonlinear_arith)
            requires
                0 <= -f <= FORCE_LIMIT,
                1 <= m,
        ;
    }
}

/// Damping never speeds a body up: the damped velocity stays inside the
/// velocity bound, and the scaled numerator stays inside the machine type.
proof fn lemma_damped_bounded(v: int, d: int)
    requires
        -VEL_LIMIT <= v <= VEL_LIMIT,
        0 <= d <= DAMP_LIMIT,
    ensures
        -(VEL_LIMIT * DAMP_SCALE) <= v * DAMP_SCALE <= VEL_LIMIT * DAMP_SCALE,
        -VEL_LIMIT <= tdiv(v * DAMP_SCALE, DAMP_SCALE + d) <= VEL_LIMIT,
{
    let q = v * DAMP_SCALE;
    let m1 = DAMP_SCALE + d;
    assert(-(VEL_LIMIT * DAMP_SCALE) <= q <= VEL_LIMIT * DAMP_SCALE) by (nonlinear_arith)
        requires
            -VEL_LIMIT <= v <= VEL_LIMIT,
            q == v * DAMP_SCALE,
    ;
    if q >= 0 {
        assert(0 <= q / m1 <= VEL_LIMIT) by (nonlinear_arith)
            requires
                0 <= q <= VEL_LIMIT * DAMP_SCALE,
                DAMP_SCALE <= m1,
                0 < DAMP_SCALE,
        ;
    } else {
        assert(0 <= (-q) / m1 <= VEL_LIMIT) by (nonlinear_arith)
            requires
                0 <= -q <= VEL_LIMIT * DAMP_SCALE,
                DAMP_SCALE <= m1,
                0 < DAMP_SCALE,
        ;
    }
}

} // verus!
