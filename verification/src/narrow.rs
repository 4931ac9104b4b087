//! Narrow phase: exact contacts for every candidate pair, merged into
//! persistent manifolds so impulses can be warm-started, plus the contact
//! events a step reports.

use vstd::prelude::*;
use crate::arena::{Arena, Handle, Slot};
use crate::body::{RigidBody, body_valid};
use crate::collider::Collider;
use crate::fx::FX_ONE;
use crate::geometry::shape_contact;
use crate::manifold::{Manifold, Contact, ContactEvent, MANIFOLD_RETENTION, manifold_valid};
use crate::pipeline::{collider_center, collider_active, pair_ok, pairs_from, pairs_row};
use crate::vec3::{Vec3, v_fits};
use crate::world::World;

verus! {

/// First manifold stored for the ordered pair `(a, b)`.
pub open spec fn find_manifold(s: Seq<Manifold>, a: Handle, b: Handle) -> Option<Manifold>
    decreases s.len(),
{
    if s.len() == 0 {
        Option::None
    } else if s[0].collider_a == a && s[0].collider_b == b {
        Option::Some(s[0])
    } else {
        find_manifold(s.subrange(1, s.len() as int), a, b)
    }
}

/// The manifold the pair `(i, j)` carries into the solver this step:
/// a fresh contact resets the contactless counter and inherits the previous
/// accumulated impulse; a contactless pair ages its manifold until the
/// retention limit drops it.
pub open spec fn pair_manifold(
    bodies: Seq<Slot<RigidBody>>,
    cols: Seq<Slot<Collider>>,
    old_ms: Seq<Manifold>,
    i: int,
    j: int,
) -> Option<Manifold> {
    let ha = Handle { index: i as usize, generation: cols[i].generation };
    let hb = Handle { index: j as usize, generation: cols[j].generation };
    let ca = cols[i].value.unwrap();
    let cb = cols[j].value.unwrap();
    let contact = shape_contact(
        ca.shape,
        collider_center(bodies, ca),
        cb.shape,
        collider_center(bodies, cb),
    );
    let prev = find_manifold(old_ms, ha, hb);
    match contact {
        Option::Some(c) => Option::Some(
            Manifold {
                collider_a: ha,
                collider_b: hb,
                contact: Option::Some(c),
                warm_impulse: match prev {
                    Option::Some(m) => m.warm_impulse,
                    Option::None => 0i64,
                },
                steps_without_contact: 0u32,
            },
        ),
        Option::None => match prev {
            Option::Some(m) => if m.steps_without_contact >= MANIFOLD_RETENTION {
                Option::None
            } else {
                Option::Some(
                    Manifold {
                        contact: Option::None,
                        steps_without_contact: (m.steps_without_contact + 1) as u32,
                        ..m
                    },
                )
            },
            Option::None => Option::None,
        },
    }
}

/// The event the pair `(i, j)` reports this step, if any: `Started` on a
/// first contact, `Stopped` when a touching manifold loses its contact.
pub open spec fn pair_event(
    bodies: Seq<Slot<RigidBody>>,
    cols: Seq<Slot<Collider>>,
    old_ms: Seq<Manifold>,
    i: int,
    j: int,
) -> Seq<ContactEvent> {
    let ha = Handle { index: i as usize, generation: cols[i].generation };
    let hb = Handle { index: j as usize, generation: cols[j].generation };
    let ca = cols[i].value.unwrap();
    let cb = cols[j].value.unwrap();
    let contact = shape_contact(
        ca.shape,
        collider_center(bodies, ca),
        cb.shape,
        collider_center(bodies, cb),
    );
    let prev = find_manifold(old_ms, ha, hb);
    let had = match prev {
        Option::Some(m) => m.contact is Some,
        Option::None => false,
    };
    match contact {
        Option::Some(_) => if !had {
            seq![ContactEvent::Started { collider_a: ha, collider_b: hb }]
        } else {
            Seq::empty()
        },
        Option::None => if had {
            seq![ContactEvent::Stopped { collider_a: ha, collider_b: hb }]
        } else {
            Seq::empty()
        },
    }
}

/// Manifolds of all candidate pairs, in pair order.
pub open spec fn narrow_manifolds(
    bodies: Seq<Slot<RigidBody>>,
    cols: Seq<Slot<Collider>>,
    old_ms: Seq<Manifold>,
    pairs: Seq<(usize, usize)>,
) -> Seq<Manifold>
    decreases pairs.len(),
{
    if pairs.len() == 0 {
        Seq::empty()
    } else {
        let rest = narrow_manifolds(bodies, cols, old_ms, pairs.drop_last());
        match pair_manifold(
            bodies,
            cols,
            old_ms,
            pairs.last().0 as int,
            pairs.last().1 as int,
        ) {
            Option::Some(m) => rest.push(m),
            Option::None => rest,
        }
    }
}

/// Events of all candidate pairs, in pair order.
pub open spec fn narrow_pair_events(
    bodies: Seq<Slot<RigidBody>>,
    cols: Seq<Slot<Collider>>,
    old_ms: Seq<Manifold>,
    pairs: Seq<(usize, usize)>,
) -> Seq<ContactEvent>
    decreases pairs.len(),
{
    if pairs.len() == 0 {
        Seq::empty()
    } else {
        narrow_pair_events(bodies, cols, old_ms, pairs.drop_last()) + pair_event(
            bodies,
            cols,
            old_ms,
            pairs.last().0 as int,
            pairs.last().1 as int,
        )
    }
}

/// Separation events for touching manifolds whose pair is no longer even a
/// candidate, unless the pair simply went to sleep with its bodies.
pub open spec fn gone_pair_events(
    bodies: Seq<Slot<RigidBody>>,
    cols: Seq<Slot<Collider>>,
    old_ms: Seq<Manifold>,
    new_ms: Seq<Manifold>,
) -> Seq<ContactEvent>
    decreases old_ms.len(),
{
    if old_ms.len() == 0 {
        Seq::empty()
    } else {
        let rest = gone_pair_events(bodies, cols, old_ms.drop_last(), new_ms);
        let m = old_ms.last();
        if m.contact is Some && find_manifold(new_ms, m.collider_a, m.collider_b) is None
            && gone_manifold_reportable(bodies, cols, m) {
            rest.push(ContactEvent::Stopped { collider_a: m.collider_a, collider_b: m.collider_b })
        } else {
            rest
        }
    }
}

/// A dropped manifold is reported unless both sides still exist and are
/// resting: a sleeping island keeps touching silently.
pub open spec fn gone_manifold_reportable(
    bodies: Seq<Slot<RigidBody>>,
    cols: Seq<Slot<Collider>>,
    m: Manifold,
) -> bool {
    let ia = m.collider_a.index as int;
    let ib = m.collider_b.index as int;
    if 0 <= ia < cols.len() && 0 <= ib < cols.len() && cols[ia].value is Some
        && cols[ib].value is Some && cols[ia].generation == m.collider_a.generation
        && cols[ib].generation == m.collider_b.generation {
        collider_active(bodies, cols[ia].value.unwrap()) || collider_active(
            bodies,
            cols[ib].value.unwrap(),
        )
    } else {
        true
    }
}

/// Every candidate pair indexes two occupied collider slots in order.
pub proof fn lemma_pairs_ok(
    bodies: Seq<Slot<RigidBody>>,
    cols: Seq<Slot<Collider>>,
    dt: int,
    i: int,
)
    requires
        i >= 0,
        cols.len() <= usize::MAX,
    ensures
        forall|k: int|
            0 <= k < pairs_from(bodies, cols, dt, i).len() ==> {
                let p = #[trigger] pairs_from(bodies, cols, dt, i)[k];
                &&& (p.0 as int) < (p.1 as int) < cols.len()
                &&& pair_ok(bodies, cols, dt, p.0 as int, p.1 as int)
            },
    decreases cols.len() - i,
{
    if i < cols.len() {
        lemma_pairs_row_ok(bodies, cols, dt, i, i + 1);
        lemma_pairs_ok(bodies, cols, dt, i + 1);
        assert forall|k: int| 0 <= k < pairs_from(bodies, cols, dt, i).len() implies {
            let p = #[trigger] pairs_from(bodies, cols, dt, i)[k];
            &&& (p.0 as int) < (p.1 as int) < cols.len()
            &&& pair_ok(bodies, cols, dt, p.0 as int, p.1 as int)
        } by {
            let row = pairs_row(bodies, cols, dt, i, i + 1);
            if k < row.len() {
                assert(pairs_from(bodies, cols, dt, i)[k] == row[k]);
            } else {
                assert(pairs_from(bodies, cols, dt, i)[k] == pairs_from(bodies, cols, dt, i + 1)[
                    k - row.len()]);
            }
        }
    }
}

proof fn lemma_pairs_row_ok(
    bodies: Seq<Slot<RigidBody>>,
    cols: Seq<Slot<Collider>>,
    dt: int,
    i: int,
    j: int,
)
    requires
        0 <= i < j,
        cols.len() <= usize::MAX,
    ensures
        forall|k: int|
            0 <= k < pairs_row(bodies, cols, dt, i, j).len() ==> {
                let p = #[trigger] pairs_row(bodies, cols, dt, i, j)[k];
                &&& p.0 as int == i
                &&& i < (p.1 as int) < cols.len()
                &&& pair_ok(bodies, cols, dt, p.0 as int, p.1 as int)
            },
    decreases cols.len() - j,
{
    if j < cols.len() {
        lemma_pairs_row_ok(bodies, cols, dt, i, j + 1);
        let row = pairs_row(bodies, cols, dt, i, j);
        let rest = pairs_row(bodies, cols, dt, i, j + 1);
        if pair_ok(bodies, cols, dt, i, j) {
            assert forall|k: int| 0 <= k < row.len() implies {
                let p = #[trigger] row[k];
                &&& p.0 as int == i
                &&& i < (p.1 as int) < cols.len()
                &&& pair_ok(bodies, cols, dt, p.0 as int, p.1 as int)
            } by {
                if k == 0 {
                    assert(row[0] == (i as usize, j as usize));
                } else {
                    assert(row[k] == rest[k - 1]);
                }
            }
        }
    }
}

/// Executable first-match lookup in the manifold list.
pub fn find_manifold_exec(s: &Vec<Manifold>, a: Handle, b: Handle) -> (r: Option<Manifold>)
    ensures
        r == find_manifold(s@, a, b),
{
    let n: usize = s.len();
    let mut k: usize = 0;
    proof {
        assert(s@.subrange(0, n as int) =~= s@);
    }
    while k < n
        invariant
            n == s@.len(),
            k <= n,
            find_manifold(s@, a, b) == find_manifold(s@.subrange(k as int, n as int), a, b),
        decreases n - k,
    {
        let m = s[k];
        if m.collider_a.index == a.index && m.collider_a.generation == a.generation
            && m.collider_b.index == b.index && m.collider_b.generation == b.generation {
            proof {
                assert(s@.subrange(k as int, n as int)[0] == s@[k as int]);
            }
            return Option::Some(m);
        }
        proof {
            assert(s@.subrange(k as int, n as int)[0] == s@[k as int]);
            assert(s@.subrange(k as int, n as int).subrange(
                1,
                (n - k) as int,
            ) =~= s@.subrange(k as int + 1, n as int));
        }
        k = k + 1;
    }
    Option::None
}

/// Executable narrow phase: builds this step's manifolds and events from
/// the candidate pairs, in their deterministic order.
pub fn narrow_phase(w: &World, dt: i64, pairs: &Vec<(usize, usize)>) -> (r: (
    Vec<Manifold>,
    Vec<ContactEvent>,
))
    requires
        w.wf(),
        0 < dt <= FX_ONE as int,
        pairs@ == pairs_from(w.bodies.slots@, w.colliders.slots@, dt as int, 0),
    ensures
        r.0@ == narrow_manifolds(w.bodies.slots@, w.colliders.slots@, w.manifolds@, pairs@),
        r.1@ == narrow_pair_events(w.bodies.slots@, w.colliders.slots@, w.manifolds@, pairs@)
            + gone_pair_events(w.bodies.slots@, w.colliders.slots@, w.manifolds@, r.0@),
        forall|k: int|
            0 <= k < r.0@.len() ==> manifold_valid(#[trigger] r.0@[k]) && w.colliders.live(
                r.0@[k].collider_a,
            ) && w.colliders.live(r.0@[k].collider_b),
{
    let ncols: usize = w.colliders.slot_count();
    proof {
        assert(w.colliders.slots@.len() == ncols as int);
        lemma_pairs_ok(w.bodies.slots@, w.colliders.slots@, dt as int, 0);
    }
    let np: usize = pairs.len();
    let mut out: Vec<Manifold> = Vec::new();
    let mut events: Vec<ContactEvent> = Vec::new();
    let mut k: usize = 0;
    while k < np
        invariant
            w.wf(),
            0 < dt <= FX_ONE as int,
            np == pairs@.len(),
            k <= np,
            forall|t: int|
                0 <= t < pairs@.len() ==> {
                    let p = #[trigger] pairs@[t];
                    &&& (p.0 as int) < (p.1 as int) < w.colliders.slots@.len()
                    &&& pair_ok(w.bodies.slots@, w.colliders.slots@, dt as int, p.0 as int, p.1 as int)
                },
            out@ == narrow_manifolds(
                w.bodies.slots@,
                w.colliders.slots@,
                w.manifolds@,
                pairs@.take(k as int),
            ),
            events@ == narrow_pair_events(
                w.bodies.slots@,
                w.colliders.slots@,
                w.manifolds@,
                pairs@.take(k as int),
            ),
            forall|t: int|
                0 <= t < out@.len() ==> manifold_valid(#[trigger] out@[t]) && w.colliders.live(
                    out@[t].collider_a,
                ) && w.colliders.live(out@[t].collider_b),
        decreases np - k,
    {
        let (i, j): (usize, usize) = pairs[k];
        proof {
            assert(pairs@[k as int] == (i, j));
            assert(pair_ok(w.bodies.slots@, w.colliders.slots@, dt as int, i as int, j as int));
        }
        let ha: Handle = match w.colliders.handle_at(i) {
            Option::Some(x) => x,
            Option::None => {
                proof {
                    assert(false);
                }
                Handle { index: 0, generation: 0 }
            },
        };
        let hb: Handle = match w.colliders.handle_at(j) {
            Option::Some(x) => x,
            Option::None => {
                proof {
                    assert(false);
                }
                Handle { index: 0, generation: 0 }
            },
        };
        let ca: Collider = match w.colliders.value_at(i) {
            Option::Some(c) => *c,
            Option::None => {
                proof {
                    assert(false);
                }
                Collider {
                    shape: crate::shape::Shape::Ball { radius: 1 },
                    parent: Option::None,
                    offset: Vec3 { x: 0, y: 0, z: 0 },
                    groups: 0,
                    mask: 0,
                }
            },
        };
        let cb: Collider = match w.colliders.value_at(j) {
            Option::Some(c) => *c,
            Option::None => {
                proof {
                    assert(false);
                }
                ca
            },
        };
        proof {
            assert(w.colliders.occupied(i as int));
            assert(w.colliders.occupied(j as int));
            assert(crate::collider::collider_valid(w.colliders.at(i as int)));
            assert(crate::collider::collider_valid(w.colliders.at(j as int)));
        }
        let pa: Vec3 = collider_center_exec(w, &ca);
        let pb: Vec3 = collider_center_exec(w, &cb);
        let contact: Option<Contact> = crate::geometry::shape_contact_exec(
            &ca.shape,
            pa,
            &cb.shape,
            pb,
        );
        let prev: Option<Manifold> = find_manifold_exec(&w.manifolds, ha, hb);
        let ghost had = match prev {
            Option::Some(m) => m.contact is Some,
            Option::None => false,
        };
        match contact {
            Option::Some(c) => {
                let warm: i64 = match prev {
                    Option::Some(m) => m.warm_impulse,
                    Option::None => 0,
                };
                let started: bool = match prev {
                    Option::Some(m) => m.contact.is_none(),
                    Option::None => true,
                };
                proof {
                    if prev is Some {
                        lemma_find_manifold_valid(w.manifolds@, ha, hb, *w);
                    }
                }
                out.push(
                    Manifold {
                        collider_a: ha,
                        collider_b: hb,
                        contact: Option::Some(c),
                        warm_impulse: warm,
                        steps_without_contact: 0,
                    },
                );
                if started {
                    events.push(ContactEvent::Started { collider_a: ha, collider_b: hb });
                }
            },
            Option::None => {
                match prev {
                    Option::Some(m) => {
                        proof {
                            lemma_find_manifold_valid(w.manifolds@, ha, hb, *w);
                        }
                        if m.steps_without_contact < MANIFOLD_RETENTION {
                            out.push(
                                Manifold {
                                    collider_a: m.collider_a,
                                    collider_b: m.collider_b,
                                    contact: Option::None,
                                    warm_impulse: m.warm_impulse,
                                    steps_without_contact: m.steps_without_contact + 1,
                                },
                            );
                        }
                        if m.contact.is_some() {
                            events.push(ContactEvent::Stopped { collider_a: ha, collider_b: hb });
                        }
                    },
                    Option::None => {},
                }
            },
        }
        proof {
            assert(pairs@.take(k as int + 1).drop_last() =~= pairs@.take(k as int));
            assert(pairs@.take(k as int + 1).last() == pairs@[k as int]);
            assert(out@ =~= narrow_manifolds(
                w.bodies.slots@,
                w.colliders.slots@,
                w.manifolds@,
                pairs@.take(k as int + 1),
            ));
            assert(events@ =~= narrow_pair_events(
                w.bodies.slots@,
                w.colliders.slots@,
                w.manifolds@,
                pairs@.take(k as int + 1),
            ));
        }
        k = k + 1;
    }
    proof {
        assert(pairs@.take(np as int) =~= pairs@);
    }
    let ng: usize = w.manifolds.len();
    let mut g: usize = 0;
    while g < ng
        invariant
            w.wf(),
            ng == w.manifolds@.len(),
            g <= ng,
            out@ == narrow_manifolds(w.bodies.slots@, w.colliders.slots@, w.manifolds@, pairs@),
            events@ == narrow_pair_events(w.bodies.slots@, w.colliders.slots@, w.manifolds@, pairs@)
                + gone_pair_events(
                w.bodies.slots@,
                w.colliders.slots@,
                w.manifolds@.take(g as int),
                out@,
            ),
            forall|t: int|
                0 <= t < out@.len() ==> manifold_valid(#[trigger] out@[t]) && w.colliders.live(
                    out@[t].collider_a,
                ) && w.colliders.live(out@[t].collider_b),
        decreases ng - g,
    {
        let m: Manifold = w.manifolds[g];
        if m.contact.is_some() {
            let fresh = find_manifold_exec(&out, m.collider_a, m.collider_b);
            if fresh.is_none() {
                if gone_reportable_exec(w, &m) {
                    events.push(
                        ContactEvent::Stopped {
                            collider_a: m.collider_a,
                            collider_b: m.collider_b,
                        },
                    );
                }
            }
        }
        proof {
            assert(w.manifolds@.take(g as int + 1).drop_last() =~= w.manifolds@.take(g as int));
            assert(w.manifolds@.take(g as int + 1).last() == w.manifolds@[g as int]);
            assert(events@ =~= narrow_pair_events(
                w.bodies.slots@,
                w.colliders.slots@,
                w.manifolds@,
                pairs@,
            ) + gone_pair_events(
                w.bodies.slots@,
                w.colliders.slots@,
                w.manifolds@.take(g as int + 1),
                out@,
            ));
        }
        g = g + 1;
    }
    proof {
        assert(w.manifolds@.take(ng as int) =~= w.manifolds@);
    }
    (out, events)
}

/// A manifold found in a well-formed world's list is well-formed.
proof fn lemma_find_manifold_valid(s: Seq<Manifold>, a: Handle, b: Handle, w: World)
    requires
        w.wf(),
        s == w.manifolds@,
        find_manifold(s, a, b) is Some,
    ensures
        manifold_valid(find_manifold(s, a, b).unwrap()),
        find_manifold(s, a, b).unwrap().collider_a == a,
        find_manifold(s, a, b).unwrap().collider_b == b,
{
    lemma_find_manifold_in(s, a, b);
    let m = find_manifold(s, a, b).unwrap();
    let t = choose|t: int| 0 <= t < s.len() && s[t] == m;
    assert(manifold_valid(w.manifolds@[t]));
}

/// A found manifold is an element of the list with the searched pair.
proof fn lemma_find_manifold_in(s: Seq<Manifold>, a: Handle, b: Handle)
    requires
        find_manifold(s, a, b) is Some,
    ensures
        exists|t: int| 0 <= t < s.len() && s[t] == find_manifold(s, a, b).unwrap(),
        find_manifold(s, a, b).unwrap().collider_a == a,
        find_manifold(s, a, b).unwrap().collider_b == b,
    decreases s.len(),
{
    if s.len() > 0 {
        if s[0].collider_a == a && s[0].collider_b == b {
        } else {
            lemma_find_manifold_in(s.subrange(1, s.len() as int), a, b);
            let sub = s.subrange(1, s.len() as int);
            let t = choose|t: int| 0 <= t < sub.len() && sub[t] == find_manifold(sub, a, b).unwrap();
            assert(s[t + 1] == sub[t]);
        }
    }
}

/// Executable world-space collider center.
pub fn collider_center_exec(w: &World, c: &Collider) -> (r: Vec3)
    requires
        w.wf(),
        crate::collider::collider_valid(*c),
        match c.parent {
            Option::Some(p) => w.bodies.live(p),
            Option::None => true,
        },
    ensures
        r == collider_center(w.bodies.slots@, *c),
        v_fits(r),
{
    match c.parent {
        Option::Some(p) => {
            let b: &RigidBody = match w.bodies.get(p) {
                Option::Some(b) => b,
                Option::None => {
                    proof {
                        assert(false);
                    }
                    return c.offset;
                },
            };
            proof {
                assert(w.bodies.occupied(p.index as int));
                assert(body_valid(w.bodies.at(p.index as int)));
            }
            b.pos.add(c.offset)
        },
        Option::None => c.offset,
    }
}

/// Executable [`gone_manifold_reportable`].
fn gone_reportable_exec(w: &World, m: &Manifold) -> (r: bool)
    requires
        w.wf(),
    ensures
        r == gone_manifold_reportable(w.bodies.slots@, w.colliders.slots@, *m),
{
    let n: usize = w.colliders.slot_count();
    if m.collider_a.index >= n || m.collider_b.index >= n {
        return true;
    }
    let sa: Option<&Collider> = w.colliders.value_at(m.collider_a.index);
    let sb: Option<&Collider> = w.colliders.value_at(m.collider_b.index);
    match (sa, sb) {
        (Option::Some(ca), Option::Some(cb)) => {
            let ga: bool = {
                let hca: Option<Handle> = w.colliders.handle_at(m.collider_a.index);
                match hca {
                    Option::Some(x) => x.generation == m.collider_a.generation,
                    Option::None => false,
                }
            };
            let gb: bool = {
                let hcb: Option<Handle> = w.colliders.handle_at(m.collider_b.index);
                match hcb {
                    Option::Some(x) => x.generation == m.collider_b.generation,
                    Option::None => false,
                }
            };
            if ga && gb {
                let ca2: Collider = *ca;
                let cb2: Collider = *cb;
                proof {
                    assert(w.colliders.occupied(m.collider_a.index as int));
                    assert(w.colliders.occupied(m.collider_b.index as int));
                }
                let ra: bool = collider_active_exec2(w, &ca2);
                let rb: bool = collider_active_exec2(w, &cb2);
                ra || rb
            } else {
                true
            }
        },
        _ => true,
    }
}

/// Executable [`collider_active`], shared by event reporting.
pub fn collider_active_exec2(w: &World, c: &Collider) -> (r: bool)
    requires
        w.wf(),
        match c.parent {
            Option::Some(p) => w.bodies.live(p),
            Option::None => true,
        },
    ensures
        r == collider_active(w.bodies.slots@, *c),
{
    match c.parent {
        Option::Some(p) => {
            let b: &RigidBody = match w.bodies.get(p) {
                Option::Some(b) => b,
                Option::None => {
                    proof {
                        assert(false);
                    }
                    return false;
                },
            };
            let d: bool = match b.body_type {
                crate::body::BodyType::Dynamic => true,
                _ => false,
            };
            d && !b.sleeping
        },
        Option::None => false,
    }
}

} // verus!
