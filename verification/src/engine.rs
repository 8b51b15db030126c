//! The decisions of the daemon's drive loop.
//!
//! The loop itself (HID events, the audio server, the 1 Hz snapshot timer)
//! runs in the application; these functions decide what it does:
//! - which axis of a HID report a physical fader reads, and its cap;
//! - which volume writes a fader's level turns into, remembering the nodes
//!   each fader has already driven so that a catch-up pass only touches
//!   *newly seen* nodes (a manual tweak in pavucontrol isn't fought, while a
//!   freshly launched app still snaps to its fader's level);
//! - forgetting nodes that vanished, so a restarted app gets re-driven.

use vstd::prelude::*;

use crate::config::{Config, FaderConfig, FaderKind};
use crate::mixer::{resolve_targets, sink_selected, stream_selected, SinkNode, StreamNode, World, eq_ci};
use crate::text::eq_ignore_ascii_case;

verus! {

/// A node a fader has already driven: (fader index, is_stream, node index).
pub type DrivenKey = (usize, bool, u32);

/// The set of nodes each fader has already driven.
pub struct Driven {
    keys: Vec<DrivenKey>,
}

impl View for Driven {
    type V = Set<DrivenKey>;

    closed spec fn view(&self) -> Set<DrivenKey> {
        Set::new(|k: DrivenKey| self.keys@.contains(k))
    }
}

impl Driven {
    #[verifier::type_invariant]
    closed spec fn no_repeats(self) -> bool {
        self.keys@.no_duplicates()
    }

    /// An empty set.
    pub fn new() -> (r: Self)
        ensures
            r@ == Set::<DrivenKey>::empty(),
    {
        let r = Driven { keys: Vec::new() };
        proof {
            assert(r@ =~= Set::<DrivenKey>::empty());
        }
        r
    }

    /// Whether `key` is in the set.
    pub fn contains(&self, key: DrivenKey) -> (r: bool)
        ensures
            r == self@.contains(key),
    {
        let mut i: usize = 0;
        while i < self.keys.len()
            invariant
                i <= self.keys@.len(),
                forall|k: int| 0 <= k < i ==> self.keys@[k] != key,
            decreases self.keys.len() - i,
        {
            let k = self.keys[i];
            if k.0 == key.0 && k.1 == key.1 && k.2 == key.2 {
                return true;
            }
            i += 1;
        }
        false
    }

    /// Add `key`; returns whether it was not already there.
    pub fn insert(&mut self, key: DrivenKey) -> (new: bool)
        ensures
            new == !old(self)@.contains(key),
            final(self)@ == old(self)@.insert(key),
    {
        proof {
            use_type_invariant(&*self);
        }
        if self.contains(key) {
            proof {
                assert(self@ =~= self@.insert(key));
            }
            return false;
        }
        let ghost before = self.keys@;
        let mut keys: Vec<DrivenKey> = Vec::new();
        std::mem::swap(&mut keys, &mut self.keys);
        keys.push(key);
        proof {
            assert(keys@ == before.push(key));
            assert(keys@.no_duplicates()) by {
                assert forall|i: int, j: int|
                    0 <= i < keys@.len() && 0 <= j < keys@.len() && i != j implies keys@[i]
                    != keys@[j] by {
                    if i < before.len() && j < before.len() {
                    } else if i == before.len() {
                        assert(before.contains(before[j]));
                    } else {
                        assert(before.contains(before[i]));
                    }
                }
            }
        }
        self.keys = keys;
        proof {
            assert forall|k: DrivenKey| self.keys@.contains(k) <==> before.contains(k) || k == key by {
                if self.keys@.contains(k) {
                    let i = choose|i: int| 0 <= i < self.keys@.len() && self.keys@[i] == k;
                    if i < before.len() {
                        assert(before[i] == k);
                    }
                }
                if before.contains(k) {
                    let i = choose|i: int| 0 <= i < before.len() && before[i] == k;
                    assert(self.keys@[i] == k);
                }
                if k == key {
                    assert(self.keys@[before.len() as int] == key);
                }
            }
            assert(self@ =~= Set::new(|k: DrivenKey| before.contains(k)).insert(key));
        }
        true
    }

    /// Forget every node that is not in `world` any more.
    pub fn retain_present(&mut self, world: &World)
        ensures
            forall|k: DrivenKey|
                #[trigger] final(self)@.contains(k) <==> old(self)@.contains(k) && node_present(
                    world,
                    k.1,
                    k.2,
                ),
            forall|fi: usize, idx: u32, i: int|
                #![trigger world.sinks@[i], final(self)@.contains((fi, false, idx))]
                0 <= i < world.sinks@.len() && world.sinks@[i].index == idx && old(self)@.contains(
                    (fi, false, idx),
                ) ==> final(self)@.contains((fi, false, idx)),
            forall|fi: usize, idx: u32, i: int|
                #![trigger world.streams@[i], final(self)@.contains((fi, true, idx))]
                0 <= i < world.streams@.len() && world.streams@[i].index == idx && old(self)@.contains(
                    (fi, true, idx),
                ) ==> final(self)@.contains((fi, true, idx)),
            forall|k: DrivenKey|
                #[trigger] final(self)@.contains(k) ==> old(self)@.contains(k) && (if k.1 {
                    exists|i: int| 0 <= i < world.streams@.len() && world.streams@[i].index == k.2
                } else {
                    exists|i: int| 0 <= i < world.sinks@.len() && world.sinks@[i].index == k.2
                }),
    {
        proof {
            use_type_invariant(&*self);
        }
        let ghost old_keys = self.keys@;
        let mut kept: Vec<DrivenKey> = Vec::new();
        let mut i: usize = 0;
        while i < self.keys.len()
            invariant
                self.keys@ == old_keys,
                old_keys.no_duplicates(),
                i <= old_keys.len(),
                kept@.no_duplicates(),
                forall|k: DrivenKey|
                    #[trigger] kept@.contains(k) <==> exists|j: int|
                        0 <= j < i && old_keys[j] == k && node_present(world, k.1, k.2),
            decreases self.keys.len() - i,
        {
            let key = self.keys[i];
            if present(world, key.1, key.2) {
                let ghost before = kept@;
                proof {
                    assert(!before.contains(key)) by {
                        if before.contains(key) {
                            let j = choose|j: int|
                                0 <= j < i && old_keys[j] == key && node_present(world, key.1, key.2);
                            assert(old_keys[j] == old_keys[i as int]);
                        }
                    }
                }
                kept.push(key);
                proof {
                    assert(kept@ == before.push(key));
                    assert forall|a: int, b: int|
                        0 <= a < kept@.len() && 0 <= b < kept@.len() && a != b implies kept@[a]
                        != kept@[b] by {
                        if a == before.len() {
                            assert(before.contains(before[b]));
                        } else if b == before.len() {
                            assert(before.contains(before[a]));
                        }
                    }
                    assert forall|k: DrivenKey| #[trigger] kept@.contains(k) <==> exists|j: int|
                        0 <= j < i + 1 && old_keys[j] == k && node_present(world, k.1, k.2) by {
                        if kept@.contains(k) {
                            let a = choose|a: int| 0 <= a < kept@.len() && kept@[a] == k;
                            if a < before.len() {
                                assert(before.contains(k));
                            }
                        }
                        if exists|j: int| 0 <= j < i + 1 && old_keys[j] == k && node_present(world, k.1, k.2) {
                            let j = choose|j: int|
                                0 <= j < i + 1 && old_keys[j] == k && node_present(world, k.1, k.2);
                            if j < i {
                                assert(before.contains(k));
                                let a = choose|a: int| 0 <= a < before.len() && before[a] == k;
                                assert(kept@[a] == k);
                            } else {
                                assert(kept@[before.len() as int] == k);
                            }
                        }
                    }
                }
            } else {
                proof {
                    assert forall|k: DrivenKey| #[trigger] kept@.contains(k) <==> exists|j: int|
                        0 <= j < i + 1 && old_keys[j] == k && node_present(world, k.1, k.2) by {
                        if exists|j: int| 0 <= j < i + 1 && old_keys[j] == k && node_present(world, k.1, k.2) {
                            let j = choose|j: int|
                                0 <= j < i + 1 && old_keys[j] == k && node_present(world, k.1, k.2);
                            if j == i {
                                assert(false);
                            }
                        }
                    }
                }
            }
            i += 1;
        }
        self.keys = kept;
        proof {
            assert forall|k: DrivenKey| #[trigger] self@.contains(k) <==> old_keys.contains(k) && node_present(
                world,
                k.1,
                k.2,
            ) by {
                if old_keys.contains(k) && node_present(world, k.1, k.2) {
                    let j = choose|j: int| 0 <= j < old_keys.len() && old_keys[j] == k;
                    assert(exists|j: int| 0 <= j < i && old_keys[j] == k && node_present(world, k.1, k.2));
                }
            }
        }
    }
}

/// One volume write a fader's level turns into.
#[derive(Clone, Copy, Debug, PartialEq, Eq, Structural)]
pub struct VolumeWrite {
    /// An app stream (sink-input) rather than an output device (sink).
    pub stream: bool,
    pub index: u32,
    pub channels: u8,
    pub pct: u32,
    /// The fader had not driven this node before.
    pub first_time: bool,
}

/// A node a fader resolves to: (is_stream, node index, channels).
pub type DriveTarget = (bool, u32, u8);

/// The nodes fader `fi` resolves to in `world`: its sinks, then its
/// streams, each in world order.
pub open spec fn drive_targets(cfg: Config, fi: int, world: World) -> Seq<DriveTarget> {
    world.sinks@.filter(|s: SinkNode| sink_selected(cfg, fi, s)).map_values(
        |s: SinkNode| (false, s.index, s.channels),
    ) + world.streams@.filter(|s: StreamNode| stream_selected(cfg, fi, s)).map_values(
        |s: StreamNode| (true, s.index, s.channels),
    )
}

/// The driven set after fader `fi` has driven the targets `ts`, starting from `d`.
pub open spec fn driven_after(fi: usize, ts: Seq<DriveTarget>, d: Set<DrivenKey>) -> Set<DrivenKey>
    decreases ts.len(),
{
    if ts.len() == 0 {
        d
    } else {
        driven_after(fi, ts.drop_last(), d).insert((fi, ts.last().0, ts.last().1))
    }
}

/// The writes fader `fi` makes at level `pct` to the targets `ts`, in order,
/// starting from the driven set `d`: every target when `force`, else only the
/// targets it had not driven yet.
pub open spec fn planned_writes(
    fi: usize,
    pct: u32,
    ts: Seq<DriveTarget>,
    d: Set<DrivenKey>,
    force: bool,
) -> Seq<VolumeWrite>
    decreases ts.len(),
{
    if ts.len() == 0 {
        Seq::empty()
    } else {
        let prev = planned_writes(fi, pct, ts.drop_last(), d, force);
        let t = ts.last();
        let first = !driven_after(fi, ts.drop_last(), d).contains((fi, t.0, t.1));
        if first || force {
            prev.push(VolumeWrite { stream: t.0, index: t.1, channels: t.2, pct, first_time: first })
        } else {
            prev
        }
    }
}

proof fn lemma_driven_after_grows(fi: usize, ts: Seq<DriveTarget>, d: Set<DrivenKey>)
    ensures
        forall|k: DrivenKey| d.contains(k) ==> #[trigger] driven_after(fi, ts, d).contains(k),
        forall|j: int|
            0 <= j < ts.len() ==> driven_after(fi, ts, d).contains((fi, #[trigger] ts[j].0, ts[j].1)),
    decreases ts.len(),
{
    if ts.len() > 0 {
        lemma_driven_after_grows(fi, ts.drop_last(), d);
        assert forall|k: DrivenKey| d.contains(k) implies #[trigger] driven_after(fi, ts, d).contains(k) by {
            assert(driven_after(fi, ts.drop_last(), d).contains(k));
        }
        assert forall|j: int| 0 <= j < ts.len() implies driven_after(fi, ts, d).contains(
            (fi, #[trigger] ts[j].0, ts[j].1),
        ) by {
            if j < ts.len() - 1 {
                assert(ts.drop_last()[j] == ts[j]);
                assert(driven_after(fi, ts.drop_last(), d).contains(
                    (fi, ts.drop_last()[j].0, ts.drop_last()[j].1),
                ));
            }
        }
    }
}

proof fn lemma_no_catch_up_needed(
    fi: usize,
    pct: u32,
    ts: Seq<DriveTarget>,
    d: Set<DrivenKey>,
)
    requires
        forall|j: int| 0 <= j < ts.len() ==> d.contains((fi, #[trigger] ts[j].0, ts[j].1)),
    ensures
        planned_writes(fi, pct, ts, d, false) == Seq::<VolumeWrite>::empty(),
    decreases ts.len(),
{
    if ts.len() > 0 {
        let init = ts.drop_last();
        assert forall|j: int| 0 <= j < init.len() implies d.contains((fi, #[trigger] init[j].0, init[j].1)) by {
            assert(init[j] == ts[j]);
        }
        lemma_no_catch_up_needed(fi, pct, init, d);
        lemma_driven_after_grows(fi, init, d);
        assert(d.contains((fi, ts[ts.len() - 1].0, ts[ts.len() - 1].1)));
    }
}

/// A catch-up pass right after a pass over the same targets writes nothing:
/// once a fader has driven its nodes, an unforced pass leaves them alone
/// (a manual tweak of their volume isn't fought).
pub proof fn lemma_catch_up_is_idempotent(
    fi: usize,
    pct: u32,
    ts: Seq<DriveTarget>,
    d: Set<DrivenKey>,
)
    ensures
        planned_writes(fi, pct, ts, driven_after(fi, ts, d), false) == Seq::<VolumeWrite>::empty(),
{
    lemma_driven_after_grows(fi, ts, d);
    lemma_no_catch_up_needed(fi, pct, ts, driven_after(fi, ts, d));
}

/// A forced pass (a level change) writes the new level to every target, in
/// order, whatever was driven before.
pub proof fn lemma_forced_pass_writes_every_target(
    fi: usize,
    pct: u32,
    ts: Seq<DriveTarget>,
    d: Set<DrivenKey>,
)
    ensures
        planned_writes(fi, pct, ts, d, true).len() == ts.len(),
        forall|j: int|
            0 <= j < ts.len() ==> {
                let w = #[trigger] planned_writes(fi, pct, ts, d, true)[j];
                w.stream == ts[j].0 && w.index == ts[j].1 && w.channels == ts[j].2 && w.pct == pct
            },
    decreases ts.len(),
{
    if ts.len() > 0 {
        lemma_forced_pass_writes_every_target(fi, pct, ts.drop_last(), d);
        assert forall|j: int| 0 <= j < ts.len() implies {
            let w = #[trigger] planned_writes(fi, pct, ts, d, true)[j];
            w.stream == ts[j].0 && w.index == ts[j].1 && w.channels == ts[j].2 && w.pct == pct
        } by {
            if j < ts.len() - 1 {
                assert(ts.drop_last()[j] == ts[j]);
                assert(planned_writes(fi, pct, ts, d, true)[j] == planned_writes(
                    fi,
                    pct,
                    ts.drop_last(),
                    d,
                    true,
                )[j]);
            }
        }
    }
}

proof fn lemma_driven_after_contains(fi: usize, ts: Seq<DriveTarget>, d: Set<DrivenKey>, key: DrivenKey)
    ensures
        driven_after(fi, ts, d).contains(key) <==> d.contains(key) || exists|k: int|
            0 <= k < ts.len() && key == (fi, (#[trigger] ts[k]).0, ts[k].1),
    decreases ts.len(),
{
    if ts.len() > 0 {
        let init = ts.drop_last();
        lemma_driven_after_contains(fi, init, d, key);
        if exists|k: int| 0 <= k < init.len() && key == (fi, (#[trigger] init[k]).0, init[k].1) {
            let k = choose|k: int| 0 <= k < init.len() && key == (fi, (#[trigger] init[k]).0, init[k].1);
            assert(ts[k] == init[k]);
        }
        if exists|k: int| 0 <= k < ts.len() && key == (fi, (#[trigger] ts[k]).0, ts[k].1) {
            let k = choose|k: int| 0 <= k < ts.len() && key == (fi, (#[trigger] ts[k]).0, ts[k].1);
            if k < ts.len() - 1 {
                assert(init[k] == ts[k]);
            }
        }
    }
}

/// An unforced (catch-up) pass writes exactly the targets whose node the
/// fader had not driven yet: every write is at level `pct`, marked
/// first-time, for a target not in `d`; every target not in `d` gets a
/// write; and no node is written twice.
pub proof fn lemma_catch_up_writes_new_targets(
    fi: usize,
    pct: u32,
    ts: Seq<DriveTarget>,
    d: Set<DrivenKey>,
)
    ensures
        forall|j: int|
            0 <= j < planned_writes(fi, pct, ts, d, false).len() ==> {
                let w = #[trigger] planned_writes(fi, pct, ts, d, false)[j];
                &&& w.first_time
                &&& w.pct == pct
                &&& !d.contains((fi, w.stream, w.index))
                &&& exists|k: int|
                    0 <= k < ts.len() && ts[k] == (w.stream, w.index, w.channels)
            },
        forall|k: int|
            0 <= k < ts.len() && !d.contains((fi, (#[trigger] ts[k]).0, ts[k].1)) ==> exists|j: int|
                0 <= j < planned_writes(fi, pct, ts, d, false).len()
                    && (#[trigger] planned_writes(fi, pct, ts, d, false)[j]).stream == ts[k].0
                    && planned_writes(fi, pct, ts, d, false)[j].index == ts[k].1,
        forall|a: int, b: int|
            0 <= a < b < planned_writes(fi, pct, ts, d, false).len() ==> {
                let wa = #[trigger] planned_writes(fi, pct, ts, d, false)[a];
                let wb = #[trigger] planned_writes(fi, pct, ts, d, false)[b];
                wa.stream != wb.stream || wa.index != wb.index
            },
    decreases ts.len(),
{
    if ts.len() > 0 {
        let init = ts.drop_last();
        let t = ts.last();
        let prev = planned_writes(fi, pct, init, d, false);
        let w = planned_writes(fi, pct, ts, d, false);
        let key = (fi, t.0, t.1);
        lemma_catch_up_writes_new_targets(fi, pct, init, d);
        lemma_driven_after_contains(fi, init, d, key);
        let first = !driven_after(fi, init, d).contains(key);
        // every earlier write's node is in the driven set after `init`
        assert forall|j: int| 0 <= j < prev.len() implies driven_after(fi, init, d).contains(
            (fi, (#[trigger] prev[j]).stream, prev[j].index),
        ) by {
            let k = choose|k: int|
                0 <= k < init.len() && init[k] == (prev[j].stream, prev[j].index, prev[j].channels);
            lemma_driven_after_contains(fi, init, d, (fi, prev[j].stream, prev[j].index));
        }
        assert forall|j: int| 0 <= j < w.len() implies {
            let x = #[trigger] w[j];
            &&& x.first_time
            &&& x.pct == pct
            &&& !d.contains((fi, x.stream, x.index))
            &&& exists|k: int| 0 <= k < ts.len() && ts[k] == (x.stream, x.index, x.channels)
        } by {
            if j < prev.len() {
                assert(w[j] == prev[j]);
                let k = choose|k: int|
                    0 <= k < init.len() && init[k] == (prev[j].stream, prev[j].index, prev[j].channels);
                assert(ts[k] == init[k]);
            } else {
                assert(ts[ts.len() - 1] == t);
            }
        }
        assert forall|k: int| 0 <= k < ts.len() && !d.contains((fi, (#[trigger] ts[k]).0, ts[k].1)) implies exists|j: int|
            0 <= j < w.len() && (#[trigger] w[j]).stream == ts[k].0 && w[j].index == ts[k].1 by {
            if k < ts.len() - 1 {
                assert(init[k] == ts[k]);
                let j = choose|j: int|
                    0 <= j < prev.len() && (#[trigger] prev[j]).stream == init[k].0 && prev[j].index
                        == init[k].1;
                assert(w[j] == prev[j]);
            } else if first {
                assert(w[prev.len() as int].stream == t.0);
            } else {
                let k2 = choose|k2: int| 0 <= k2 < init.len() && key == (fi, (#[trigger] init[k2]).0, init[k2].1);
                let j = choose|j: int|
                    0 <= j < prev.len() && (#[trigger] prev[j]).stream == init[k2].0 && prev[j].index
                        == init[k2].1;
                assert(w[j] == prev[j]);
            }
        }
        assert forall|a: int, b: int| 0 <= a < b < w.len() implies {
            let wa = #[trigger] w[a];
            let wb = #[trigger] w[b];
            wa.stream != wb.stream || wa.index != wb.index
        } by {
            assert(w[a] == prev[a]);
            if b < prev.len() {
                assert(w[b] == prev[b]);
            } else {
                assert(driven_after(fi, init, d).contains((fi, prev[a].stream, prev[a].index)));
            }
        }
    }
}

/// Push one fader's level to its resolved targets: returns the writes to
/// perform, in order, and records every target as driven. With `force`,
/// every target is written (a level change); without, only nodes not yet
/// driven by this fader (a new-node catch-up pass).
pub fn drive_fader(
    cfg: &Config,
    fader_index: usize,
    pct: u32,
    world: &World,
    driven: &mut Driven,
    force: bool,
) -> (writes: Vec<VolumeWrite>)
    ensures
        writes@ == planned_writes(
            fader_index,
            pct,
            drive_targets(*cfg, fader_index as int, *world),
            old(driven)@,
            force,
        ),
        final(driven)@ == driven_after(
            fader_index,
            drive_targets(*cfg, fader_index as int, *world),
            old(driven)@,
        ),
        !force ==> forall|k: int|
            0 <= k < drive_targets(*cfg, fader_index as int, *world).len() && !old(driven)@.contains(
                (
                    fader_index,
                    (#[trigger] drive_targets(*cfg, fader_index as int, *world)[k]).0,
                    drive_targets(*cfg, fader_index as int, *world)[k].1,
                ),
            ) ==> exists|j: int|
                0 <= j < writes@.len() && (#[trigger] writes@[j]).stream == drive_targets(
                    *cfg,
                    fader_index as int,
                    *world,
                )[k].0 && writes@[j].index == drive_targets(*cfg, fader_index as int, *world)[k].1,
        !force ==> forall|j: int|
            0 <= j < writes@.len() ==> (#[trigger] writes@[j]).first_time && writes@[j].pct == pct
                && !old(driven)@.contains((fader_index, writes@[j].stream, writes@[j].index)),
        force ==> writes@.len() == drive_targets(*cfg, fader_index as int, *world).len(),
        force ==> forall|j: int|
            0 <= j < writes@.len() ==> (#[trigger] writes@[j]).stream == drive_targets(
                *cfg,
                fader_index as int,
                *world,
            )[j].0 && writes@[j].index == drive_targets(*cfg, fader_index as int, *world)[j].1
                && writes@[j].pct == pct,
{
    proof {
        lemma_catch_up_writes_new_targets(
            fader_index,
            pct,
            drive_targets(*cfg, fader_index as int, *world),
            driven@,
        );
        lemma_forced_pass_writes_every_target(
            fader_index,
            pct,
            drive_targets(*cfg, fader_index as int, *world),
            driven@,
        );
    }
    let ghost d0 = driven@;
    let ghost ts = drive_targets(*cfg, fader_index as int, *world);
    let resolved = resolve_targets(cfg, fader_index, world);
    let ghost ns = resolved.sinks@.len();
    proof {
        assert(ts.len() == ns + resolved.streams@.len());
        assert forall|k: int| 0 <= k < ns implies ts[k] == (
            false,
            resolved.sinks@[k].index,
            resolved.sinks@[k].channels,
        ) by {
            assert(resolved.sink_view()[k] == *resolved.sinks@[k]);
        }
        assert forall|k: int| 0 <= k < resolved.streams@.len() implies ts[ns + k] == (
            true,
            resolved.streams@[k].index,
            resolved.streams@[k].channels,
        ) by {
            assert(resolved.stream_view()[k] == *resolved.streams@[k]);
        }
    }
    let mut writes: Vec<VolumeWrite> = Vec::new();
    let mut i: usize = 0;
    while i < resolved.sinks.len()
        invariant
            i <= resolved.sinks@.len(),
            ns == resolved.sinks@.len(),
            ts.len() == ns + resolved.streams@.len(),
            forall|k: int|
                0 <= k < ns ==> ts[k] == (
                    false,
                    resolved.sinks@[k].index,
                    resolved.sinks@[k].channels,
                ),
            writes@ == planned_writes(fader_index, pct, ts.take(i as int), d0, force),
            driven@ == driven_after(fader_index, ts.take(i as int), d0),
        decreases resolved.sinks.len() - i,
    {
        let s = resolved.sinks[i];
        proof {
            assert(ts.take(i + 1).drop_last() =~= ts.take(i as int));
            assert(ts.take(i + 1).last() == ts[i as int]);
        }
        let new = driven.insert((fader_index, false, s.index));
        if new || force {
            writes.push(
                VolumeWrite {
                    stream: false,
                    index: s.index,
                    channels: s.channels,
                    pct,
                    first_time: new,
                },
            );
        }
        i += 1;
    }
    let mut j: usize = 0;
    while j < resolved.streams.len()
        invariant
            j <= resolved.streams@.len(),
            ns == resolved.sinks@.len(),
            ts.len() == ns + resolved.streams@.len(),
            forall|k: int|
                0 <= k < resolved.streams@.len() ==> ts[ns + k] == (
                    true,
                    resolved.streams@[k].index,
                    resolved.streams@[k].channels,
                ),
            writes@ == planned_writes(fader_index, pct, ts.take(ns + j), d0, force),
            driven@ == driven_after(fader_index, ts.take(ns + j), d0),
        decreases resolved.streams.len() - j,
    {
        let s = resolved.streams[j];
        proof {
            assert(ts.take(ns + j + 1).drop_last() =~= ts.take(ns + j));
            assert(ts.take(ns + j + 1).last() == ts[ns + j]);
        }
        let new = driven.insert((fader_index, true, s.index));
        if new || force {
            writes.push(
                VolumeWrite {
                    stream: true,
                    index: s.index,
                    channels: s.channels,
                    pct,
                    first_time: new,
                },
            );
        }
        j += 1;
    }
    proof {
        assert(ts.take(ns + j) =~= ts);
    }
    writes
}

/// `v` clamped into `lo..=hi`.
pub open spec fn clamp_spec(v: int, lo: int, hi: int) -> int {
    if v < lo { lo } else if v > hi { hi } else { v }
}

/// For a HID report of `count` axes: the axis a fader reads and the cap its
/// throw scales into. Only physical faders whose axis lies in the report
/// read one; the cap is the fader's maximum percent clamped into `1..=100`.
pub fn physical_input(f: &FaderConfig, count: usize) -> (r: Option<(usize, i32)>)
    ensures
        r == (if f.kind == FaderKind::Physical && 0 <= f.axis && f.axis < count {
            Some((f.axis as usize, clamp_spec(f.max_percent as int, 1, 100) as i32))
        } else {
            None
        }),
{
    match f.kind {
        FaderKind::Physical => {},
        FaderKind::Virtual => {
            return None;
        },
    }
    if f.axis < 0 || f.axis as usize >= count {
        return None;
    }
    let cap: i32 = if f.max_percent < 1 {
        1
    } else if f.max_percent > 100 {
        100
    } else {
        f.max_percent
    };
    Some((f.axis as usize, cap))
}

/// The level a fader starts at: a virtual fader starts at its persisted
/// level clamped into `0..=100`; a physical fader (or a virtual one with
/// nothing persisted) has no level until its first reading.
pub fn initial_level(kind: FaderKind, persisted: Option<i32>) -> (r: Option<u32>)
    ensures
        r == (match (kind, persisted) {
            (FaderKind::Virtual, Some(v)) => Some(clamp_spec(v as int, 0, 100) as u32),
            _ => None,
        }),
{
    match (kind, persisted) {
        (FaderKind::Virtual, Some(v)) => {
            let c: i32 = if v < 0 {
                0
            } else if v > 100 {
                100
            } else {
                v
            };
            Some(c as u32)
        },
        _ => None,
    }
}

/// The index of the first fader whose label matches `label`, ignoring
/// ASCII case.
pub fn fader_index_by_label(cfg: &Config, label: &str) -> (r: Option<usize>)
    ensures
        match r {
            Some(i) => i < cfg.fader@.len() && eq_ignore_ascii_case(cfg.fader@[i as int].label@, label@)
                && forall|k: int|
                0 <= k < i ==> !eq_ignore_ascii_case(#[trigger] cfg.fader@[k].label@, label@),
            None => forall|k: int|
                0 <= k < cfg.fader@.len() ==> !eq_ignore_ascii_case(
                    #[trigger] cfg.fader@[k].label@,
                    label@,
                ),
        },
{
    let mut i: usize = 0;
    while i < cfg.fader.len()
        invariant
            i <= cfg.fader@.len(),
            forall|k: int| 0 <= k < i ==> !eq_ignore_ascii_case(#[trigger] cfg.fader@[k].label@, label@),
        decreases cfg.fader.len() - i,
    {
        if eq_ci(cfg.fader[i].label.as_str(), label) {
            return Some(i);
        }
        i += 1;
    }
    None
}

/// A node with this index is in the world (a stream when `is_stream`,
/// else a sink).
pub open spec fn node_present(world: &World, is_stream: bool, index: u32) -> bool {
    if is_stream {
        exists|i: int| 0 <= i < world.streams@.len() && (#[trigger] world.streams@[i]).index == index
    } else {
        exists|i: int| 0 <= i < world.sinks@.len() && (#[trigger] world.sinks@[i]).index == index
    }
}

/// A sink counts as present exactly when some sink of the world carries its
/// index, whatever the streams are; a stream exactly when some stream does,
/// whatever the sinks are.
pub proof fn lemma_presence_by_kind(world: &World, index: u32)
    ensures
        node_present(world, false, index) <==> exists|i: int|
            0 <= i < world.sinks@.len() && (#[trigger] world.sinks@[i]).index == index,
        node_present(world, true, index) <==> exists|i: int|
            0 <= i < world.streams@.len() && (#[trigger] world.streams@[i]).index == index,
{
}

/// Whether a node with this index is in the world.
fn present(world: &World, is_stream: bool, index: u32) -> (r: bool)
    ensures
        r == node_present(world, is_stream, index),
{
    if is_stream {
        let mut i: usize = 0;
        while i < world.streams.len()
            invariant
                is_stream,
                i <= world.streams@.len(),
                forall|k: int| 0 <= k < i ==> (#[trigger] world.streams@[k]).index != index,
            decreases world.streams.len() - i,
        {
            if world.streams[i].index == index {
                assert((world.streams@[i as int]).index == index);
                return true;
            }
            i += 1;
        }
        false
    } else {
        let mut i: usize = 0;
        while i < world.sinks.len()
            invariant
                !is_stream,
                i <= world.sinks@.len(),
                forall|k: int| 0 <= k < i ==> (#[trigger] world.sinks@[k]).index != index,
            decreases world.sinks.len() - i,
        {
            if world.sinks[i].index == index {
                assert((world.sinks@[i as int]).index == index);
                return true;
            }
            i += 1;
        }
        false
    }
}

} // verus!
