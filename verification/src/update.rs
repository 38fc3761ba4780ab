//! The passing of time: fuses burn, bombs whose fuse ran out go off, and the marks of
//! blasts fade.

use vstd::prelude::*;
use crate::bomb::{lemma_owned_same_spawners, Bomb, Explosion};
use crate::detonation::lemma_detonated_coherent;
use crate::grid::cell_of;
use crate::seq_facts::{lemma_filter_source, lemma_filter_split};
use crate::timer::{lemma_completion_is_an_edge, lemma_tick_monotone};
use crate::world::{counts_bombs, sound_bomb, World, WorldState};

verus! {

/// The test whether a bomb keeps burning: its fuse did not run out on the latest tick.
pub open spec fn burning() -> spec_fn(Bomb) -> bool {
    |b: Bomb| !b.due()
}

/// The test whether a bomb goes off: its fuse ran out on the latest tick.
pub open spec fn going_off() -> spec_fn(Bomb) -> bool {
    |b: Bomb| b.due()
}

/// The test whether the mark of a blast still shows.
pub open spec fn showing() -> spec_fn(Explosion) -> bool {
    |e: Explosion| !e.timer.finished
}

impl WorldState {
    /// The world after every fuse burnt for `delta` nanoseconds.
    pub open spec fn fuses_burnt(self, delta: u64) -> WorldState {
        WorldState { bombs: self.bombs.map_values(|b: Bomb| b.ticked(delta)), ..self }
    }

    /// The world after every bomb from place `k` on whose fuse ran out on the latest tick
    /// went off, in the order in which the bombs were placed.
    pub open spec fn resolved_from(self, k: int) -> WorldState
        decreases self.bombs.len() - k,
    {
        if k < 0 || k >= self.bombs.len() {
            self
        } else if self.bombs[k].due() {
            self.detonated(k).resolved_from(k)
        } else {
            self.resolved_from(k + 1)
        }
    }

    /// The world after `delta` nanoseconds of fuse: every fuse burns, then every bomb
    /// whose fuse ran out goes off.
    pub open spec fn bombs_updated(self, delta: u64) -> WorldState {
        self.fuses_burnt(delta).resolved_from(0)
    }

    /// The world after the marks of blasts faded for `delta` nanoseconds: a mark whose
    /// time ran out is gone.
    pub open spec fn marks_faded(self, delta: u64) -> WorldState {
        WorldState {
            explosions: self.explosions.map_values(|e: Explosion| e.ticked(delta)).filter(
                showing(),
            ),
            ..self
        }
    }

    /// The world after one tick of the fuses for each entry of `deltas`, in order.
    pub open spec fn bombs_updated_through(self, deltas: Seq<u64>) -> WorldState
        decreases deltas.len(),
    {
        if deltas.len() == 0 {
            self
        } else {
            self.bombs_updated_through(deltas.drop_last()).bombs_updated(deltas.last())
        }
    }

    /// The world after one tick of `delta` nanoseconds, in the order that the rules fix:
    /// the actors of `bomb_intents` try to place a bomb, collision restricts the
    /// velocities, the actors move, the fuses burn and the due bombs go off, and the
    /// marks fade.
    pub open spec fn stepped(self, bomb_intents: Seq<u64>, delta: u64) -> WorldState {
        self.dropped_all(bomb_intents).collided().moved().bombs_updated(delta).marks_faded(delta)
    }

    /// No bomb from place `k` on is about to go off.
    pub open spec fn quiet_before(self, k: int) -> bool {
        forall|j: int| 0 <= j < k && j < self.bombs.len() ==> !(#[trigger] self.bombs[j]).due()
    }
}

/// Burning the fuses of a well-formed world keeps the books in order, and a fuse that
/// has run out after the tick ran out on that tick.
pub proof fn lemma_fuses_burnt_coherent(w: WorldState, delta: u64)
    requires
        w.wf(),
    ensures
        w.fuses_burnt(delta).coherent(),
        w.fuses_burnt(delta).marks_show(),
{
    let after = w.fuses_burnt(delta);
    assert forall|i: int| 0 <= i < after.players.len() implies counts_bombs(
        #[trigger] after.players[i],
        after.bombs,
    ) by {
        assert(counts_bombs(w.players[i], w.bombs));
        lemma_owned_same_spawners(w.bombs, after.bombs, w.players[i].id);
    }
    assert forall|i: int, j: int| 0 <= i < j < after.bombs.len() implies cell_of(
        (#[trigger] after.bombs[i]).position,
    ) != cell_of((#[trigger] after.bombs[j]).position) by {
        assert(cell_of(w.bombs[i].position) != cell_of(
            w.bombs[j].position,
        ));
    }
    assert forall|i: int| 0 <= i < after.bombs.len() implies sound_bomb(
        #[trigger] after.bombs[i],
    ) by {
        assert(sound_bomb(w.bombs[i]));
        assert(!w.bombs[i].timer.finished);
        lemma_tick_monotone(w.bombs[i].timer, delta);
        lemma_completion_is_an_edge(w.bombs[i].timer, delta);
    }
    assert forall|i: int| 0 <= i < after.explosions.len() implies !(
    #[trigger] after.explosions[i]).timer.finished by {
        assert(!w.explosions[i].timer.finished);
    }
}

/// Letting the due bombs go off keeps the books in order and leaves no bomb that is due.
pub proof fn lemma_resolved(w: WorldState, k: int)
    requires
        w.coherent(),
        w.marks_show(),
        0 <= k,
        w.quiet_before(k),
    ensures
        w.resolved_from(k).coherent(),
        w.resolved_from(k).marks_show(),
        w.resolved_from(k).quiet_before(w.resolved_from(k).bombs.len() as int),
        w.resolved_from(k).wf(),
    decreases w.bombs.len() - k,
{
    if k >= w.bombs.len() {
        assert forall|i: int| 0 <= i < w.bombs.len() implies !(
        #[trigger] w.bombs[i]).timer.finished by {
            assert(sound_bomb(w.bombs[i]));
            assert(!w.bombs[i].due());
        }
    } else if w.bombs[k].due() {
        lemma_detonated_coherent(w, k);
        let next = w.detonated(k);
        assert forall|j: int| 0 <= j < k && j < next.bombs.len() implies !(
        #[trigger] next.bombs[j]).due() by {
            assert(next.bombs[j] == w.bombs[j]);
        }
        lemma_resolved(next, k);
    } else {
        lemma_resolved(w, k + 1);
    }
}

/// A tick of the fuses keeps a well-formed world well formed.
pub proof fn lemma_bombs_updated_wf(w: WorldState, delta: u64)
    requires
        w.wf(),
    ensures
        w.bombs_updated(delta).wf(),
{
    lemma_fuses_burnt_coherent(w, delta);
    lemma_resolved(w.fuses_burnt(delta), 0);
}

/// Letting the due bombs go off removes exactly those: the bombs left are the bombs that
/// are not due, in their order, and the camera is shaken once for each bomb that was due.
pub proof fn lemma_resolved_bombs(w: WorldState, k: int)
    requires
        0 <= k <= w.bombs.len(),
    ensures
        w.resolved_from(k).bombs == w.bombs.take(k) + w.bombs.skip(k).filter(burning()),
        w.resolved_from(k).trauma.len() == w.trauma.len() + w.bombs.skip(k).filter(
            going_off(),
        ).len(),
    decreases w.bombs.len() - k,
{
    reveal_with_fuel(Seq::filter, 1);
    if k >= w.bombs.len() {
        assert(w.bombs.take(k) + w.bombs.skip(k).filter(burning()) =~= w.bombs);
    } else {
        let bomb = w.bombs[k];
        let tail = w.bombs.skip(k + 1);
        assert(w.bombs.skip(k) =~= seq![bomb] + tail);
        tail.lemma_filter_prepend(bomb, burning());
        tail.lemma_filter_prepend(bomb, going_off());
        if bomb.due() {
            let next = w.detonated(k);
            lemma_resolved_bombs(next, k);
            assert(next.bombs.take(k) =~= w.bombs.take(k));
            assert(next.bombs.skip(k) =~= tail);
            assert(w.bombs.skip(k).filter(going_off()).len() == 1 + tail.filter(going_off()).len());
        } else {
            lemma_resolved_bombs(w, k + 1);
            assert(w.bombs.take(k + 1) + tail.filter(burning()) =~= w.bombs.take(k) + (seq![bomb]
                + tail.filter(burning())));
        }
    }
}

/// Each bomb goes off once, on the tick on which its fuse first runs out.
///
/// After a tick of `delta`, the bombs left are the bombs whose fuse has not run out, with
/// their fuses burnt by `delta` and in their order; each bomb whose fuse ran out on this
/// tick is gone, and the camera was shaken once for each of them. Every bomb left still
/// burns, so none of them went off before, and a bomb that is gone never goes off again.
pub proof fn lemma_detonation_exactly_once(w: WorldState, delta: u64)
    requires
        w.wf(),
    ensures
        w.bombs_updated(delta).bombs == w.fuses_burnt(delta).bombs.filter(burning()),
        w.bombs_updated(delta).trauma.len() == w.trauma.len() + w.fuses_burnt(
            delta,
        ).bombs.filter(going_off()).len(),
        forall|i: int|
            0 <= i < w.bombs.len() ==> ((#[trigger] w.bombs[i]).ticked(delta).due()
                <==> w.bombs[i].timer.elapsed + delta >= w.bombs[i].timer.duration),
        forall|i: int|
            0 <= i < w.bombs_updated(delta).bombs.len() ==> !(#[trigger] w.bombs_updated(
                delta,
            ).bombs[i]).timer.finished,
        w.bombs_updated(delta).wf(),
{
    let burnt = w.fuses_burnt(delta);
    lemma_resolved_bombs(burnt, 0);
    assert(burnt.bombs.take(0) + burnt.bombs.skip(0).filter(burning()) =~= burnt.bombs.filter(
        burning(),
    )) by {
        assert(burnt.bombs.skip(0) =~= burnt.bombs);
    }
    assert(burnt.bombs.skip(0) =~= burnt.bombs);
    lemma_bombs_updated_wf(w, delta);
    assert forall|i: int| 0 <= i < w.bombs.len() implies ((#[trigger] w.bombs[i]).ticked(
        delta,
    ).due() <==> w.bombs[i].timer.elapsed + delta >= w.bombs[i].timer.duration) by {
        assert(sound_bomb(w.bombs[i]));
        assert(!w.bombs[i].timer.finished);
        lemma_completion_is_an_edge(w.bombs[i].timer, delta);
    }
}

/// One blast for each bomb, over all of its life: however time is cut into ticks, the
/// camera has been shaken once for each bomb that is gone, and not at all for the bombs
/// that still lie. So no bomb goes off twice, none goes off while it still lies, and none
/// is gone without having gone off.
pub proof fn lemma_one_blast_per_bomb(w: WorldState, deltas: Seq<u64>)
    requires
        w.wf(),
    ensures
        w.bombs_updated_through(deltas).wf(),
        w.bombs_updated_through(deltas).bombs.len() <= w.bombs.len(),
        w.bombs_updated_through(deltas).trauma.len() - w.trauma.len() == w.bombs.len()
            - w.bombs_updated_through(deltas).bombs.len(),
    decreases deltas.len(),
{
    if deltas.len() > 0 {
        let before = w.bombs_updated_through(deltas.drop_last());
        lemma_one_blast_per_bomb(w, deltas.drop_last());
        lemma_detonation_exactly_once(before, deltas.last());
        lemma_filter_split(before.fuses_burnt(deltas.last()).bombs, burning(), going_off());
    }
}

/// Fading keeps a well-formed world well formed.
pub proof fn lemma_marks_faded_wf(w: WorldState, delta: u64)
    requires
        w.wf(),
    ensures
        w.marks_faded(delta).wf(),
{
    let after = w.marks_faded(delta);
    let ticked = w.explosions.map_values(|e: Explosion| e.ticked(delta));
    assert forall|i: int| 0 <= i < after.explosions.len() implies (
    #[trigger] after.explosions[i]).timer.wf() && !after.explosions[i].timer.finished by {
        let j = lemma_filter_source(ticked, showing(), i);
        assert(w.explosions[j].timer.wf());
        lemma_tick_monotone(w.explosions[j].timer, delta);
    }
}

impl World {
    /// Every fuse burns for `delta` nanoseconds.
    fn burn_fuses(&mut self, delta: u64)
        requires
            old(self)@.wf(),
        ensures
            final(self)@ == old(self)@.fuses_burnt(delta),
            final(self)@.coherent(),
            final(self)@.marks_show(),
    {
        proof {
            lemma_fuses_burnt_coherent(self@, delta);
        }
        let mut burnt: Vec<Bomb> = Vec::new();
        let mut k: usize = 0;
        while k < self.bombs.len()
            invariant
                k <= self.bombs.len(),
                self@ == old(self)@,
                burnt@ == self.bombs@.take(k as int).map_values(|b: Bomb| b.ticked(delta)),
            decreases self.bombs.len() - k,
        {
            let mut bomb = self.bombs[k];
            bomb.timer.tick(delta);
            burnt.push(bomb);
            k = k + 1;
            assert(burnt@ =~= self.bombs@.take(k as int).map_values(|b: Bomb| b.ticked(delta)));
        }
        assert(self.bombs@.take(self.bombs.len() as int) == self.bombs@);
        self.bombs = burnt;
    }

    /// Every bomb whose fuse ran out on the latest tick goes off, in the order in which
    /// the bombs were placed.
    fn resolve_blasts(&mut self)
        requires
            old(self)@.coherent(),
            old(self)@.marks_show(),
        ensures
            final(self)@ == old(self)@.resolved_from(0),
            final(self)@.wf(),
    {
        proof {
            lemma_resolved(self@, 0);
        }
        let mut k: usize = 0;
        while k < self.bombs.len()
            invariant
                k <= self.bombs.len(),
                self@.coherent(),
                self@.marks_show(),
                self@.quiet_before(k as int),
                self@.resolved_from(k as int) == old(self)@.resolved_from(0),
            decreases self.bombs.len() - k,
        {
            if self.bombs[k].timer.just_finished() {
                proof {
                    lemma_detonated_coherent(self@, k as int);
                }
                let ghost before = self@;
                self.detonate(k);
                proof {
                    assert forall|j: int| 0 <= j < k && j < self@.bombs.len() implies !(
                    #[trigger] self@.bombs[j]).due() by {
                        assert(self@.bombs[j] == before.bombs[j]);
                    }
                }
            } else {
                k = k + 1;
            }
        }
    }

    /// Tick the bomb timers by `delta` nanoseconds. Each bomb whose fuse runs out on this
    /// tick goes off: it is gone, and so are the destructible tiles and the actors in its
    /// reach. Bombs go off in the order in which they were placed.
    pub fn update_bombs(&mut self, delta: u64)
        requires
            old(self)@.wf(),
        ensures
            final(self)@ == old(self)@.bombs_updated(delta),
            final(self)@.wf(),
    {
        self.burn_fuses(delta);
        self.resolve_blasts();
    }

    /// One tick of `delta` nanoseconds: see `WorldState::stepped`. The velocities are
    /// those last set with `set_velocity`; `bomb_intents` names the actors whose input
    /// asks for a bomb on this tick.
    pub fn step(&mut self, bomb_intents: &Vec<u64>, delta: u64)
        requires
            old(self)@.wf(),
        ensures
            final(self)@ == old(self)@.stepped(bomb_intents@, delta),
            final(self)@.wf(),
    {
        self.spawn_bombs(bomb_intents);
        self.player_collisions();
        self.update_position();
        self.update_bombs(delta);
        self.decay_explosion(delta);
    }

    /// The marks of blasts fade for `delta` nanoseconds; a mark whose time runs out is
    /// gone.
    pub fn decay_explosion(&mut self, delta: u64)
        requires
            old(self)@.wf(),
        ensures
            final(self)@ == old(self)@.marks_faded(delta),
            final(self)@.wf(),
    {
        proof {
            lemma_marks_faded_wf(self@, delta);
        }
        let mut left: Vec<Explosion> = Vec::new();
        let mut k: usize = 0;
        reveal_with_fuel(Seq::filter, 1);
        assert(self.explosions@.take(0).map_values(|e: Explosion| e.ticked(delta)) =~= Seq::empty());
        while k < self.explosions.len()
            invariant
                k <= self.explosions.len(),
                self@ == old(self)@,
                left@ == self.explosions@.take(k as int).map_values(
                    |e: Explosion| e.ticked(delta),
                ).filter(showing()),
            decreases self.explosions.len() - k,
        {
            let mut mark = self.explosions[k];
            proof {
                let seen = self.explosions@.take(k as int);
                let ticked = seen.map_values(|e: Explosion| e.ticked(delta));
                assert(self.explosions@.take(k + 1) == seen.push(mark));
                assert(seen.push(mark).map_values(|e: Explosion| e.ticked(delta)) =~= ticked.push(
                    mark.ticked(delta),
                ));
                ticked.lemma_filter_push(mark.ticked(delta), showing());
            }
            mark.timer.tick(delta);
            if !mark.timer.finished() {
                left.push(mark);
            }
            k = k + 1;
        }
        assert(self.explosions@.take(self.explosions.len() as int) == self.explosions@);
        self.explosions = left;
    }
}

} // verus!
