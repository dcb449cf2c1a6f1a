//! The simulation core: the invader and projectile collections, the label
//! registry, the input accumulator, the score, and the tick-scheduled state
//! machine that drives them. The loop that sleeps, polls the keyboard
//! channel and renders lives outside; it hands each iteration's input event
//! to `step` and reads the state back for drawing.

use crate::accumulator::{compose, toggled, InputAccumulator};
use crate::arrow::{arriving, arrow_advanced, Arrow};
use crate::events::{event_wf, InputEvent};
use crate::invader::{advanced, Invader};
use crate::registry::ValueRegistry;
use vstd::prelude::*;

verus! {

/// Base-tick iterations between invader spawn/movement passes.
pub const MACRO_PERIOD: u64 = 650;

/// Base-tick iterations between projectile movement/collision passes.
pub const MICRO_PERIOD: u64 = 25;

/// The round state machine: awaiting the start key, an active round, or the
/// game-over screen.
#[derive(Clone, Copy, Debug, PartialEq, Eq, Structural)]
pub enum RoundState {
    Idle,
    Running,
    RoundOver,
}

/// The whole game state. The simulation is its sole writer.
pub struct Game {
    pub screen_rows: u16,
    pub game_cols: u16,
    pub score_board_cols: u16,
    pub input: InputAccumulator,
    pub current_score: usize,
    pub arrows: Vec<Arrow>,
    pub registry: ValueRegistry,
    pub invaders: Vec<Invader>,
    pub invader_distance: u16,
    pub state: RoundState,
    pub tick: u64,
}

impl Game {
    /// Every live invader is visible, labeled with a nonzero byte that the
    /// registry marks active, sits at a positive row, and no two share a
    /// label.
    pub open spec fn invaders_wf(self) -> bool {
        &&& forall|i: int|
            0 <= i < self.invaders@.len() ==> {
                &&& (#[trigger] self.invaders@[i]).visible
                &&& self.invaders@[i].value >= 1
                &&& self.invaders@[i].row >= 1
                &&& self.registry.active(self.invaders@[i].value)
            }
        &&& forall|i: int, j: int|
            0 <= i < j < self.invaders@.len() ==> (#[trigger] self.invaders@[i]).value
                != (#[trigger] self.invaders@[j]).value
    }

    /// Every visible arrow still sits at or below its target's row, which is
    /// positive, so it can keep moving up without leaving the screen.
    pub open spec fn arrows_wf(self) -> bool {
        forall|i: int|
            0 <= i < self.arrows@.len() && (#[trigger] self.arrows@[i]).visible ==> {
                &&& self.arrows@[i].target.row >= 1
                &&& self.arrows@[i].current_row >= self.arrows@[i].target.row
            }
    }

    /// All invaders are above the round-ending line: the bottom four rows are
    /// reserved for the firing line and the boards.
    pub open spec fn in_field(self) -> bool {
        forall|i: int|
            0 <= i < self.invaders@.len() ==> (#[trigger] self.invaders@[i]).row + 4
                <= self.screen_rows
    }

    /// The game invariant. During a running round every invader is still on
    /// the playfield; once the round is over they stand wherever the round
    /// ended until a restart clears them.
    pub open spec fn wf(self) -> bool {
        &&& self.screen_rows >= 10
        &&& self.game_cols >= 80
        &&& self.input.wf()
        &&& self.invaders_wf()
        &&& self.arrows_wf()
        &&& (self.state == RoundState::Running ==> self.in_field())
    }

    /// The startup configuration is never touched by the simulation.
    pub open spec fn same_config(self, other: Game) -> bool {
        &&& other.screen_rows == self.screen_rows
        &&& other.game_cols == self.game_cols
        &&& other.score_board_cols == self.score_board_cols
        &&& other.invader_distance == self.invader_distance
    }

    /// The accumulator carries the same bits and composed value.
    pub open spec fn same_input(self, other: Game) -> bool {
        &&& other.input.bits@ == self.input.bits@
        &&& other.input.value == self.input.value
    }

    /// Equal in every observable part but perhaps the tick counter.
    pub open spec fn same_but_tick(self, other: Game) -> bool {
        &&& self.same_config(other)
        &&& self.same_input(other)
        &&& other.invaders@ == self.invaders@
        &&& other.arrows@ == self.arrows@
        &&& other.registry.entries@ == self.registry.entries@
        &&& other.current_score == self.current_score
        &&& other.state == self.state
    }

    /// Equal in every observable part.
    pub open spec fn same_game(self, other: Game) -> bool {
        &&& self.same_but_tick(other)
        &&& other.tick == self.tick
    }

    /// All game data at its initial value: what a round starts from.
    pub open spec fn cleared(self) -> bool {
        &&& self.input.wf()
        &&& self.input.is_zeroed()
        &&& self.current_score == 0
        &&& self.arrows@.len() == 0
        &&& self.invaders@.len() == 0
        &&& forall|label: u8| self.registry.available(label)
    }

    /// A new invader is generated before a macro-tick's movement pass when
    /// none is live, or when the most recently spawned one has advanced past
    /// the spacing threshold.
    pub open spec fn spawn_due(self) -> bool {
        self.invaders@.len() == 0 || self.invaders@.last().row == self.invader_distance + 4
    }

    /// What the generator may produce: a visible invader on the top row, with
    /// a nonzero label that is free in the registry, at a column within the
    /// playable width.
    pub open spec fn fresh_spawn(self, nv: Invader) -> bool {
        &&& nv.visible
        &&& nv.row == 1
        &&& nv.value >= 1
        &&& self.registry.available(nv.value)
        &&& 3 <= nv.col <= self.game_cols - 5
    }

    /// The invader at index `i` is visible and labeled with the accumulator's
    /// current value: firing at it is due.
    pub open spec fn fire_match(self, i: int) -> bool {
        (#[trigger] self.invaders@[i]).visible && self.invaders@[i].value == self.input.value
    }

    pub fn new(screen_rows: u16, game_cols: u16, score_board_cols: u16, invader_distance: u16) -> (g:
        Game)
        requires
            screen_rows >= 10,
            game_cols >= 80,
        ensures
            g.wf(),
            g.cleared(),
            g.screen_rows == screen_rows,
            g.game_cols == game_cols,
            g.score_board_cols == score_board_cols,
            g.invader_distance == invader_distance,
            g.state == RoundState::Idle,
            g.tick == 0,
            g.registry.entries@ == Map::<u8, bool>::empty(),
    {
        Game {
            screen_rows,
            game_cols,
            score_board_cols,
            input: InputAccumulator::new(),
            current_score: 0,
            arrows: Vec::new(),
            registry: ValueRegistry::new(),
            invaders: Vec::new(),
            invader_distance,
            state: RoundState::Idle,
            tick: 0,
        }
    }

    /// Reset all game data for a fresh round: accumulator, score, registry,
    /// and both entity collections. Configuration, state and tick counter are
    /// untouched.
    pub fn clear_data(&mut self)
        ensures
            old(self).same_config(*final(self)),
            final(self).state == old(self).state,
            final(self).tick == old(self).tick,
            final(self).cleared(),
            final(self).registry.entries@ == Map::<u8, bool>::empty(),
    {
        self.input.reset();
        self.current_score = 0;
        self.arrows = Vec::new();
        self.registry = ValueRegistry::new();
        self.invaders = Vec::new();
    }

    /// Apply this iteration's input event, if any, and recompose the value
    /// from all eight bits. Recomposition happens every tick whether or not a
    /// toggle occurred.
    pub fn update_input(&mut self, event: Option<InputEvent>)
        requires
            old(self).input.bits_wf(),
            event_wf(event),
        ensures
            old(self).same_config(*final(self)),
            final(self).invaders@ == old(self).invaders@,
            final(self).arrows@ == old(self).arrows@,
            final(self).registry.entries@ == old(self).registry.entries@,
            final(self).current_score == old(self).current_score,
            final(self).state == old(self).state,
            final(self).tick == old(self).tick,
            final(self).input.wf(),
            final(self).input.bits@ =~= bits_after(old(self).input.bits@, event),
            final(self).input.value == compose(final(self).input.bits@),
            input_step(*old(self), *final(self), event),
            old(self).wf() ==> final(self).wf(),
    {
        match event {
            Some(InputEvent::ToggleBit(idx)) => {
                self.input.toggle(idx as usize);
            },
            _ => {},
        }
        self.input.recompute();
    }

    /// Zero the accumulator, as after a successful shot.
    pub fn zero_input(&mut self)
        ensures
            old(self).same_config(*final(self)),
            final(self).invaders@ == old(self).invaders@,
            final(self).arrows@ == old(self).arrows@,
            final(self).registry.entries@ == old(self).registry.entries@,
            final(self).current_score == old(self).current_score,
            final(self).state == old(self).state,
            final(self).tick == old(self).tick,
            final(self).input.wf(),
            final(self).input.is_zeroed(),
            old(self).wf() ==> final(self).wf(),
    {
        self.input.reset();
    }

    /// The first visible invader whose label equals the accumulator's current
    /// value, if any: the target the fire check will shoot at.
    pub fn to_shoot(&self) -> (target: Option<Invader>)
        ensures
            match target {
                Some(inv) => exists|k: int|
                    {
                        &&& 0 <= k < self.invaders@.len()
                        &&& self.fire_match(k)
                        &&& inv == self.invaders@[k]
                        &&& forall|j: int| 0 <= j < k ==> !self.fire_match(j)
                    },
                None => forall|j: int| 0 <= j < self.invaders@.len() ==> !self.fire_match(j),
            },
    {
        let mut i: usize = 0;
        while i < self.invaders.len()
            invariant
                i <= self.invaders@.len(),
                forall|j: int| 0 <= j < i ==> !self.fire_match(j),
            decreases self.invaders@.len() - i,
        {
            let inv = self.invaders[i];
            if inv.visible && inv.value == self.input.value {
                proof {
                    assert(self.fire_match(i as int));
                }
                return Some(inv);
            }
            i = i + 1;
        }
        None
    }

    /// Fire a projectile at `target`: anchor it at the firing line, aimed at
    /// the target's current label and row.
    pub fn shoot(&mut self, target: Invader)
        requires
            old(self).screen_rows >= 10,
            1 <= target.row,
            target.row + 4 <= old(self).screen_rows,
        ensures
            old(self).same_config(*final(self)),
            old(self).same_input(*final(self)),
            final(self).invaders@ == old(self).invaders@,
            final(self).registry.entries@ == old(self).registry.entries@,
            final(self).current_score == old(self).current_score,
            final(self).state == old(self).state,
            final(self).tick == old(self).tick,
            final(self).arrows@ =~= old(self).arrows@.push(
                Arrow {
                    total_rows: old(self).screen_rows,
                    current_row: (old(self).screen_rows - 3) as u16,
                    visible: true,
                    target,
                },
            ),
            old(self).wf() ==> final(self).wf(),
    {
        let arrow = Arrow::new(self.screen_rows, target);
        self.arrows.push(arrow);
    }
}

/// What a successful spawn changes: `other` is `self` with `nv` appended to
/// the live collection and its label marked active; nothing else moves.
pub open spec fn spawned_with(g: Game, h: Game, nv: Invader) -> bool {
    &&& h.invaders@ == g.invaders@.push(nv)
    &&& h.registry.entries@ == g.registry.entries@.insert(nv.value, true)
    &&& g.same_config(h)
    &&& g.same_input(h)
    &&& h.arrows@ == g.arrows@
    &&& h.current_score == g.current_score
    &&& h.state == g.state
    &&& h.tick == g.tick
}

impl Game {
    /// Admit one invader with the sampled column and label, if the label is
    /// free: mark the label active and append the invader at the top row.
    /// Returns whether the spawn was accepted.
    pub fn try_spawn(&mut self, col: u16, val: u8) -> (spawned: bool)
        requires
            old(self).wf(),
            3 <= col,
            col + 5 <= old(self).game_cols,
            1 <= val,
        ensures
            final(self).wf(),
            spawned == old(self).registry.available(val),
            spawned ==> old(self).fresh_spawn(Invader { value: val, row: 1, col, visible: true }),
            spawned ==> spawned_with(
                *old(self),
                *final(self),
                Invader { value: val, row: 1, col, visible: true },
            ),
            !spawned ==> old(self).same_game(*final(self)),
    {
        if self.registry.is_available(val) {
            self.registry.mark_active(val);
            let invader = Invader::new(1, col, val);
            self.invaders.push(invader);
            proof {
                assert forall|i: int| 0 <= i < self.invaders@.len() implies {
                    &&& (#[trigger] self.invaders@[i]).visible
                    &&& self.invaders@[i].value >= 1
                    &&& self.invaders@[i].row >= 1
                    &&& self.registry.active(self.invaders@[i].value)
                } by {
                    if i < old(self).invaders@.len() {
                        assert(old(self).invaders@[i] == self.invaders@[i]);
                    }
                }
            }
            true
        } else {
            false
        }
    }

    /// Generate one invader at a uniformly sampled column with a random free
    /// nonzero label. A few random draws are tried; if they all hit occupied
    /// labels, the label domain is swept for the first free one, so a spawn
    /// is refused only when all 255 labels are active at once.
    pub fn generate_invader(&mut self) -> (spawned: bool)
        requires
            old(self).wf(),
        ensures
            final(self).wf(),
            spawned == exists|l: u8| l >= 1 && old(self).registry.available(l),
            spawned ==> exists|nv: Invader|
                {
                    &&& #[trigger] old(self).fresh_spawn(nv)
                    &&& spawned_with(*old(self), *final(self), nv)
                },
            !spawned ==> old(self).same_game(*final(self)),
    {
        let hi = self.game_cols - 5;
        let mut attempts: usize = 0;
        while attempts < 16
            invariant
                old(self).same_game(*self),
                old(self).wf(),
                self.wf(),
                hi == self.game_cols - 5,
                self.game_cols >= 80,
            decreases 16 - attempts,
        {
            let col = random_u16_between(3, hi);
            let sample = random_u16_between(1, 255);
            let val = sample as u8;
            let ghost pre = *self;
            if self.try_spawn(col, val) {
                proof {
                    let nv = Invader { value: val, row: 1, col, visible: true };
                    assert(pre.registry.available(val));
                    assert(val >= 1 && old(self).registry.available(val));
                    assert(old(self).fresh_spawn(nv));
                    assert(spawned_with(*old(self), *self, nv));
                }
                return true;
            }
            attempts = attempts + 1;
        }
        let col = random_u16_between(3, hi);
        let mut label: u16 = 1;
        while label <= 255
            invariant
                old(self).same_game(*self),
                old(self).wf(),
                self.wf(),
                1 <= label <= 256,
                forall|v: u8| 1 <= v < label ==> !old(self).registry.available(v),
                3 <= col,
                col + 5 <= self.game_cols,
            decreases 256 - label,
        {
            let val = label as u8;
            if self.registry.is_available(val) {
                let ghost pre = *self;
                let accepted = self.try_spawn(col, val);
                assert(accepted);
                proof {
                    let nv = Invader { value: val, row: 1, col, visible: true };
                    assert(pre.registry.available(val));
                    assert(val >= 1 && old(self).registry.available(val));
                    assert(old(self).fresh_spawn(nv));
                    assert(spawned_with(*old(self), *self, nv));
                }
                return true;
            }
            label = label + 1;
        }
        proof {
            assert forall|l: u8| l >= 1 implies !old(self).registry.available(l) by {
                assert(1 <= l < 256);
            }
        }
        false
    }
}

/// Some invader in `s` carries the label `val`.
pub open spec fn has_label(s: Seq<Invader>, val: u8) -> bool {
    exists|i: int| 0 <= i < s.len() && (#[trigger] s[i]).value == val
}

/// What resolving a hit against label `val` changes: if an invader with that
/// label is live, exactly the first one leaves the collection and the label
/// is freed in the registry; against a label not present it is a no-op.
pub open spec fn hit_step(g: Game, h: Game, val: u8) -> bool {
    if has_label(g.invaders@, val) {
        &&& exists|k: int|
            {
                &&& 0 <= k < g.invaders@.len()
                &&& (#[trigger] g.invaders@[k]).value == val
                &&& (forall|j: int| 0 <= j < k ==> g.invaders@[j].value != val)
                &&& h.invaders@ == g.invaders@.remove(k)
            }
        &&& h.registry.entries@ == g.registry.entries@.insert(val, false)
        &&& g.same_config(h)
        &&& g.same_input(h)
        &&& h.arrows@ == g.arrows@
        &&& h.current_score == g.current_score
        &&& h.state == g.state
        &&& h.tick == g.tick
    } else {
        g.same_game(h)
    }
}

/// What one projectile pass changes: every visible arrow up to and including
/// the first arriving one advances a row; the first arriving arrow turns
/// invisible and its target's label is reported; arrows after it wait for the
/// next pass, exactly as a single in-order sweep leaves them.
pub open spec fn arrow_step(g: Game, h: Game, hit: Option<u8>) -> bool {
    &&& g.same_config(h)
    &&& g.same_input(h)
    &&& h.invaders@ == g.invaders@
    &&& h.registry.entries@ == g.registry.entries@
    &&& h.current_score == g.current_score
    &&& h.state == g.state
    &&& h.tick == g.tick
    &&& match hit {
        None => {
            &&& forall|i: int| 0 <= i < g.arrows@.len() ==> !arriving(#[trigger] g.arrows@[i])
            &&& h.arrows@ == g.arrows@.map_values(|a: Arrow| arrow_advanced(a))
        },
        Some(v) => exists|k: int|
            {
                &&& 0 <= k < g.arrows@.len()
                &&& arriving(#[trigger] g.arrows@[k])
                &&& (forall|j: int| 0 <= j < k ==> !arriving(#[trigger] g.arrows@[j]))
                &&& v == g.arrows@[k].target.value
                &&& h.arrows@.len() == g.arrows@.len()
                &&& (forall|j: int|
                    0 <= j < k ==> h.arrows@[j] == arrow_advanced(#[trigger] g.arrows@[j]))
                &&& h.arrows@[k] == (Arrow {
                    current_row: (g.arrows@[k].current_row - 1) as u16,
                    visible: false,
                    ..g.arrows@[k]
                })
                &&& (forall|j: int| k < j < g.arrows@.len() ==> h.arrows@[j] == g.arrows@[j])
            },
    }
}

impl Game {
    /// Resolve a hit against `val`: free the label and remove the first live
    /// invader carrying it. Against a label no invader carries, do nothing.
    pub fn remove_invader(&mut self, val: u8)
        requires
            old(self).wf(),
        ensures
            final(self).wf(),
            hit_step(*old(self), *final(self), val),
    {
        let ghost pre = *self;
        let n = self.invaders.len();
        let mut idx: usize = 0;
        while idx < n
            invariant
                pre == *old(self),
                pre == *self,
                pre.wf(),
                n == self.invaders@.len(),
                idx <= n,
                forall|j: int| 0 <= j < idx ==> (#[trigger] self.invaders@[j]).value != val,
            decreases n - idx,
        {
            if self.invaders[idx].value == val {
                self.registry.mark_free(val);
                self.invaders.remove(idx);
                proof {
                    assert(has_label(pre.invaders@, val));
                    assert(self.invaders@ =~= pre.invaders@.remove(idx as int));
                    assert(exists|k: int|
                        {
                            &&& 0 <= k < pre.invaders@.len()
                            &&& (#[trigger] pre.invaders@[k]).value == val
                            &&& (forall|j: int| 0 <= j < k ==> pre.invaders@[j].value != val)
                            &&& self.invaders@ == pre.invaders@.remove(k)
                        }) by {
                        assert(0 <= (idx as int) < pre.invaders@.len());
                        assert((pre.invaders@[idx as int]).value == val);
                        assert(forall|j: int|
                            0 <= j < idx as int ==> (#[trigger] pre.invaders@[j]).value != val);
                        assert(self.invaders@ == pre.invaders@.remove(idx as int));
                    }
                    assert forall|i: int| 0 <= i < self.invaders@.len() implies {
                        &&& (#[trigger] self.invaders@[i]).visible
                        &&& self.invaders@[i].value >= 1
                        &&& self.invaders@[i].row >= 1
                        &&& self.registry.active(self.invaders@[i].value)
                    } by {
                        if i < idx {
                            assert(self.invaders@[i] == pre.invaders@[i]);
                        } else {
                            assert(self.invaders@[i] == pre.invaders@[i + 1]);
                        }
                        assert(self.invaders@[i].value != val);
                    }
                    assert forall|i: int, j: int|
                        0 <= i < j < self.invaders@.len() implies (#[trigger] self.invaders@[i]).value
                        != (#[trigger] self.invaders@[j]).value by {
                        let pi = if i < idx { i } else { i + 1 };
                        let pj = if j < idx { j } else { j + 1 };
                        assert(self.invaders@[i] == pre.invaders@[pi]);
                        assert(self.invaders@[j] == pre.invaders@[pj]);
                    }
                    assert forall|i: int| 0 <= i < self.invaders@.len() implies (
                    #[trigger] self.invaders@[i]).row + 4 <= self.screen_rows || !(
                    self.state == RoundState::Running) by {
                        if self.state == RoundState::Running {
                            let pi = if i < idx { i } else { i + 1 };
                            assert(self.invaders@[i] == pre.invaders@[pi]);
                        }
                    }
                }
                return;
            }
            idx = idx + 1;
        }
        proof {
            assert(!has_label(pre.invaders@, val));
        }
    }

    /// One projectile pass: sweep the arrows in order, advancing each visible
    /// one a row; the first that thereby moves past its target's row is
    /// marked invisible and its target's label returned for removal. Arrows
    /// after it keep their place until the next pass.
    pub fn arrow_move_forward(&mut self) -> (hit: Option<u8>)
        requires
            old(self).arrows_wf(),
        ensures
            final(self).arrows_wf(),
            arrow_step(*old(self), *final(self), hit),
            old(self).wf() ==> final(self).wf(),
    {
        let ghost pre = *self;
        let n = self.arrows.len();
        let mut i: usize = 0;
        while i < n
            invariant
                pre == *old(self),
                n == self.arrows@.len(),
                n == pre.arrows@.len(),
                i <= n,
                pre.arrows_wf(),
                old(self).wf() ==> pre.wf(),
                pre.same_config(*self),
                pre.same_input(*self),
                self.invaders@ == pre.invaders@,
                self.registry.entries@ == pre.registry.entries@,
                self.current_score == pre.current_score,
                self.state == pre.state,
                self.tick == pre.tick,
                self.screen_rows == pre.screen_rows,
                self.invaders@ =~= pre.invaders@,
                forall|j: int|
                    0 <= j < i ==> !arriving(#[trigger] pre.arrows@[j]) && self.arrows@[j]
                        == arrow_advanced(pre.arrows@[j]),
                forall|j: int| i <= j < n ==> self.arrows@[j] == #[trigger] pre.arrows@[j],
            decreases n - i,
        {
            let mut a = self.arrows[i];
            proof {
                assert(a == pre.arrows@[i as int]);
            }
            if a.visible {
                a.move_forward();
                if a.current_row + 1 == a.target.row {
                    a.visible = false;
                    self.arrows.set(i, a);
                    proof {
                        assert(arriving(pre.arrows@[i as int]));
                        assert(self.arrows@[i as int] == (Arrow {
                            current_row: (pre.arrows@[i as int].current_row - 1) as u16,
                            visible: false,
                            ..pre.arrows@[i as int]
                        }));
                        assert(a.target.value == pre.arrows@[i as int].target.value);
                        lemma_arrow_pass_wf(pre, *self, i as int);
                        assert(arrow_step(pre, *self, Some(a.target.value)));
                    }
                    return Some(a.target.value);
                }
                self.arrows.set(i, a);
            }
            i = i + 1;
        }
        proof {
            assert(self.arrows@ =~= pre.arrows@.map_values(|a: Arrow| arrow_advanced(a)));
            assert forall|j: int|
                0 <= j < self.arrows@.len() && (#[trigger] self.arrows@[j]).visible implies {
                &&& self.arrows@[j].target.row >= 1
                &&& self.arrows@[j].current_row >= self.arrows@[j].target.row
            } by {
                assert(self.arrows@[j] == arrow_advanced(pre.arrows@[j]));
                assert(!arriving(pre.arrows@[j]));
            }
        }
        None
    }
}

/// After an in-order projectile sweep stopped at the arriving arrow `k`, the
/// arrow collection is still well-formed: advanced arrows that were not
/// arriving stay at or below their targets, the arriving one is invisible,
/// and later arrows are untouched.
proof fn lemma_arrow_pass_wf(pre: Game, post: Game, k: int)
    requires
        pre.arrows_wf(),
        0 <= k < pre.arrows@.len(),
        post.arrows@.len() == pre.arrows@.len(),
        forall|j: int|
            0 <= j < k ==> !arriving(#[trigger] pre.arrows@[j]) && post.arrows@[j]
                == arrow_advanced(pre.arrows@[j]),
        post.arrows@[k] == (Arrow {
            current_row: (pre.arrows@[k].current_row - 1) as u16,
            visible: false,
            ..pre.arrows@[k]
        }),
        forall|j: int| k < j < pre.arrows@.len() ==> post.arrows@[j] == #[trigger] pre.arrows@[j],
        arriving(pre.arrows@[k]),
    ensures
        post.arrows_wf(),
{
    assert forall|j: int|
        0 <= j < post.arrows@.len() && (#[trigger] post.arrows@[j]).visible implies {
        &&& post.arrows@[j].target.row >= 1
        &&& post.arrows@[j].current_row >= post.arrows@[j].target.row
    } by {
        if j < k {
            assert(post.arrows@[j] == arrow_advanced(pre.arrows@[j]));
            assert(!arriving(pre.arrows@[j]));
        } else if j == k {
            assert(!post.arrows@[j].visible);
        } else {
            assert(post.arrows@[j] == pre.arrows@[j]);
        }
    }
}

/// What one iteration's input sampling changes: the event's toggle, if any,
/// is applied, and the composed value is recomputed from all eight bits.
pub open spec fn input_step(g: Game, h: Game, event: Option<InputEvent>) -> bool {
    &&& g.same_config(h)
    &&& h.invaders@ == g.invaders@
    &&& h.arrows@ == g.arrows@
    &&& h.registry.entries@ == g.registry.entries@
    &&& h.current_score == g.current_score
    &&& h.state == g.state
    &&& h.tick == g.tick
    &&& h.input.bits@ == bits_after(g.input.bits@, event)
    &&& h.input.wf()
}

/// What one macro-tick changes: a new invader is admitted when the spacing
/// trigger is due and a label is free, every live invader then advances one
/// row, and the round ends exactly when some invader has thereby moved past
/// the four reserved bottom rows.
pub open spec fn macro_step(g: Game, h: Game) -> bool {
    &&& g.same_config(h)
    &&& g.same_input(h)
    &&& h.arrows@ == g.arrows@
    &&& h.current_score == g.current_score
    &&& h.tick == g.tick
    &&& (h.invaders@.len() == g.invaders@.len() || (g.spawn_due() && h.invaders@.len()
        == g.invaders@.len() + 1))
    &&& (forall|i: int|
        0 <= i < g.invaders@.len() ==> h.invaders@[i] == advanced(#[trigger] g.invaders@[i]))
    &&& (h.invaders@.len() == g.invaders@.len() ==> h.registry.entries@ == g.registry.entries@)
    &&& (h.invaders@.len() == g.invaders@.len() + 1 ==> {
        let nv = h.invaders@.last();
        &&& nv.visible
        &&& nv.row == 2
        &&& nv.value >= 1
        &&& g.registry.available(nv.value)
        &&& 3 <= nv.col <= g.game_cols - 5
        &&& h.registry.entries@ == g.registry.entries@.insert(nv.value, true)
    })
    &&& ((g.spawn_due() && exists|l: u8| l >= 1 && g.registry.available(l)) ==> h.invaders@.len()
        == g.invaders@.len() + 1)
    &&& (!g.spawn_due() ==> h.invaders@.len() == g.invaders@.len())
    &&& h.state == (if h.in_field() {
        RoundState::Running
    } else {
        RoundState::RoundOver
    })
}

/// What the every-iteration fire check changes: if some live invader's label
/// equals the composed input value, a projectile is fired at the first such
/// invader, the accumulator is zeroed and the score increments; otherwise
/// nothing moves.
pub open spec fn fire_step(g: Game, h: Game) -> bool {
    if exists|k: int| 0 <= k < g.invaders@.len() && g.fire_match(k) {
        &&& exists|k: int|
            {
                &&& 0 <= k < g.invaders@.len()
                &&& g.fire_match(k)
                &&& (forall|j: int| 0 <= j < k ==> !g.fire_match(j))
                &&& h.arrows@ == g.arrows@.push(
                    Arrow {
                        total_rows: g.screen_rows,
                        current_row: (g.screen_rows - 3) as u16,
                        visible: true,
                        target: g.invaders@[k],
                    },
                )
            }
        &&& g.same_config(h)
        &&& h.invaders@ == g.invaders@
        &&& h.registry.entries@ == g.registry.entries@
        &&& h.input.wf()
        &&& h.input.is_zeroed()
        &&& h.current_score == g.current_score + 1
        &&& h.state == g.state
        &&& h.tick == g.tick
    } else {
        g.same_game(h)
    }
}

impl Game {
    /// One macro-tick: generate a new invader when none is live or the last
    /// one has advanced past the spacing threshold, then advance every live
    /// invader one row. Returns whether the round survives: it ends the
    /// instant any invader moves past the reserved bottom rows, and the state
    /// records that on the same tick.
    pub fn invaders_move_forward(&mut self) -> (alive: bool)
        requires
            old(self).wf(),
            old(self).state == RoundState::Running,
        ensures
            final(self).wf(),
            macro_step(*old(self), *final(self)),
            alive == (final(self).state == RoundState::Running),
            alive == final(self).in_field(),
    {
        let n0 = self.invaders.len();
        let due = if n0 == 0 {
            true
        } else {
            let last = self.invaders[n0 - 1];
            (last.row as u32) == (self.invader_distance as u32) + 4
        };
        proof {
            assert(due == old(self).spawn_due());
        }
        if due {
            let _ = self.generate_invader();
        }
        let ghost g1 = *self;
        let n = self.invaders.len();
        let mut alive = true;
        let mut i: usize = 0;
        while i < n
            invariant
                g1.wf(),
                g1.state == RoundState::Running,
                n == self.invaders@.len(),
                n == g1.invaders@.len(),
                i <= n,
                g1.same_config(*self),
                g1.same_input(*self),
                self.arrows@ == g1.arrows@,
                self.registry.entries@ == g1.registry.entries@,
                self.current_score == g1.current_score,
                self.state == g1.state,
                self.tick == g1.tick,
                self.screen_rows == g1.screen_rows,
                self.screen_rows >= 10,
                forall|j: int|
                    0 <= j < i ==> self.invaders@[j] == advanced(#[trigger] g1.invaders@[j]),
                forall|j: int| i <= j < n ==> self.invaders@[j] == #[trigger] g1.invaders@[j],
                alive ==> forall|j: int|
                    0 <= j < i ==> (#[trigger] self.invaders@[j]).row + 4 <= self.screen_rows,
                !alive ==> exists|j: int|
                    0 <= j < i && (#[trigger] self.invaders@[j]).row + 4 > self.screen_rows,
            decreases n - i,
        {
            let ghost s0 = *self;
            let ghost alive0 = alive;
            let mut inv = self.invaders[i];
            proof {
                assert(inv == g1.invaders@[i as int]);
            }
            inv.move_forward();
            self.invaders.set(i, inv);
            if inv.row > self.screen_rows - 4 {
                alive = false;
            }
            proof {
                assert(self.invaders@ == s0.invaders@.update(i as int, inv));
                assert(self.invaders@[i as int] == inv);
                if !alive0 {
                    let j = choose|j: int|
                        0 <= j < i && (#[trigger] s0.invaders@[j]).row + 4 > s0.screen_rows;
                    assert(self.invaders@[j] == s0.invaders@[j]);
                    assert((self.invaders@[j]).row + 4 > self.screen_rows);
                } else if inv.row + 4 > self.screen_rows {
                    assert((self.invaders@[i as int]).row + 4 > self.screen_rows);
                }
            }
            i = i + 1;
        }
        if !alive {
            self.state = RoundState::RoundOver;
        }
        proof {
            assert(alive == self.in_field());
            lemma_macro_move(*old(self), g1, *self);
        }
        alive
    }

    /// The every-iteration fire check: if a live invader's label equals the
    /// composed input value, shoot the first such invader, zero the
    /// accumulator and score the shot.
    pub fn fire_if_match(&mut self) -> (fired: bool)
        requires
            old(self).wf(),
            old(self).state == RoundState::Running,
            old(self).current_score < usize::MAX,
        ensures
            final(self).wf(),
            fire_step(*old(self), *final(self)),
            fired == exists|k: int| 0 <= k < old(self).invaders@.len() && old(self).fire_match(k),
    {
        match self.to_shoot() {
            Some(target) => {
                proof {
                    let k = choose|k: int|
                        {
                            &&& 0 <= k < old(self).invaders@.len()
                            &&& old(self).fire_match(k)
                            &&& target == old(self).invaders@[k]
                            &&& forall|j: int| 0 <= j < k ==> !old(self).fire_match(j)
                        };
                    assert(old(self).invaders@[k].row + 4 <= old(self).screen_rows);
                    assert(target.row >= 1);
                }
                self.shoot(target);
                self.zero_input();
                self.current_score = self.current_score + 1;
                proof {
                    let k = choose|k: int|
                        {
                            &&& 0 <= k < old(self).invaders@.len()
                            &&& old(self).fire_match(k)
                            &&& target == old(self).invaders@[k]
                            &&& forall|j: int| 0 <= j < k ==> !old(self).fire_match(j)
                        };
                    assert(self.arrows@ == old(self).arrows@.push(
                        Arrow {
                            total_rows: old(self).screen_rows,
                            current_row: (old(self).screen_rows - 3) as u16,
                            visible: true,
                            target: old(self).invaders@[k],
                        },
                    ));
                    assert(fire_step(*old(self), *self));
                }
                true
            },
            None => false,
        }
    }
}

/// After a macro-tick's movement pass the game is still well-formed and the
/// pass relates the pre-spawn, post-spawn and post-move states as
/// `macro_step` describes.
proof fn lemma_macro_move(g0: Game, g1: Game, h: Game)
    requires
        g0.wf(),
        g0.state == RoundState::Running,
        g1.wf(),
        g1.state == RoundState::Running,
        g0.spawn_due() ==> {
            ||| g0.same_game(g1)
            ||| exists|nv: Invader|
                {
                    &&& #[trigger] g0.fresh_spawn(nv)
                    &&& spawned_with(g0, g1, nv)
                }
        },
        g0.spawn_due() ==> (exists|l: u8| l >= 1 && g0.registry.available(l))
            ==> g1.invaders@.len() == g0.invaders@.len() + 1,
        !g0.spawn_due() ==> g0.same_game(g1),
        g1.same_config(h),
        g1.same_input(h),
        h.arrows@ == g1.arrows@,
        h.registry.entries@ == g1.registry.entries@,
        h.current_score == g1.current_score,
        h.tick == g1.tick,
        h.invaders@.len() == g1.invaders@.len(),
        forall|j: int|
            0 <= j < g1.invaders@.len() ==> h.invaders@[j] == advanced(#[trigger] g1.invaders@[j]),
        h.state == (if h.in_field() {
            RoundState::Running
        } else {
            RoundState::RoundOver
        }),
    ensures
        h.wf(),
        macro_step(g0, h),
{
    assert forall|i: int| 0 <= i < h.invaders@.len() implies {
        &&& (#[trigger] h.invaders@[i]).visible
        &&& h.invaders@[i].value >= 1
        &&& h.invaders@[i].row >= 1
        &&& h.registry.active(h.invaders@[i].value)
    } by {
        assert(h.invaders@[i] == advanced(g1.invaders@[i]));
        assert(g1.invaders@[i].row + 4 <= g1.screen_rows);
    }
    assert forall|i: int, j: int|
        0 <= i < j < h.invaders@.len() implies (#[trigger] h.invaders@[i]).value != (
    #[trigger] h.invaders@[j]).value by {
        assert(h.invaders@[i] == advanced(g1.invaders@[i]));
        assert(h.invaders@[j] == advanced(g1.invaders@[j]));
    }
    assert forall|i: int| 0 <= i < g0.invaders@.len() implies h.invaders@[i] == advanced(
        #[trigger] g0.invaders@[i],
    ) by {
        assert(g1.invaders@[i] == g0.invaders@[i]);
    }
    if g1.invaders@.len() == g0.invaders@.len() + 1 {
        let nv = choose|nv: Invader| #[trigger] g0.fresh_spawn(nv) && spawned_with(g0, g1, nv);
        assert(g1.invaders@.last() == nv);
        assert(h.invaders@.last() == advanced(nv));
    }
}

/// The macro lane of one iteration: on every `MACRO_PERIOD`th tick the
/// invaders spawn and move as `macro_step` says; on every other tick nothing
/// happens here.
pub open spec fn macro_lane(g: Game, h: Game) -> bool {
    if g.tick % MACRO_PERIOD == 0 {
        macro_step(g, h)
    } else {
        g.same_game(h)
    }
}

/// One projectile pass and the resolution of the hit it may report: the
/// reported label is removed and freed as `hit_step` says.
pub open spec fn micro_step(g: Game, h: Game) -> bool {
    exists|m: Game, r: Option<u8>|
        #[trigger] arrow_step(g, m, r) && match r {
            None => m.same_game(h),
            Some(v) => hit_step(m, h, v),
        }
}

/// The micro lane of one iteration: on every `MICRO_PERIOD`th tick the
/// projectiles move and collisions resolve; on every other tick nothing
/// happens here.
pub open spec fn micro_lane(g: Game, h: Game) -> bool {
    if g.tick % MICRO_PERIOD == 0 {
        micro_step(g, h)
    } else {
        g.same_game(h)
    }
}

/// What follows the input update within one running iteration: the fire
/// check, and the tick counter advancing by one.
pub open spec fn lanes_after_input(g: Game, h: Game) -> bool {
    exists|f: Game| #[trigger] fire_step(g, f) && f.same_but_tick(h) && h.tick == f.tick + 1
}

/// What follows the micro lane within one running iteration: the input
/// update, then the fire check and the tick advance.
pub open spec fn lanes_after_micro(g: Game, h: Game, event: Option<InputEvent>) -> bool {
    exists|u: Game| #[trigger] input_step(g, u, event) && lanes_after_input(u, h)
}

/// What follows the macro lane within one running iteration: if the macro
/// lane just ended the round, the iteration stops there (the tick does not
/// advance); otherwise the micro lane, the input update and the fire check
/// run in that order.
pub open spec fn lanes_after_macro(g: Game, h: Game, event: Option<InputEvent>) -> bool {
    if g.state == RoundState::RoundOver {
        g.same_game(h)
    } else {
        exists|m: Game| #[trigger] micro_lane(g, m) && lanes_after_micro(m, h, event)
    }
}

/// One full iteration of a running round: the macro lane, then — unless the
/// round just ended — the micro lane, the input sampling and the fire check,
/// in exactly that order, and the tick counter advancing by one.
pub open spec fn running_step(g: Game, h: Game, event: Option<InputEvent>) -> bool {
    exists|m: Game| #[trigger] macro_lane(g, m) && lanes_after_macro(m, h, event)
}

impl Game {
    /// One iteration of the base tick. In `Idle`, the start key clears all
    /// game data and starts a round. While `Running`, the three sub-schedules
    /// run off one counter: invader spawn/movement every `MACRO_PERIOD`th
    /// iteration, projectile movement and collision every `MICRO_PERIOD`th,
    /// and input sampling followed by the fire check on every iteration, in
    /// that order. A round-ending macro-tick freezes the iteration there. In
    /// `RoundOver`, the start key returns to `Idle`.
    #[verifier::rlimit(60)]
    pub fn step(&mut self, event: Option<InputEvent>)
        requires
            old(self).wf(),
            event_wf(event),
            old(self).current_score < usize::MAX,
            old(self).tick < u64::MAX,
        ensures
            final(self).wf(),
            old(self).same_config(*final(self)),
            old(self).state == RoundState::Idle ==> (if event == Some(InputEvent::StartOrRestart) {
                &&& final(self).state == RoundState::Running
                &&& final(self).tick == 0
                &&& final(self).cleared()
            } else {
                old(self).same_game(*final(self))
            }),
            old(self).state == RoundState::RoundOver ==> (if event == Some(
                InputEvent::StartOrRestart,
            ) {
                &&& final(self).state == RoundState::Idle
                &&& old(self).same_input(*final(self))
                &&& final(self).invaders@ == old(self).invaders@
                &&& final(self).arrows@ == old(self).arrows@
                &&& final(self).registry.entries@ == old(self).registry.entries@
                &&& final(self).current_score == old(self).current_score
                &&& final(self).tick == old(self).tick
            } else {
                old(self).same_game(*final(self))
            }),
            old(self).state == RoundState::Running ==> running_step(
                *old(self),
                *final(self),
                event,
            ),
    {
        match self.state {
            RoundState::Idle => {
                match event {
                    Some(InputEvent::StartOrRestart) => {
                        self.clear_data();
                        self.state = RoundState::Running;
                        self.tick = 0;
                    },
                    _ => {},
                }
            },
            RoundState::RoundOver => {
                match event {
                    Some(InputEvent::StartOrRestart) => {
                        self.state = RoundState::Idle;
                    },
                    _ => {},
                }
            },
            RoundState::Running => {
                let ghost g0 = *self;
                if self.tick % MACRO_PERIOD == 0 {
                    let alive = self.invaders_move_forward();
                    if !alive {
                        proof {
                            assert(macro_lane(g0, *self));
                            assert(lanes_after_macro(*self, *self, event));
                            assert(running_step(g0, *self, event));
                        }
                        return ;
                    }
                }
                let ghost g1 = *self;
                proof {
                    assert(macro_lane(g0, g1));
                    assert(g1.state == RoundState::Running);
                    assert(g1.wf());
                }
                if self.tick % MICRO_PERIOD == 0 {
                    let hit = self.arrow_move_forward();
                    let ghost mid = *self;
                    match hit {
                        Some(v) => {
                            self.remove_invader(v);
                            proof {
                                assert(arrow_step(g1, mid, Some(v)));
                                assert(hit_step(mid, *self, v));
                                assert(micro_step(g1, *self));
                            }
                        },
                        None => {
                            proof {
                                assert(arrow_step(g1, mid, None::<u8>));
                                assert(mid.same_game(*self));
                                assert(micro_step(g1, *self));
                            }
                        },
                    }
                    proof {
                        assert(micro_lane(g1, *self));
                    }
                } else {
                    proof {
                        assert(g1.same_game(*self));
                        assert(micro_lane(g1, *self));
                    }
                }
                let ghost g2 = *self;
                self.update_input(event);
                let ghost g3 = *self;
                let _ = self.fire_if_match();
                let ghost g4 = *self;
                self.tick = self.tick + 1;
                proof {
                    assert(input_step(g2, g3, event));
                    assert(fire_step(g3, g4));
                    assert(g4.same_but_tick(*self));
                    assert(self.tick == g4.tick + 1);
                    assert(lanes_after_input(g3, *self));
                    assert(lanes_after_micro(g2, *self, event));
                    assert(lanes_after_macro(g1, *self, event));
                    assert(running_step(g0, *self, event));
                }
            },
        }
    }
}

/// The bit vector after one iteration's input event: a toggle event flips its
/// bit, anything else leaves the bits alone.
pub open spec fn bits_after(bits: Seq<u8>, event: Option<InputEvent>) -> Seq<u8> {
    match event {
        Some(InputEvent::ToggleBit(idx)) => toggled(bits, idx as int),
        _ => bits,
    }
}

/// Uniqueness invariant: at no instant do two visible invaders share a
/// label. The well-formedness predicate carries this through every mutation
/// of a running round, so it holds whenever the game is well-formed.
pub proof fn lemma_visible_labels_unique(g: Game, i: int, j: int)
    requires
        g.wf(),
        0 <= i < g.invaders@.len(),
        0 <= j < g.invaders@.len(),
        i != j,
        g.invaders@[i].visible,
        g.invaders@[j].visible,
    ensures
        g.invaders@[i].value != g.invaders@[j].value,
{
}

/// Hit exactness: resolving a hit against a label that some invader carries
/// removes exactly one invader — afterwards none carries the label — and
/// frees the label in the registry; every other invader survives in order.
/// Against a label no invader carries, the hit is a no-op, which is the
/// `else` branch of `hit_step` itself.
pub proof fn lemma_hit_exactness(g: Game, h: Game, val: u8)
    requires
        g.wf(),
        hit_step(g, h, val),
        has_label(g.invaders@, val),
    ensures
        h.invaders@.len() + 1 == g.invaders@.len(),
        !has_label(h.invaders@, val),
        h.registry.available(val),
        forall|m: int|
            0 <= m < h.invaders@.len() ==> ((#[trigger] h.invaders@[m]) == g.invaders@[m]
                || h.invaders@[m] == g.invaders@[m + 1]),
{
    let k = choose|k: int|
        {
            &&& 0 <= k < g.invaders@.len()
            &&& (#[trigger] g.invaders@[k]).value == val
            &&& (forall|j: int| 0 <= j < k ==> g.invaders@[j].value != val)
            &&& h.invaders@ == g.invaders@.remove(k)
        };
    assert forall|m: int| 0 <= m < h.invaders@.len() implies (#[trigger] h.invaders@[m]).value
        != val by {
        if m < k {
            assert(h.invaders@[m] == g.invaders@[m]);
        } else {
            assert(h.invaders@[m] == g.invaders@[m + 1]);
        }
    }
    assert forall|m: int|
        0 <= m < h.invaders@.len() implies ((#[trigger] h.invaders@[m]) == g.invaders@[m]
        || h.invaders@[m] == g.invaders@[m + 1]) by {
        if m < k {
            assert(h.invaders@[m] == g.invaders@[m]);
        } else {
            assert(h.invaders@[m] == g.invaders@[m + 1]);
        }
    }
}

/// Round-ending determinism: whatever else the macro-tick did, if any
/// invader stands past the four reserved bottom rows once the movement pass
/// is done, the round is over on that same tick.
pub proof fn lemma_round_end_same_tick(g: Game, h: Game, i: int)
    requires
        macro_step(g, h),
        0 <= i < h.invaders@.len(),
        h.invaders@[i].row + 4 > h.screen_rows,
    ensures
        h.state == RoundState::RoundOver,
{
}

/// Relies on rand's `Rng::gen_range` on the thread-local generator
/// (`rand::thread_rng`): sampling a nonempty inclusive range returns a value
/// within its bounds and does not panic.
#[verifier::external_body]
fn random_u16_between(lo: u16, hi: u16) -> (r: u16)
    requires
        lo <= hi,
    ensures
        lo <= r <= hi,
{
    rand::Rng::gen_range(&mut rand::thread_rng(), lo..=hi)
}

} // verus!
