use vstd::prelude::*;

use std::collections::VecDeque;

use crate::character::{CharacterBundle, Group};
use crate::log::BattleLogEvent;
use vstd::string::StringExecFns;

verus! {

/// Whether a combatant still takes part in the battle.
#[derive(Debug, Clone, Copy, PartialEq, Eq, Structural)]
pub enum LifeState {
    Alive,
    Dead,
}

/// A combatant taking part in the running battle: its mechanical record and
/// its life state. Combatants are named by their index in the battle's
/// roster.
#[derive(Debug)]
pub struct Combatant {
    pub bundle: CharacterBundle,
    pub life: LifeState,
}

/// A signal that drives the battle state machine: a combatant died, or the
/// acting combatant's turn ended.
#[derive(Debug)]
pub enum BattleLifecycleEvent {
    CharacterDied(usize),
    EndTurn,
}

/// The states the battle moves through while it runs.
#[derive(Debug, Clone, Copy, PartialEq, Eq, Structural)]
pub enum BattleState {
    BattleInit,
    BattleEnd,
    AbilityChoosingPlayer,
    AbilityTargeting,
    AbilityCastingEnemy,
    AbilityResolution,
}

/// The battle's outcome, recorded once a side has no one left standing.
#[derive(Debug, Clone, Copy, PartialEq, Eq, Structural)]
pub struct BattleResolution {
    pub winner: Group,
}

/// The rotating turn order: combatant indices, the head acts next. Dead
/// combatants stay in the queue; the state machine routes past them.
#[derive(Debug)]
pub struct BattleQueue {
    pub queue: VecDeque<usize>,
}

/// The queue after one end-of-turn rotation: head to the back.
pub open spec fn rotate_left_one(s: Seq<usize>) -> Seq<usize> {
    s.subrange(1, s.len() as int) + s.subrange(0, 1)
}

/// The queue after `k` single rotations, `0 <= k <= len`, in one step.
pub open spec fn rotate_left_by(s: Seq<usize>, k: int) -> Seq<usize> {
    s.subrange(k, s.len() as int) + s.subrange(0, k)
}

/// `n` single rotations, one after the other.
pub open spec fn iter_rotate(s: Seq<usize>, n: nat) -> Seq<usize>
    decreases n,
{
    if n == 0 {
        s
    } else {
        rotate_left_one(iter_rotate(s, (n - 1) as nat))
    }
}

/// Rotating a non-empty queue once moves the head to the back and keeps the
/// length; rotating `n` times is the same as rotating once by `n` modulo
/// the length, so after `n` turns the head is the combatant at index
/// `n % len` of the starting order.
pub proof fn lemma_iter_rotate(s: Seq<usize>, n: nat)
    requires
        s.len() > 0,
    ensures
        iter_rotate(s, n) == rotate_left_by(s, n as int % s.len() as int),
        iter_rotate(s, n).len() == s.len(),
        iter_rotate(s, n)[0] == s[n as int % s.len() as int],
    decreases n,
{
    let len = s.len() as int;
    vstd::arithmetic::div_mod::lemma_mod_division_less_than_divisor(n as int, len);
    if n == 0 {
        vstd::arithmetic::div_mod::lemma_small_mod(0, len as nat);
        assert(rotate_left_by(s, 0) =~= s);
    } else {
        lemma_iter_rotate(s, (n - 1) as nat);
        let k = (n - 1) as int % len;
        vstd::arithmetic::div_mod::lemma_mod_division_less_than_divisor(n - 1, len);
        assert((k + 1) % len == n as int % len) by {
            vstd::arithmetic::div_mod::lemma_add_mod_noop(n - 1, 1, len);
            vstd::arithmetic::div_mod::lemma_mod_division_less_than_divisor(1, len);
            if len == 1 {
                vstd::arithmetic::div_mod::lemma_mod_self_0(len);
            } else {
                vstd::arithmetic::div_mod::lemma_small_mod(1, len as nat);
            }
        }
        if k + 1 < len {
            vstd::arithmetic::div_mod::lemma_small_mod((k + 1) as nat, len as nat);
            assert(rotate_left_one(rotate_left_by(s, k)) =~= rotate_left_by(s, k + 1));
        } else {
            vstd::arithmetic::div_mod::lemma_mod_self_0(len);
            assert(rotate_left_one(rotate_left_by(s, k)) =~= rotate_left_by(s, 0));
            assert(rotate_left_by(s, 0) =~= s);
        }
    }
}

impl BattleQueue {
    /// The combatant whose turn it is.
    pub fn get_current(&self) -> (r: usize)
        requires
            self.queue@.len() > 0,
        ensures
            r == self.queue@[0],
    {
        self.queue[0]
    }

    /// Moves the head of the queue to its back.
    pub fn rotate(&mut self)
        requires
            old(self).queue@.len() > 0,
        ensures
            final(self).queue@ == rotate_left_one(old(self).queue@),
    {
        let front = self.queue.pop_front().unwrap();
        self.queue.push_back(front);
        proof {
            assert(self.queue@ =~= rotate_left_one(old(self).queue@));
        }
    }
}

/// Whether some combatant of the given group is still alive.
pub open spec fn exists_alive(s: Seq<Combatant>, g: Group) -> bool {
    exists|i: int|
        0 <= i < s.len() && (#[trigger] s[i]).bundle.group == g && s[i].life == LifeState::Alive
}

/// Scans the roster for a living member of the given group.
pub fn any_alive(combatants: &Vec<Combatant>, g: Group) -> (r: bool)
    ensures
        r == exists_alive(combatants@, g),
{
    let n: usize = combatants.len();
    let mut i: usize = 0;
    while i < n
        invariant
            n == combatants@.len(),
            0 <= i <= n,
            forall|j: int|
                0 <= j < i ==> !((#[trigger] combatants@[j]).bundle.group == g && combatants@[j].life
                    == LifeState::Alive),
        decreases n - i,
    {
        let is_g = match (combatants[i].bundle.group, g) {
            (Group::Player, Group::Player) => true,
            (Group::Enemy, Group::Enemy) => true,
            _ => false,
        };
        let alive = match combatants[i].life {
            LifeState::Alive => true,
            LifeState::Dead => false,
        };
        if is_g && alive {
            return true;
        }
        i = i + 1;
    }
    false
}

/// What a lifecycle step hands back to the shell: log lines, and the
/// battle's resolution once it ends.
#[derive(Debug)]
pub struct LifecycleOutcome {
    pub log: Vec<BattleLogEvent>,
    pub resolution: Option<BattleResolution>,
}

/// Applies one lifecycle event to the battle.
///
/// A death marks the combatant dead and, for an enemy, logs its defeat. An
/// end of turn first checks the battle's termination: with no enemy left
/// alive the players win, with no player left alive the enemies win, and in
/// either case the battle ends. Otherwise the queue rotates and the new
/// head's group decides who chooses the next action.
#[verifier::loop_isolation(false)]
pub fn handle_lifecycle_event(
    event: &BattleLifecycleEvent,
    combatants: &mut Vec<Combatant>,
    queue: &mut BattleQueue,
    state: &mut BattleState,
) -> (out: LifecycleOutcome)
    requires
        match *event {
            BattleLifecycleEvent::CharacterDied(c) => c < old(combatants)@.len(),
            BattleLifecycleEvent::EndTurn => old(queue).queue@.len() > 0 && forall|i: int|
                0 <= i < old(queue).queue@.len() ==> (#[trigger] old(queue).queue@[i])
                    < old(combatants)@.len(),
        },
    ensures
        match *event {
            BattleLifecycleEvent::CharacterDied(c) => {
                &&& final(combatants)@.len() == old(combatants)@.len()
                &&& final(combatants)@[c as int].bundle == old(combatants)@[c as int].bundle
                &&& final(combatants)@[c as int].life == LifeState::Dead
                &&& forall|i: int|
                    0 <= i < old(combatants)@.len() && i != c ==> final(combatants)@[i] == old(
                        combatants,
                    )@[i]
                &&& final(queue).queue@ == old(queue).queue@
                &&& *final(state) == *old(state)
                &&& out.resolution is None
                &&& if old(combatants)@[c as int].bundle.group == Group::Enemy {
                    out.log@.len() == 1 && out.log@[0].message@ == old(
                        combatants,
                    )@[c as int].bundle.name.0@ + " defeated!"@
                } else {
                    out.log@.len() == 0
                }
            },
            BattleLifecycleEvent::EndTurn => {
                &&& final(combatants)@ == old(combatants)@
                &&& out.log@.len() == 0
                &&& if !exists_alive(old(combatants)@, Group::Enemy) {
                    &&& out.resolution == Option::Some(BattleResolution { winner: Group::Player })
                    &&& *final(state) == BattleState::BattleEnd
                    &&& final(queue).queue@ == old(queue).queue@
                } else if !exists_alive(old(combatants)@, Group::Player) {
                    &&& out.resolution == Option::Some(BattleResolution { winner: Group::Enemy })
                    &&& *final(state) == BattleState::BattleEnd
                    &&& final(queue).queue@ == old(queue).queue@
                } else {
                    &&& out.resolution is None
                    &&& final(queue).queue@ == rotate_left_one(old(queue).queue@)
                    &&& *final(state) == (if final(combatants)@[final(queue).queue@[0] as int].bundle.group == Group::Player {
                        BattleState::AbilityChoosingPlayer
                    } else {
                        BattleState::AbilityCastingEnemy
                    })
                }
            },
        },
{
    let mut log: Vec<BattleLogEvent> = Vec::new();
    let mut resolution: Option<BattleResolution> = Option::None;
    match event {
        BattleLifecycleEvent::CharacterDied(c) => {
            let mut comb = combatants.remove(*c);
            comb.life = LifeState::Dead;
            let is_enemy = match comb.bundle.group {
                Group::Enemy => true,
                Group::Player => false,
            };
            if is_enemy {
                let mut message = comb.bundle.name.0.clone();
                message.append(" defeated!");
                log.push(BattleLogEvent { message });
            }
            combatants.insert(*c, comb);
            proof {
                assert(combatants@ =~= old(combatants)@.update(
                    *c as int,
                    (Combatant {
                        bundle: old(combatants)@[*c as int].bundle,
                        life: LifeState::Dead,
                    }),
                ));
            }
        },
        BattleLifecycleEvent::EndTurn => {
            if !any_alive(combatants, Group::Enemy) {
                resolution = Option::Some(BattleResolution { winner: Group::Player });
                *state = BattleState::BattleEnd;
            } else if !any_alive(combatants, Group::Player) {
                resolution = Option::Some(BattleResolution { winner: Group::Enemy });
                *state = BattleState::BattleEnd;
            } else {
                queue.rotate();
                let current = queue.get_current();
                let group = combatants[current].bundle.group;
                match group {
                    Group::Player => {
                        *state = BattleState::AbilityChoosingPlayer;
                    },
                    Group::Enemy => {
                        *state = BattleState::AbilityCastingEnemy;
                    },
                }
            }
        },
    }
    LifecycleOutcome { log, resolution }
}

/// Keeps only the player characters, as the roster is reduced after a
/// battle; order among the kept entries is preserved.
pub fn cleanup_battle(combatants: &mut Vec<Combatant>)
    ensures
        final(combatants)@ == old(combatants)@.filter(
            |comb: Combatant| comb.bundle.group == Group::Player,
        ),
{
    let n: usize = combatants.len();
    let mut out: Vec<Combatant> = Vec::new();
    let mut i: usize = 0;
    proof {
        assert(old(combatants)@.take(0).filter(
            |comb: Combatant| comb.bundle.group == Group::Player,
        ) =~= Seq::<Combatant>::empty()) by {
            reveal(Seq::filter);
        }
        assert(combatants@ =~= old(combatants)@.skip(0));
    }
    while i < n
        invariant
            n == old(combatants)@.len(),
            0 <= i <= n,
            combatants@ == old(combatants)@.skip(i as int),
            out@ == old(combatants)@.take(i as int).filter(
                |comb: Combatant| comb.bundle.group == Group::Player,
            ),
        decreases n - i,
    {
        let comb = combatants.remove(0);
        proof {
            assert(combatants@ =~= old(combatants)@.skip(i + 1));
            assert(comb == old(combatants)@[i as int]);
        }
        let keep = comb.bundle.group == Group::Player;
        let ghost pre_out = out@;
        if keep {
            out.push(comb);
        }
        proof {
            reveal(Seq::filter);
            let pred = |comb: Combatant| comb.bundle.group == Group::Player;
            let taken = old(combatants)@.take(i + 1);
            assert(taken.drop_last() =~= old(combatants)@.take(i as int));
            assert(taken.last() == old(combatants)@[i as int]);
            assert(taken.filter(pred) == if pred(taken.last()) {
                taken.drop_last().filter(pred).push(taken.last())
            } else {
                taken.drop_last().filter(pred)
            });
            if keep {
                assert(out@ =~= pre_out.push(old(combatants)@[i as int]));
            }
        }
        i = i + 1;
    }
    proof {
        assert(old(combatants)@.take(n as int) =~= old(combatants)@);
    }
    *combatants = out;
}

} // verus!
