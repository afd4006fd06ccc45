//! The turn tracker: a combatant list kept sorted by initiative (highest
//! first) together with a rotating index that says whose turn it is. Every
//! operation keeps the order invariant and keeps the turn pointer on a valid
//! position — or on zero when the list is empty.

use vstd::prelude::*;

use crate::combatant::{
    concentration_toggled, damaged, healed, hidden_toggled, legendary_adjusted,
    reaction_toggled, refreshed, Combatant,
};

verus! {

/// Initiative order: never increasing from the top of the list down.
pub open spec fn sorted_by_initiative(s: Seq<Combatant>) -> bool {
    forall|i: int, j: int|
        0 <= i <= j < s.len() ==> s[i].initiative >= s[j].initiative
}

/// Where a combatant with initiative `init` enters the list: the first
/// position holding an initiative no greater than `init`, so that a newcomer
/// stands immediately before every combatant it ties with.
pub open spec fn insertion_point(s: Seq<Combatant>, init: u32) -> int
    decreases s.len(),
{
    if s.len() == 0 {
        0
    } else if s[0].initiative <= init {
        0
    } else {
        1 + insertion_point(s.skip(1), init)
    }
}

/// The turn pointer after one step forward.
pub open spec fn next_turn_index(turn: int, n: int) -> int {
    if n == 0 {
        0
    } else {
        (turn + 1) % n
    }
}

/// The turn pointer after one step back.
pub open spec fn prev_turn_index(turn: int, n: int) -> int {
    if n == 0 {
        0
    } else if turn == 0 {
        n - 1
    } else {
        turn - 1
    }
}

/// The turn pointer after inserting at position `p` into a list of length
/// `n`: a newcomer at or before the acting combatant shifts it one to the
/// right; into an empty list, the pointer stays on the single new entry.
pub open spec fn turn_after_insert(turn: int, p: int, n: int) -> int {
    if n == 0 {
        0
    } else if p <= turn {
        turn + 1
    } else {
        turn
    }
}

/// The turn pointer after removing position `i` from a list of length `n`:
/// a removal before the acting combatant shifts it left; removing the acting
/// combatant passes the turn to whoever slides into its slot, wrapping to
/// the top when it was last.
pub open spec fn turn_after_remove(turn: int, i: int, n: int) -> int {
    if i < turn {
        turn - 1
    } else if turn < n - 1 {
        turn
    } else {
        0
    }
}

pub proof fn lemma_insertion_point_props(s: Seq<Combatant>, init: u32)
    ensures
        0 <= insertion_point(s, init) <= s.len(),
        forall|j: int| 0 <= j < insertion_point(s, init) ==> s[j].initiative > init,
        insertion_point(s, init) < s.len() ==> s[insertion_point(s, init)].initiative <= init,
    decreases s.len(),
{
    if s.len() == 0 {
    } else if s[0].initiative <= init {
    } else {
        lemma_insertion_point_props(s.skip(1), init);
        assert forall|j: int| 0 <= j < insertion_point(s, init) implies s[j].initiative
            > init by {
            if j > 0 {
                assert(s.skip(1)[j - 1] == s[j]);
            }
        }
        if insertion_point(s, init) < s.len() {
            assert(s.skip(1)[insertion_point(s.skip(1), init)] == s[insertion_point(s, init)]);
        }
    }
}

/// The first-fit position is the only one with nothing but strictly greater
/// initiatives before it and nothing greater at it.
pub proof fn lemma_insertion_point_unique(s: Seq<Combatant>, init: u32, p: int)
    requires
        0 <= p <= s.len(),
        forall|j: int| 0 <= j < p ==> s[j].initiative > init,
        p < s.len() ==> s[p].initiative <= init,
    ensures
        p == insertion_point(s, init),
{
    lemma_insertion_point_props(s, init);
    let ip = insertion_point(s, init);
    if p < ip {
        assert(s[p].initiative > init);
    } else if ip < p {
        assert(s[ip].initiative > init);
    }
}

/// Inserting at the first-fit position keeps the list sorted.
pub proof fn lemma_insert_preserves_sorted(s: Seq<Combatant>, e: Combatant)
    requires
        sorted_by_initiative(s),
    ensures
        sorted_by_initiative(s.insert(insertion_point(s, e.initiative), e)),
{
    let p = insertion_point(s, e.initiative);
    lemma_insertion_point_props(s, e.initiative);
    s.insert_ensures(p, e);
    let t = s.insert(p, e);
    assert forall|i: int, j: int| 0 <= i <= j < t.len() implies t[i].initiative
        >= t[j].initiative by {
        if i < p && j < p {
        } else if i == p && j == p {
        } else if i < p && j == p {
            assert(t[i] == s[i]);
        } else if i < p && j > p {
            assert(t[i] == s[i]);
            assert(t[j] == s[j - 1]);
        } else if i == p && j > p {
            assert(t[j] == s[j - 1]);
        } else {
            assert(t[i] == s[i - 1]);
            assert(t[j] == s[j - 1]);
        }
    }
}

/// A tie-break placement law: a newcomer's position is bounded by the block
/// of equal initiatives — everything before it is strictly greater, and if
/// any combatant ties with the newcomer, the position is exactly the first
/// such combatant's, so the newcomer stands immediately before the whole
/// block of its ties.
pub proof fn lemma_tie_policy(s: Seq<Combatant>, init: u32, k: int)
    requires
        sorted_by_initiative(s),
        0 <= k < s.len(),
        s[k].initiative == init,
    ensures
        insertion_point(s, init) <= k,
        s[insertion_point(s, init)].initiative == init,
        forall|j: int| 0 <= j < insertion_point(s, init) ==> s[j].initiative > init,
{
    lemma_insertion_point_props(s, init);
    let p = insertion_point(s, init);
    if p > k {
        assert(s[k].initiative > init);
    }
}

/// The turn pointer after `k` forward steps.
pub open spec fn advance_times(turn: int, k: nat, n: int) -> int
    decreases k,
{
    if k == 0 {
        turn
    } else {
        advance_times(next_turn_index(turn, n), (k - 1) as nat, n)
    }
}

proof fn lemma_advance_times_mod(turn: int, k: nat, n: int)
    requires
        0 < n,
        0 <= turn < n,
    ensures
        advance_times(turn, k, n) == (turn + k) % n,
    decreases k,
{
    if k == 0 {
        vstd::arithmetic::div_mod::lemma_small_mod(turn as nat, n as nat);
    } else {
        let t1 = next_turn_index(turn, n);
        vstd::arithmetic::div_mod::lemma_mod_bound(turn + 1, n);
        lemma_advance_times_mod(t1, (k - 1) as nat, n);
        if turn + 1 == n {
            vstd::arithmetic::div_mod::lemma_mod_self_0(n);
            assert(t1 == 0);
            vstd::arithmetic::div_mod::lemma_mod_multiples_vanish(1, k - 1, n);
            assert((n * 1 + (k - 1)) % n == (k - 1) % n);
            assert(turn + k == n * 1 + (k - 1));
        } else {
            vstd::arithmetic::div_mod::lemma_small_mod((turn + 1) as nat, n as nat);
            assert(t1 == turn + 1);
        }
    }
}

/// Round-robin law: stepping forward once per combatant walks the whole
/// order and comes back to where it started.
pub proof fn lemma_advance_wraps(turn: int, n: int)
    requires
        0 < n,
        0 <= turn < n,
    ensures
        advance_times(turn, n as nat, n) == turn,
{
    lemma_advance_times_mod(turn, n as nat, n);
    vstd::arithmetic::div_mod::lemma_mod_multiples_vanish(1, turn, n);
    assert((n * 1 + turn) % n == turn % n);
    vstd::arithmetic::div_mod::lemma_small_mod(turn as nat, n as nat);
}

/// The combatant list and turn pointer after one insertion.
pub open spec fn inserted(s: Seq<Combatant>, turn: int, e: Combatant) -> (Seq<Combatant>, int) {
    (
        s.insert(insertion_point(s, e.initiative), e),
        turn_after_insert(turn, insertion_point(s, e.initiative), s.len() as int),
    )
}

/// The combatant list and turn pointer after inserting each element of `es`
/// in order.
pub open spec fn inserted_all(s: Seq<Combatant>, turn: int, es: Seq<Combatant>) -> (
    Seq<Combatant>,
    int,
)
    decreases es.len(),
{
    if es.len() == 0 {
        (s, turn)
    } else {
        let step = inserted(s, turn, es[0]);
        inserted_all(step.0, step.1, es.skip(1))
    }
}

/// Sort-invariant law: starting from a sorted list — the empty list
/// included — any sequence of insertions leaves the list sorted.
pub proof fn lemma_sort_invariant(s: Seq<Combatant>, turn: int, es: Seq<Combatant>)
    requires
        sorted_by_initiative(s),
    ensures
        sorted_by_initiative(inserted_all(s, turn, es).0),
    decreases es.len(),
{
    if es.len() == 0 {
    } else {
        lemma_insert_preserves_sorted(s, es[0]);
        let step = inserted(s, turn, es[0]);
        lemma_sort_invariant(step.0, step.1, es.skip(1));
    }
}

/// The tracked encounter: combatants sorted by initiative, and the index of
/// the one whose turn it is.
pub struct TurnTracker {
    roster: Vec<Combatant>,
    turn: usize,
}

impl TurnTracker {
    /// The combatants in initiative order.
    pub closed spec fn entities(&self) -> Seq<Combatant> {
        self.roster@
    }

    /// Whose turn it is, as a position in `entities()`.
    pub closed spec fn turn_index(&self) -> int {
        self.turn as int
    }

    /// The tracker's invariant: the list is sorted, every combatant is well
    /// formed, and the turn pointer is a valid position (zero when empty).
    pub open spec fn wf(&self) -> bool {
        &&& sorted_by_initiative(self.entities())
        &&& forall|i: int| 0 <= i < self.entities().len() ==> self.entities()[i].wf()
        &&& if self.entities().len() == 0 {
            self.turn_index() == 0
        } else {
            0 <= self.turn_index() < self.entities().len()
        }
    }

    pub fn new() -> (r: Self)
        ensures
            r.wf(),
            r.entities() == Seq::<Combatant>::empty(),
            r.turn_index() == 0,
    {
        let r = TurnTracker { roster: Vec::new(), turn: 0 };
        proof {
            assert(r.entities() =~= Seq::<Combatant>::empty());
        }
        r
    }

    pub fn len(&self) -> (n: usize)
        ensures
            n == self.entities().len(),
    {
        self.roster.len()
    }

    pub fn current_turn(&self) -> (t: usize)
        ensures
            t as int == self.turn_index(),
    {
        self.turn
    }

    pub fn entity(&self, index: usize) -> (r: &Combatant)
        requires
            index < self.entities().len(),
        ensures
            *r == self.entities()[index as int],
    {
        &self.roster[index]
    }

    /// The roster position shown in display row `offset`: the table is
    /// drawn rotated so that the acting combatant's row comes first.
    pub fn rotated_index(&self, offset: usize) -> (r: usize)
        requires
            self.wf(),
            offset < self.entities().len(),
        ensures
            r as int == (offset + self.turn_index()) % (self.entities().len() as int),
    {
        let n = self.roster.len();
        let r = if offset >= n - self.turn {
            offset - (n - self.turn)
        } else {
            offset + self.turn
        };
        proof {
            let len = n as int;
            if offset >= n - self.turn {
                vstd::arithmetic::div_mod::lemma_mod_multiples_vanish(
                    1,
                    offset + self.turn_index() - len,
                    len,
                );
                vstd::arithmetic::div_mod::lemma_small_mod(
                    (offset + self.turn_index() - len) as nat,
                    len as nat,
                );
            } else {
                vstd::arithmetic::div_mod::lemma_small_mod(
                    (offset + self.turn_index()) as nat,
                    len as nat,
                );
            }
        }
        r
    }

    /// Inserts a combatant at the first position whose initiative does not
    /// beat the newcomer's, moving the turn pointer right when the insertion
    /// lands at or before it.
    pub fn insert_entity(&mut self, e: Combatant)
        requires
            old(self).wf(),
            e.wf(),
            old(self).entities().len() < usize::MAX,
        ensures
            final(self).wf(),
            (final(self).entities(), final(self).turn_index()) == inserted(
                old(self).entities(),
                old(self).turn_index(),
                e,
            ),
            final(self).entities().len() == old(self).entities().len() + 1,
    {
        let ghost s = self.roster@;
        let n = self.roster.len();
        let mut idx: usize = 0;
        while idx < n && self.roster[idx].initiative > e.initiative
            invariant
                n == s.len(),
                s == self.roster@,
                0 <= idx <= n,
                forall|j: int| 0 <= j < idx ==> s[j].initiative > e.initiative,
            decreases n - idx,
        {
            idx += 1;
        }
        proof {
            lemma_insertion_point_unique(s, e.initiative, idx as int);
            lemma_insert_preserves_sorted(s, e);
            s.insert_ensures(idx as int, e);
        }
        self.roster.insert(idx, e);
        if n == 0 {
            // the single new entry is position 0, where the pointer already is
        } else if idx <= self.turn {
            self.turn += 1;
        }
    }

    /// Removes the combatant at `index`. A removal before the acting
    /// combatant shifts the pointer left; removing the acting combatant
    /// passes the turn to whoever slides into the slot, wrapping to the top
    /// when it was the last position.
    pub fn remove_entity(&mut self, index: usize)
        requires
            old(self).wf(),
            index < old(self).entities().len(),
        ensures
            final(self).wf(),
            final(self).entities() == old(self).entities().remove(index as int),
            final(self).turn_index() == turn_after_remove(
                old(self).turn_index(),
                index as int,
                old(self).entities().len() as int,
            ),
    {
        let ghost s = self.roster@;
        self.roster.remove(index);
        proof {
            s.remove_ensures(index as int);
        }
        if index < self.turn {
            self.turn -= 1;
        } else if self.turn >= self.roster.len() {
            self.turn = 0;
        }
    }

    /// Whether the combatant at `index` may trade places with the one above
    /// it: true exactly when they tie on initiative.
    pub fn movable_up(&self, index: usize) -> (r: bool)
        requires
            index < self.entities().len(),
        ensures
            r == (index > 0 && self.entities()[index as int - 1].initiative
                == self.entities()[index as int].initiative),
    {
        index > 0 && self.roster[index - 1].initiative == self.roster[index].initiative
    }

    /// Whether the combatant at `index` may trade places with the one below
    /// it: true exactly when they tie on initiative.
    pub fn movable_down(&self, index: usize) -> (r: bool)
        requires
            index < self.entities().len(),
        ensures
            r == (index + 1 < self.entities().len() && self.entities()[index as int].initiative
                == self.entities()[index as int + 1].initiative),
    {
        let n = self.roster.len();
        n > 0 && index < n - 1 && self.roster[index].initiative
            == self.roster[index + 1].initiative
    }

    /// Swaps the combatant at `index` with its neighbour above. Only tied
    /// neighbours may swap — that is what keeps manual reordering from
    /// breaking the sort invariant — and the turn pointer stays on its
    /// position, now tracking whoever moved into that slot.
    pub fn move_up(&mut self, index: usize)
        requires
            old(self).wf(),
            0 < index < old(self).entities().len(),
            old(self).entities()[index as int - 1].initiative == old(self).entities()[index as int].initiative,
        ensures
            final(self).wf(),
            final(self).entities() == old(self).entities().update(
                index as int - 1,
                old(self).entities()[index as int],
            ).update(index as int, old(self).entities()[index as int - 1]),
            final(self).turn_index() == old(self).turn_index(),
    {
        let ghost s = self.roster@;
        let moved = self.roster.remove(index);
        proof {
            s.remove_ensures(index as int);
            s.remove(index as int).insert_ensures(index as int - 1, moved);
        }
        self.roster.insert(index - 1, moved);
        proof {
            let t = self.roster@;
            assert(t =~= s.update(index as int - 1, s[index as int]).update(
                index as int,
                s[index as int - 1],
            ));
            assert forall|i: int, j: int| 0 <= i <= j < t.len() implies t[i].initiative
                >= t[j].initiative by {
                assert(s[i].initiative >= s[j].initiative);
            }
        }
    }

    /// Swaps the combatant at `index` with its neighbour below; the same
    /// tie requirement as `move_up`.
    pub fn move_down(&mut self, index: usize)
        requires
            old(self).wf(),
            index + 1 < old(self).entities().len(),
            old(self).entities()[index as int].initiative == old(self).entities()[index as int + 1].initiative,
        ensures
            final(self).wf(),
            final(self).entities() == old(self).entities().update(
                index as int,
                old(self).entities()[index as int + 1],
            ).update(index as int + 1, old(self).entities()[index as int]),
            final(self).turn_index() == old(self).turn_index(),
    {
        let n = self.roster.len();
        assert(index + 1 < n);
        self.move_up(index + 1);
    }

    /// Steps the turn pointer forward, wrapping past the end, and refreshes
    /// the combatant whose turn begins: its reaction comes back and its
    /// legendary-action budget refills. An empty list leaves the pointer at
    /// zero.
    pub fn advance_turn(&mut self)
        requires
            old(self).wf(),
        ensures
            final(self).wf(),
            final(self).turn_index() == next_turn_index(
                old(self).turn_index(),
                old(self).entities().len() as int,
            ),
            old(self).entities().len() == 0 ==> final(self).entities() == old(self).entities(),
            old(self).entities().len() > 0 ==> final(self).entities() == old(self).entities()
                .update(
                final(self).turn_index(),
                refreshed(old(self).entities()[final(self).turn_index()]),
            ),
    {
        let n = self.roster.len();
        if n == 0 {
            return;
        }
        let nt = if self.turn + 1 == n {
            0
        } else {
            self.turn + 1
        };
        proof {
            if self.turn + 1 == n {
                vstd::arithmetic::div_mod::lemma_mod_self_0(n as int);
            } else {
                vstd::arithmetic::div_mod::lemma_small_mod(
                    (self.turn + 1) as nat,
                    n as nat,
                );
            }
        }
        self.turn = nt;
        let ghost s = self.roster@;
        let c = vstd::std_specs::vec::vec_index_mut(&mut self.roster, nt);
        c.reaction_free = true;
        match &mut c.legendary_actions {
            Some(la) => {
                la.remaining = la.total;
            }
            None => {}
        }
        proof {
            let t = self.roster@;
            assert(t == s.update(nt as int, refreshed(s[nt as int])));
            assert forall|i: int, j: int| 0 <= i <= j < t.len() implies t[i].initiative
                >= t[j].initiative by {
                assert(s[i].initiative >= s[j].initiative);
            }
        }
    }

    /// Steps the turn pointer back, wrapping from the top to the bottom.
    /// Going back is a correction, not a fresh turn, so no combatant is
    /// refreshed. An empty list leaves the pointer at zero.
    pub fn retreat_turn(&mut self)
        requires
            old(self).wf(),
        ensures
            final(self).wf(),
            final(self).entities() == old(self).entities(),
            final(self).turn_index() == prev_turn_index(
                old(self).turn_index(),
                old(self).entities().len() as int,
            ),
    {
        let n = self.roster.len();
        if n == 0 {
            return;
        }
        if self.turn == 0 {
            self.turn = n - 1;
        } else {
            self.turn -= 1;
        }
    }

    /// Damages the combatant at `index`; returns whether it was
    /// concentrating, so the caller can raise the concentration-check cue.
    pub fn damage_entity(&mut self, index: usize, amount: u32) -> (concentration_hit: bool)
        requires
            old(self).wf(),
            index < old(self).entities().len(),
        ensures
            final(self).wf(),
            final(self).entities() == old(self).entities().update(
                index as int,
                damaged(old(self).entities()[index as int], amount),
            ),
            final(self).turn_index() == old(self).turn_index(),
            concentration_hit == old(self).entities()[index as int].concentrating,
    {
        let ghost s = self.roster@;
        let c = vstd::std_specs::vec::vec_index_mut(&mut self.roster, index);
        let hit = c.apply_damage(amount);
        proof {
            self.lemma_update_same_initiative(s, index as int);
        }
        hit
    }

    /// Heals the combatant at `index` by `amount`.
    pub fn heal_entity(&mut self, index: usize, amount: u32)
        requires
            old(self).wf(),
            index < old(self).entities().len(),
            old(self).entities()[index as int].hit_points.0 + amount <= u32::MAX,
        ensures
            final(self).wf(),
            final(self).entities() == old(self).entities().update(
                index as int,
                healed(old(self).entities()[index as int], amount),
            ),
            final(self).turn_index() == old(self).turn_index(),
    {
        let ghost s = self.roster@;
        let c = vstd::std_specs::vec::vec_index_mut(&mut self.roster, index);
        c.apply_heal(amount);
        proof {
            self.lemma_update_same_initiative(s, index as int);
        }
    }

    /// Adjusts the legendary-action count of the combatant at `index` by
    /// `delta`, clamped to its budget; returns whether it had one.
    pub fn adjust_legendary_at(&mut self, index: usize, delta: i32) -> (had_budget: bool)
        requires
            old(self).wf(),
            index < old(self).entities().len(),
        ensures
            final(self).wf(),
            final(self).entities() == old(self).entities().update(
                index as int,
                legendary_adjusted(old(self).entities()[index as int], delta as int),
            ),
            final(self).turn_index() == old(self).turn_index(),
            had_budget == (old(self).entities()[index as int].legendary_actions is Some),
    {
        let ghost s = self.roster@;
        let c = vstd::std_specs::vec::vec_index_mut(&mut self.roster, index);
        let had = c.adjust_legendary(delta);
        proof {
            self.lemma_update_same_initiative(s, index as int);
        }
        had
    }

    /// Flips the reaction flag of the combatant at `index`.
    pub fn toggle_reaction_at(&mut self, index: usize)
        requires
            old(self).wf(),
            index < old(self).entities().len(),
        ensures
            final(self).wf(),
            final(self).entities() == old(self).entities().update(
                index as int,
                reaction_toggled(old(self).entities()[index as int]),
            ),
            final(self).turn_index() == old(self).turn_index(),
    {
        let ghost s = self.roster@;
        let c = vstd::std_specs::vec::vec_index_mut(&mut self.roster, index);
        c.toggle_reaction();
        proof {
            self.lemma_update_same_initiative(s, index as int);
        }
    }

    /// Flips the concentration flag of the combatant at `index`.
    pub fn toggle_concentrating_at(&mut self, index: usize)
        requires
            old(self).wf(),
            index < old(self).entities().len(),
        ensures
            final(self).wf(),
            final(self).entities() == old(self).entities().update(
                index as int,
                concentration_toggled(old(self).entities()[index as int]),
            ),
            final(self).turn_index() == old(self).turn_index(),
    {
        let ghost s = self.roster@;
        let c = vstd::std_specs::vec::vec_index_mut(&mut self.roster, index);
        c.toggle_concentrating();
        proof {
            self.lemma_update_same_initiative(s, index as int);
        }
    }

    /// Flips the visibility of the combatant at `index`.
    pub fn toggle_hidden_at(&mut self, index: usize)
        requires
            old(self).wf(),
            index < old(self).entities().len(),
        ensures
            final(self).wf(),
            final(self).entities() == old(self).entities().update(
                index as int,
                hidden_toggled(old(self).entities()[index as int]),
            ),
            final(self).turn_index() == old(self).turn_index(),
    {
        let ghost s = self.roster@;
        let c = vstd::std_specs::vec::vec_index_mut(&mut self.roster, index);
        c.toggle_hidden();
        proof {
            self.lemma_update_same_initiative(s, index as int);
        }
    }

    /// Updating one position with a combatant of the same initiative and
    /// well-formed state preserves the whole invariant.
    proof fn lemma_update_same_initiative(&self, s: Seq<Combatant>, index: int)
        requires
            sorted_by_initiative(s),
            forall|i: int| 0 <= i < s.len() ==> s[i].wf(),
            0 <= index < s.len(),
            self.entities().len() == s.len(),
            forall|i: int| 0 <= i < s.len() && i != index ==> self.entities()[i] == s[i],
            self.entities()[index].initiative == s[index].initiative,
            self.entities()[index].wf(),
        ensures
            sorted_by_initiative(self.entities()),
            forall|i: int| 0 <= i < self.entities().len() ==> self.entities()[i].wf(),
    {
        let t = self.entities();
        assert forall|i: int, j: int| 0 <= i <= j < t.len() implies t[i].initiative
            >= t[j].initiative by {
            assert(s[i].initiative >= s[j].initiative);
        }
        assert forall|i: int| 0 <= i < t.len() implies t[i].wf() by {
            if i != index {
                assert(t[i] == s[i]);
            }
            assert(s[i].wf());
        }
    }
}

} // verus!
