//! The combatant record: one participant in the tracked encounter, with
//! hit points, initiative, an optional legendary-action budget and the
//! per-turn reaction and concentration flags.

use vstd::prelude::*;

use crate::utils::Hidden;

verus! {

/// A limited-use action budget that refills at the start of its owner's turn.
/// `remaining` never leaves `0 ..= total`.
#[derive(Debug, Clone, Copy, PartialEq, Eq, Structural)]
pub struct LegendaryActions {
    pub total: u32,
    pub remaining: u32,
}

impl LegendaryActions {
    pub open spec fn wf(self) -> bool {
        self.remaining <= self.total
    }
}

/// One participant in the encounter. The name and the hit points each carry
/// their own visibility flag.
#[derive(Debug, Clone)]
pub struct Combatant {
    pub name: Hidden<String>,
    pub hit_points: Hidden<u32>,
    pub initiative: u32,
    pub reaction_free: bool,
    pub concentrating: bool,
    pub legendary_actions: Option<LegendaryActions>,
}

/// The clamped legendary-action count after applying `delta`.
pub open spec fn clamped_remaining(la: LegendaryActions, delta: int) -> int {
    if la.remaining + delta < 0 {
        0
    } else if la.remaining + delta > la.total {
        la.total as int
    } else {
        la.remaining + delta
    }
}

/// `c` after taking `amount` damage: hit points drop, stopping at zero.
pub open spec fn damaged(c: Combatant, amount: u32) -> Combatant {
    Combatant {
        hit_points: Hidden(
            if c.hit_points.0 >= amount {
                (c.hit_points.0 - amount) as u32
            } else {
                0u32
            },
            c.hit_points.1,
        ),
        ..c
    }
}

/// `c` after healing `amount`: hit points rise with no upper clamp.
pub open spec fn healed(c: Combatant, amount: u32) -> Combatant {
    Combatant { hit_points: Hidden((c.hit_points.0 + amount) as u32, c.hit_points.1), ..c }
}

/// `c` with its remaining legendary actions moved by `delta` and clamped to
/// `0 ..= total`; a combatant without a budget is unchanged.
pub open spec fn legendary_adjusted(c: Combatant, delta: int) -> Combatant {
    match c.legendary_actions {
        None => c,
        Some(la) => Combatant {
            legendary_actions: Some(
                LegendaryActions { total: la.total, remaining: clamped_remaining(la, delta) as u32 },
            ),
            ..c
        },
    }
}

/// `c` at the start of its turn: the reaction comes back and the
/// legendary-action budget refills.
pub open spec fn refreshed(c: Combatant) -> Combatant {
    Combatant {
        reaction_free: true,
        legendary_actions: match c.legendary_actions {
            None => None,
            Some(la) => Some(LegendaryActions { total: la.total, remaining: la.total }),
        },
        ..c
    }
}

/// `c` with the whole record's visibility flipped: both fields take the
/// opposite of the name's current flag.
pub open spec fn hidden_toggled(c: Combatant) -> Combatant {
    Combatant {
        name: Hidden(c.name.0, !c.name.1),
        hit_points: Hidden(c.hit_points.0, !c.name.1),
        ..c
    }
}

/// `c` with the reaction flag flipped.
pub open spec fn reaction_toggled(c: Combatant) -> Combatant {
    Combatant { reaction_free: !c.reaction_free, ..c }
}

/// `c` with the concentration flag flipped.
pub open spec fn concentration_toggled(c: Combatant) -> Combatant {
    Combatant { concentrating: !c.concentrating, ..c }
}

impl Combatant {
    pub open spec fn wf(self) -> bool {
        match self.legendary_actions {
            Some(la) => la.wf(),
            None => true,
        }
    }

    /// A freshly added combatant: no legendary actions, no free reaction yet,
    /// not concentrating; the single `hidden` flag covers name and hit points
    /// alike.
    pub fn new(name: String, hit_points: u32, initiative: u32, hidden: bool) -> (r: Self)
        ensures
            r.name.0@ == name@,
            r.name.1 == hidden,
            r.hit_points == (Hidden(hit_points, hidden)),
            r.initiative == initiative,
            r.reaction_free == false,
            r.concentrating == false,
            r.legendary_actions is None,
            r.wf(),
    {
        Combatant {
            name: Hidden(name, hidden),
            hit_points: Hidden(hit_points, hidden),
            initiative,
            reaction_free: false,
            concentrating: false,
            legendary_actions: None,
        }
    }

    /// Subtracts `amount` from the hit points, stopping at zero. Returns
    /// whether the blow landed on a concentrating combatant, so the caller
    /// can raise the concentration-check cue.
    pub fn apply_damage(&mut self, amount: u32) -> (concentration_hit: bool)
        ensures
            *final(self) == damaged(*old(self), amount),
            concentration_hit == old(self).concentrating,
    {
        self.hit_points.0 = self.hit_points.0.saturating_sub(amount);
        self.concentrating
    }

    /// Adds `amount` to the hit points; healing past the starting maximum is
    /// allowed by design, so there is no upper clamp.
    pub fn apply_heal(&mut self, amount: u32)
        requires
            old(self).hit_points.0 + amount <= u32::MAX,
        ensures
            *final(self) == healed(*old(self), amount),
    {
        self.hit_points.0 = self.hit_points.0 + amount;
    }

    /// Moves the remaining legendary-action count by `delta`, clamped to
    /// `0 ..= total`. Returns false, changing nothing, for a combatant with
    /// no legendary-action budget.
    pub fn adjust_legendary(&mut self, delta: i32) -> (had_budget: bool)
        requires
            old(self).wf(),
        ensures
            *final(self) == legendary_adjusted(*old(self), delta as int),
            final(self).wf(),
            had_budget == (old(self).legendary_actions is Some),
    {
        match self.legendary_actions {
            None => false,
            Some(la) => {
                let remaining: u32 = if delta >= 0 {
                    let step = delta as u32;
                    if step > la.total - la.remaining {
                        la.total
                    } else {
                        la.remaining + step
                    }
                } else {
                    let step: u32 = if delta == i32::MIN {
                        0x8000_0000
                    } else {
                        (-delta) as u32
                    };
                    if step > la.remaining {
                        0
                    } else {
                        la.remaining - step
                    }
                };
                self.legendary_actions = Some(
                    LegendaryActions { total: la.total, remaining },
                );
                true
            }
        }
    }

    /// Grants a legendary-action budget of `total`, starting full, or removes
    /// the budget when `total` is zero.
    pub fn set_legendary_total(&mut self, total: u32)
        ensures
            final(self).legendary_actions == if total == 0 {
                None::<LegendaryActions>
            } else {
                Some(LegendaryActions { total, remaining: total })
            },
            final(self).name == old(self).name,
            final(self).hit_points == old(self).hit_points,
            final(self).initiative == old(self).initiative,
            final(self).reaction_free == old(self).reaction_free,
            final(self).concentrating == old(self).concentrating,
            final(self).wf(),
    {
        if total == 0 {
            self.legendary_actions = None;
        } else {
            self.legendary_actions = Some(LegendaryActions { total, remaining: total });
        }
    }

    /// Flips whether the combatant still has its reaction for this round.
    pub fn toggle_reaction(&mut self)
        ensures
            *final(self) == reaction_toggled(*old(self)),
    {
        self.reaction_free = !self.reaction_free;
    }

    /// Flips the concentration flag.
    pub fn toggle_concentrating(&mut self)
        ensures
            *final(self) == concentration_toggled(*old(self)),
    {
        self.concentrating = !self.concentrating;
    }

    /// Flips the visibility of the whole record: both the name and the hit
    /// points take the opposite of the name's current flag.
    pub fn toggle_hidden(&mut self)
        ensures
            *final(self) == hidden_toggled(*old(self)),
    {
        let shown = !self.name.1;
        self.name.1 = shown;
        self.hit_points.1 = shown;
    }
}

} // verus!
