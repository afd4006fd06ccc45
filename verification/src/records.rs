//! The save records: `Enemy` snapshots a combatant for a named encounter,
//! `Pc` keeps a party member's name and hit points. The turn tracker builds
//! records from its roster on save and inserts fresh combatants from them on
//! load; the storage layer only moves the records to and from disk.

use vstd::multiset::Multiset;
use vstd::prelude::*;
use vstd::seq_lib::to_multiset_insert;

use crate::combatant::{Combatant, LegendaryActions};
use crate::tracker::{inserted, inserted_all, lemma_sort_invariant, sorted_by_initiative, TurnTracker};
use crate::utils::Hidden;

verus! {

/// One saved encounter member: everything a combatant keeps across
/// sessions. The legendary budget is saved as its total alone — loading
/// always starts with a full budget.
#[derive(Debug, Clone)]
pub struct Enemy {
    pub name: Hidden<String>,
    pub hp: Hidden<u32>,
    pub legendary_actions: Option<u32>,
    pub initiative: u32,
}

/// One saved party member: name and hit points only. Initiative is entered
/// fresh when the party is loaded.
#[derive(Debug, Clone)]
pub struct Pc {
    pub name: String,
    pub hp: u32,
}

/// `e` snapshots combatant `c`.
pub open spec fn records_combatant(e: Enemy, c: Combatant) -> bool {
    &&& e.name.0@ == c.name.0@
    &&& e.name.1 == c.name.1
    &&& e.hp.0 == c.hit_points.0
    &&& e.hp.1 == c.hit_points.1
    &&& e.initiative == c.initiative
    &&& e.legendary_actions == match c.legendary_actions {
        Some(la) => Some(la.total),
        None => None::<u32>,
    }
}

/// `c` is the combatant that loading record `e` produces: the same saved
/// fields, the legendary budget starting full, the per-turn flags fresh.
pub open spec fn loads_to(e: Enemy, c: Combatant) -> bool {
    &&& c.name.0@ == e.name.0@
    &&& c.name.1 == e.name.1
    &&& c.hit_points.0 == e.hp.0
    &&& c.hit_points.1 == e.hp.1
    &&& c.initiative == e.initiative
    &&& c.reaction_free == false
    &&& c.concentrating == false
    &&& c.legendary_actions == match e.legendary_actions {
        Some(t) => Some(LegendaryActions { total: t, remaining: t }),
        None => None::<LegendaryActions>,
    }
}

/// `c` is the combatant that loading party record `p` with initiative
/// `init` produces.
pub open spec fn pc_loads_to(p: Pc, init: u32, c: Combatant) -> bool {
    &&& c.name.0@ == p.name@
    &&& c.name.1 == false
    &&& c.hit_points.0 == p.hp
    &&& c.hit_points.1 == false
    &&& c.initiative == init
    &&& c.reaction_free == false
    &&& c.concentrating == false
    &&& c.legendary_actions is None
}

/// `l` reproduces the saved combatant `c` after a save/load round trip:
/// name, hit points, initiative and legendary total survive; the legendary
/// budget is full again and the per-turn flags are fresh, whatever they
/// were when the encounter was saved.
pub open spec fn round_trip_matches(c: Combatant, l: Combatant) -> bool {
    &&& l.name.0@ == c.name.0@
    &&& l.name.1 == c.name.1
    &&& l.hit_points.0 == c.hit_points.0
    &&& l.hit_points.1 == c.hit_points.1
    &&& l.initiative == c.initiative
    &&& l.reaction_free == false
    &&& l.concentrating == false
    &&& l.legendary_actions == match c.legendary_actions {
        Some(la) => Some(LegendaryActions { total: la.total, remaining: la.total }),
        None => None::<LegendaryActions>,
    }
}

impl Enemy {
    /// The fresh combatant this record loads as.
    pub fn to_combatant(&self) -> (c: Combatant)
        ensures
            loads_to(*self, c),
            c.wf(),
    {
        Combatant {
            name: Hidden(self.name.0.clone(), self.name.1),
            hit_points: Hidden(self.hp.0, self.hp.1),
            initiative: self.initiative,
            reaction_free: false,
            concentrating: false,
            legendary_actions: match self.legendary_actions {
                Some(t) => Some(LegendaryActions { total: t, remaining: t }),
                None => None,
            },
        }
    }
}

impl Pc {
    /// The fresh combatant this record loads as, once an initiative has
    /// been entered for it.
    pub fn to_combatant(&self, initiative: u32) -> (c: Combatant)
        ensures
            pc_loads_to(*self, initiative, c),
            c.wf(),
    {
        Combatant::new(self.name.clone(), self.hp, initiative, false)
    }
}

impl TurnTracker {
    /// Snapshots the whole roster as encounter records, in initiative
    /// order.
    pub fn encounter_records(&self) -> (r: Vec<Enemy>)
        ensures
            r@.len() == self.entities().len(),
            forall|i: int|
                0 <= i < r@.len() ==> records_combatant(#[trigger] r@[i], self.entities()[i]),
    {
        let n = self.len();
        let mut out: Vec<Enemy> = Vec::new();
        let mut i: usize = 0;
        while i < n
            invariant
                0 <= i <= n,
                n == self.entities().len(),
                out@.len() == i,
                forall|j: int|
                    0 <= j < i ==> records_combatant(#[trigger] out@[j], self.entities()[j]),
            decreases n - i,
        {
            let c = self.entity(i);
            out.push(
                Enemy {
                    name: Hidden(c.name.0.clone(), c.name.1),
                    hp: Hidden(c.hit_points.0, c.hit_points.1),
                    legendary_actions: match c.legendary_actions {
                        Some(la) => Some(la.total),
                        None => None,
                    },
                    initiative: c.initiative,
                },
            );
            i += 1;
        }
        out
    }

    /// Snapshots the roster as party records: names and hit points.
    pub fn party_records(&self) -> (r: Vec<Pc>)
        ensures
            r@.len() == self.entities().len(),
            forall|i: int|
                0 <= i < r@.len() ==> {
                    &&& (#[trigger] r@[i]).name@ == self.entities()[i].name.0@
                    &&& r@[i].hp == self.entities()[i].hit_points.0
                },
    {
        let n = self.len();
        let mut out: Vec<Pc> = Vec::new();
        let mut i: usize = 0;
        while i < n
            invariant
                0 <= i <= n,
                n == self.entities().len(),
                out@.len() == i,
                forall|j: int|
                    0 <= j < i ==> {
                        &&& (#[trigger] out@[j]).name@ == self.entities()[j].name.0@
                        &&& out@[j].hp == self.entities()[j].hit_points.0
                    },
            decreases n - i,
        {
            let c = self.entity(i);
            out.push(Pc { name: c.name.0.clone(), hp: c.hit_points.0 });
            i += 1;
        }
        out
    }

    /// Loads an encounter: one fresh combatant per record, inserted in
    /// record order, each with a full legendary budget.
    pub fn load_encounter(&mut self, records: &Vec<Enemy>)
        requires
            old(self).wf(),
            old(self).entities().len() + records@.len() <= usize::MAX,
        ensures
            final(self).wf(),
            exists|cs: Seq<Combatant>|
                {
                    &&& cs.len() == records@.len()
                    &&& (forall|i: int| 0 <= i < cs.len() ==> loads_to(records@[i], #[trigger] cs[i]))
                    &&& (final(self).entities(), final(self).turn_index()) == inserted_all(
                        old(self).entities(),
                        old(self).turn_index(),
                        cs,
                    )
                },
    {
        let ghost s0 = self.entities();
        let ghost t0 = self.turn_index();
        let ghost mut gcs: Seq<Combatant> = Seq::empty();
        let n = records.len();
        let mut i: usize = 0;
        while i < n
            invariant
                0 <= i <= n,
                n == records@.len(),
                self.wf(),
                gcs.len() == i,
                forall|j: int| 0 <= j < i ==> loads_to(records@[j], #[trigger] gcs[j]),
                self.entities().len() == s0.len() + i,
                s0.len() + n <= usize::MAX,
                (self.entities(), self.turn_index()) == inserted_all(s0, t0, gcs),
            decreases n - i,
        {
            let c = records[i].to_combatant();
            self.insert_entity(c);
            proof {
                lemma_inserted_all_snoc(s0, t0, gcs, c);
                gcs = gcs.push(c);
            }
            i += 1;
        }
        proof {
            assert(gcs.len() == records@.len() && (forall|j: int|
                0 <= j < gcs.len() ==> loads_to(records@[j], #[trigger] gcs[j])) && (
            final(self).entities(),
            final(self).turn_index(),
            ) == inserted_all(s0, t0, gcs));
        }
    }

    /// Loads a party: one fresh combatant per record, taking the initiative
    /// entered for it, inserted in record order.
    pub fn load_party(&mut self, records: &Vec<Pc>, initiatives: &Vec<u32>)
        requires
            old(self).wf(),
            records@.len() == initiatives@.len(),
            old(self).entities().len() + records@.len() <= usize::MAX,
        ensures
            final(self).wf(),
            exists|cs: Seq<Combatant>|
                {
                    &&& cs.len() == records@.len()
                    &&& (forall|i: int|
                        0 <= i < cs.len() ==> pc_loads_to(
                            records@[i],
                            initiatives@[i],
                            #[trigger] cs[i],
                        ))
                    &&& (final(self).entities(), final(self).turn_index()) == inserted_all(
                        old(self).entities(),
                        old(self).turn_index(),
                        cs,
                    )
                },
    {
        let ghost s0 = self.entities();
        let ghost t0 = self.turn_index();
        let ghost mut gcs: Seq<Combatant> = Seq::empty();
        let n = records.len();
        let mut i: usize = 0;
        while i < n
            invariant
                0 <= i <= n,
                n == records@.len(),
                records@.len() == initiatives@.len(),
                self.wf(),
                gcs.len() == i,
                forall|j: int|
                    0 <= j < i ==> pc_loads_to(records@[j], initiatives@[j], #[trigger] gcs[j]),
                self.entities().len() == s0.len() + i,
                s0.len() + n <= usize::MAX,
                (self.entities(), self.turn_index()) == inserted_all(s0, t0, gcs),
            decreases n - i,
        {
            let c = records[i].to_combatant(initiatives[i]);
            self.insert_entity(c);
            proof {
                lemma_inserted_all_snoc(s0, t0, gcs, c);
                gcs = gcs.push(c);
            }
            i += 1;
        }
        proof {
            assert(gcs.len() == records@.len() && (forall|j: int|
                0 <= j < gcs.len() ==> pc_loads_to(records@[j], initiatives@[j], #[trigger] gcs[j]))
                && (final(self).entities(), final(self).turn_index()) == inserted_all(
                s0,
                t0,
                gcs,
            ));
        }
    }
}

/// Inserting one more combatant after a batch is the same as inserting the
/// extended batch.
pub proof fn lemma_inserted_all_snoc(
    s: Seq<Combatant>,
    turn: int,
    es: Seq<Combatant>,
    e: Combatant,
)
    ensures
        inserted_all(s, turn, es.push(e)) == {
            let mid = inserted_all(s, turn, es);
            inserted(mid.0, mid.1, e)
        },
    decreases es.len(),
{
    if es.len() == 0 {
        assert(es.push(e)[0] == e);
        assert(es.push(e).skip(1) =~= Seq::<Combatant>::empty());
        let step = inserted(s, turn, e);
        assert(inserted_all(step.0, step.1, Seq::<Combatant>::empty()) == (step.0, step.1));
        assert(inserted_all(s, turn, es) == (s, turn));
    } else {
        assert(es.push(e)[0] == es[0]);
        assert(es.push(e).skip(1) =~= es.skip(1).push(e));
        let step = inserted(s, turn, es[0]);
        lemma_inserted_all_snoc(step.0, step.1, es.skip(1), e);
        assert(inserted_all(s, turn, es.push(e)) == inserted_all(
            step.0,
            step.1,
            es.skip(1).push(e),
        ));
        assert(inserted_all(s, turn, es) == inserted_all(step.0, step.1, es.skip(1)));
    }
}

/// Inserting a batch adds exactly its members to the roster, as multisets:
/// nothing is lost, duplicated or invented.
pub proof fn lemma_inserted_all_multiset(s: Seq<Combatant>, turn: int, es: Seq<Combatant>)
    ensures
        inserted_all(s, turn, es).0.to_multiset() == s.to_multiset().add(es.to_multiset()),
    decreases es.len(),
{
    broadcast use vstd::multiset::group_multiset_axioms;

    if es.len() == 0 {
        assert(es.to_multiset() =~= Multiset::<Combatant>::empty()) by {
            es.to_multiset_ensures();
        }
        assert(s.to_multiset().add(es.to_multiset()) =~= s.to_multiset());
    } else {
        let e0 = es[0];
        let p = crate::tracker::insertion_point(s, e0.initiative);
        crate::tracker::lemma_insertion_point_props(s, e0.initiative);
        to_multiset_insert(s, p, e0);
        let step = inserted(s, turn, e0);
        lemma_inserted_all_multiset(step.0, step.1, es.skip(1));
        assert(es =~= seq![e0] + es.skip(1));
        vstd::seq_lib::lemma_multiset_commutative(seq![e0], es.skip(1));
        assert(seq![e0].to_multiset() =~= Multiset::<Combatant>::empty().insert(e0)) by {
            seq![e0].to_multiset_ensures();
            assert(seq![e0].drop_first() =~= Seq::<Combatant>::empty());
        }
        assert(step.0.to_multiset().add(es.skip(1).to_multiset()) =~= s.to_multiset().add(
            es.to_multiset(),
        ));
    }
}

/// Round-trip law: take any roster, snapshot it as encounter records, and
/// load combatants matching those records into any sorted tracker. Then,
/// position by position, each loaded combatant reproduces its saved one —
/// same name, hit points, initiative and legendary total, with the
/// legendary budget full again and the per-turn flags fresh, whatever the
/// saved remaining counts or turn position were — and the loading inserts
/// exactly those combatants, keeping the tracker sorted.
pub proof fn lemma_encounter_round_trip(
    saved: Seq<Combatant>,
    records: Seq<Enemy>,
    loaded: Seq<Combatant>,
    s0: Seq<Combatant>,
    turn0: int,
)
    requires
        records.len() == saved.len(),
        forall|i: int| 0 <= i < records.len() ==> records_combatant(#[trigger] records[i], saved[i]),
        loaded.len() == records.len(),
        forall|i: int| 0 <= i < loaded.len() ==> loads_to(records[i], #[trigger] loaded[i]),
        sorted_by_initiative(s0),
    ensures
        forall|i: int| 0 <= i < saved.len() ==> round_trip_matches(saved[i], #[trigger] loaded[i]),
        inserted_all(s0, turn0, loaded).0.to_multiset() == s0.to_multiset().add(
            loaded.to_multiset(),
        ),
        sorted_by_initiative(inserted_all(s0, turn0, loaded).0),
{
    assert forall|i: int| 0 <= i < saved.len() implies round_trip_matches(
        saved[i],
        #[trigger] loaded[i],
    ) by {
        assert(records_combatant(records[i], saved[i]));
        assert(loads_to(records[i], loaded[i]));
    }
    lemma_inserted_all_multiset(s0, turn0, loaded);
    lemma_sort_invariant(s0, turn0, loaded);
}

} // verus!
