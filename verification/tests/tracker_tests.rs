use initiative_manager::combatant::{Combatant, LegendaryActions};
use initiative_manager::tracker::TurnTracker;

fn named(name: &str, hp: u32, init: u32) -> Combatant {
    Combatant::new(String::from(name), hp, init, false)
}

fn with_legendary(name: &str, hp: u32, init: u32, total: u32) -> Combatant {
    let mut c = named(name, hp, init);
    c.set_legendary_total(total);
    c
}

fn initiatives(t: &TurnTracker) -> Vec<u32> {
    let mut out = Vec::new();
    let mut i = 0;
    while i < t.len() {
        out.push(t.entity(i).initiative);
        i += 1;
    }
    out
}

#[test]
fn insert_keeps_descending_order() {
    let mut t = TurnTracker::new();
    for &init in &[3u32, 17, 9, 9, 25, 1, 9] {
        t.insert_entity(named("x", 10, init));
    }
    let inits = initiatives(&t);
    assert_eq!(inits.len(), 7);
    for w in inits.windows(2) {
        assert!(w[0] >= w[1]);
    }
    assert_eq!(inits, vec![25, 17, 9, 9, 9, 3, 1]);
}

#[test]
fn tie_inserts_before_existing_block() {
    let mut t = TurnTracker::new();
    t.insert_entity(named("first", 10, 9));
    t.insert_entity(named("above", 10, 12));
    t.insert_entity(named("second", 10, 9));
    assert_eq!(t.entity(0).name.0, "above");
    assert_eq!(t.entity(1).name.0, "second");
    assert_eq!(t.entity(2).name.0, "first");
}

#[test]
fn turn_pointer_follows_insert() {
    let mut t = TurnTracker::new();
    t.insert_entity(named("A", 10, 10));
    t.insert_entity(named("B", 10, 8));
    t.advance_turn();
    assert_eq!(t.current_turn(), 1);
    t.insert_entity(named("C", 10, 9));
    assert_eq!(initiatives(&t), vec![10, 9, 8]);
    assert_eq!(t.current_turn(), 2);
    assert_eq!(t.entity(2).name.0, "B");
}

#[test]
fn turn_pointer_follows_remove() {
    let mut t = TurnTracker::new();
    t.insert_entity(named("A", 10, 10));
    t.insert_entity(named("B", 10, 8));
    t.insert_entity(named("C", 10, 5));
    t.advance_turn();
    t.advance_turn();
    assert_eq!(t.current_turn(), 2);
    t.remove_entity(0);
    assert_eq!(t.current_turn(), 1);
    assert_eq!(t.entity(1).name.0, "C");
}

#[test]
fn removing_acting_combatant_passes_turn() {
    let mut t = TurnTracker::new();
    t.insert_entity(named("A", 10, 10));
    t.insert_entity(named("B", 10, 8));
    t.advance_turn();
    assert_eq!(t.current_turn(), 1);
    t.remove_entity(1);
    assert_eq!(t.current_turn(), 0);
}

#[test]
fn removing_last_combatant_resets_turn() {
    let mut t = TurnTracker::new();
    t.insert_entity(named("A", 10, 10));
    t.remove_entity(0);
    assert_eq!(t.len(), 0);
    assert_eq!(t.current_turn(), 0);
    t.advance_turn();
    assert_eq!(t.current_turn(), 0);
}

#[test]
fn advance_wraps_and_refreshes() {
    let mut t = TurnTracker::new();
    t.insert_entity(with_legendary("A", 10, 10, 3));
    t.insert_entity(named("B", 10, 8));
    t.insert_entity(with_legendary("C", 10, 5, 2));
    assert_eq!(t.current_turn(), 0);
    t.adjust_legendary_at(0, -2);
    t.adjust_legendary_at(2, -1);
    let n = t.len();
    for step in 1..=n {
        t.advance_turn();
        let landing = t.current_turn();
        assert_eq!(landing, step % n);
        let c = t.entity(landing);
        assert!(c.reaction_free);
        if let Some(la) = c.legendary_actions {
            assert_eq!(la.remaining, la.total);
        }
    }
    assert_eq!(t.current_turn(), 0);
}

#[test]
fn empty_list_turns_are_safe() {
    let mut t = TurnTracker::new();
    t.advance_turn();
    assert_eq!(t.current_turn(), 0);
    t.retreat_turn();
    assert_eq!(t.current_turn(), 0);
}

#[test]
fn retreat_wraps_backwards() {
    let mut t = TurnTracker::new();
    t.insert_entity(named("A", 10, 10));
    t.insert_entity(named("B", 10, 8));
    t.insert_entity(named("C", 10, 5));
    t.retreat_turn();
    assert_eq!(t.current_turn(), 2);
    t.retreat_turn();
    assert_eq!(t.current_turn(), 1);
}

#[test]
fn damage_saturates_at_zero() {
    let mut t = TurnTracker::new();
    t.insert_entity(named("A", 5, 10));
    t.damage_entity(0, 9);
    assert_eq!(t.entity(0).hit_points.0, 0);
}

#[test]
fn damage_signals_concentration() {
    let mut t = TurnTracker::new();
    t.insert_entity(named("A", 20, 10));
    assert!(!t.damage_entity(0, 3));
    t.toggle_concentrating_at(0);
    assert!(t.damage_entity(0, 3));
    assert_eq!(t.entity(0).hit_points.0, 14);
}

#[test]
fn heal_allows_overheal() {
    let mut t = TurnTracker::new();
    t.insert_entity(named("A", 5, 10));
    t.heal_entity(0, 40);
    assert_eq!(t.entity(0).hit_points.0, 45);
}

#[test]
fn legendary_clamps_at_both_ends() {
    let mut c = with_legendary("A", 10, 10, 3);
    assert_eq!(c.legendary_actions, Some(LegendaryActions { total: 3, remaining: 3 }));
    assert!(c.adjust_legendary(1));
    assert_eq!(c.legendary_actions.unwrap().remaining, 3);
    assert!(c.adjust_legendary(-1));
    assert!(c.adjust_legendary(-1));
    assert!(c.adjust_legendary(-1));
    assert_eq!(c.legendary_actions.unwrap().remaining, 0);
    assert!(c.adjust_legendary(-1));
    assert_eq!(c.legendary_actions.unwrap().remaining, 0);
    assert!(c.adjust_legendary(2));
    assert_eq!(c.legendary_actions.unwrap().remaining, 2);
}

#[test]
fn adjust_without_budget_is_rejected() {
    let mut c = named("A", 10, 10);
    assert!(!c.adjust_legendary(-1));
    assert_eq!(c.legendary_actions, None);
}

#[test]
fn movable_flags_follow_ties() {
    let mut t = TurnTracker::new();
    t.insert_entity(named("A", 10, 12));
    t.insert_entity(named("B", 10, 9));
    t.insert_entity(named("C", 10, 9));
    t.insert_entity(named("D", 10, 4));
    assert!(!t.movable_up(0));
    assert!(!t.movable_down(0));
    assert!(!t.movable_up(1));
    assert!(t.movable_down(1));
    assert!(t.movable_up(2));
    assert!(!t.movable_down(2));
    assert!(!t.movable_up(3));
    assert!(!t.movable_down(3));
}

#[test]
fn move_up_swaps_tied_neighbours() {
    let mut t = TurnTracker::new();
    t.insert_entity(named("A", 10, 9));
    t.insert_entity(named("B", 10, 9));
    assert_eq!(t.entity(0).name.0, "B");
    t.move_up(1);
    assert_eq!(t.entity(0).name.0, "A");
    assert_eq!(t.entity(1).name.0, "B");
    t.move_down(0);
    assert_eq!(t.entity(0).name.0, "B");
}

#[test]
fn toggle_hidden_covers_both_fields() {
    let mut t = TurnTracker::new();
    t.insert_entity(named("A", 10, 9));
    t.toggle_hidden_at(0);
    assert!(t.entity(0).name.1);
    assert!(t.entity(0).hit_points.1);
    t.toggle_hidden_at(0);
    assert!(!t.entity(0).name.1);
    assert!(!t.entity(0).hit_points.1);
}

#[test]
fn toggle_reaction_flips() {
    let mut t = TurnTracker::new();
    t.insert_entity(named("A", 10, 9));
    assert!(!t.entity(0).reaction_free);
    t.toggle_reaction_at(0);
    assert!(t.entity(0).reaction_free);
}

#[test]
fn rotated_index_starts_at_turn() {
    let mut t = TurnTracker::new();
    t.insert_entity(named("A", 10, 10));
    t.insert_entity(named("B", 10, 8));
    t.insert_entity(named("C", 10, 5));
    t.advance_turn();
    assert_eq!(t.rotated_index(0), 1);
    assert_eq!(t.rotated_index(1), 2);
    assert_eq!(t.rotated_index(2), 0);
}
