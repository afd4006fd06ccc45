use initiative_manager::combatant::Combatant;
use initiative_manager::records::{Enemy, Pc};
use initiative_manager::tracker::TurnTracker;
use initiative_manager::utils::Hidden;

fn sample_tracker() -> TurnTracker {
    let mut t = TurnTracker::new();
    let mut dragon = Combatant::new(String::from("dragon"), 200, 18, true);
    dragon.set_legendary_total(3);
    t.insert_entity(dragon);
    t.insert_entity(Combatant::new(String::from("rogue"), 40, 18, false));
    t.insert_entity(Combatant::new(String::from("goblin"), 7, 4, true));
    t
}

#[test]
fn encounter_round_trip_restores_roster() {
    let mut t = sample_tracker();
    // spend part of the budget and move the turn: neither may survive a save
    t.adjust_legendary_at(t.len() - 3, -2);
    t.advance_turn();
    t.advance_turn();

    let records = t.encounter_records();
    let mut fresh = TurnTracker::new();
    fresh.load_encounter(&records);

    assert_eq!(fresh.len(), t.len());
    let mut saved: Vec<(String, u32, u32, Option<u32>, bool)> = Vec::new();
    let mut loaded: Vec<(String, u32, u32, Option<u32>, bool)> = Vec::new();
    for i in 0..t.len() {
        let c = t.entity(i);
        saved.push((
            c.name.0.clone(),
            c.hit_points.0,
            c.initiative,
            c.legendary_actions.map(|la| la.total),
            c.name.1,
        ));
        let l = fresh.entity(i);
        loaded.push((
            l.name.0.clone(),
            l.hit_points.0,
            l.initiative,
            l.legendary_actions.map(|la| la.total),
            l.name.1,
        ));
        // the loaded budget is full again and the per-turn flags fresh
        if let Some(la) = l.legendary_actions {
            assert_eq!(la.remaining, la.total);
        }
        assert!(!l.reaction_free);
        assert!(!l.concentrating);
    }
    saved.sort();
    loaded.sort();
    assert_eq!(saved, loaded);
    // the turn pointer still points at the record that was loaded first,
    // wherever later tied insertions pushed it
    assert_eq!(fresh.entity(fresh.current_turn()).name.0, records[0].name.0);
}

#[test]
fn enemy_record_loads_with_full_budget() {
    let e = Enemy {
        name: Hidden(String::from("lich"), true),
        hp: Hidden(99, true),
        legendary_actions: Some(3),
        initiative: 20,
    };
    let c = e.to_combatant();
    assert_eq!(c.name.0, "lich");
    assert!(c.name.1);
    assert_eq!(c.hit_points.0, 99);
    assert!(c.hit_points.1);
    assert_eq!(c.initiative, 20);
    let la = c.legendary_actions.unwrap();
    assert_eq!((la.total, la.remaining), (3, 3));
    assert!(!c.reaction_free);
    assert!(!c.concentrating);
}

#[test]
fn party_records_keep_name_and_hp_only() {
    let t = sample_tracker();
    let records = t.party_records();
    assert_eq!(records.len(), 3);
    for i in 0..t.len() {
        assert_eq!(records[i].name, t.entity(i).name.0);
        assert_eq!(records[i].hp, t.entity(i).hit_points.0);
    }
}

#[test]
fn party_loads_with_fresh_initiatives() {
    let records = vec![
        Pc { name: String::from("fighter"), hp: 30 },
        Pc { name: String::from("wizard"), hp: 18 },
    ];
    let initiatives = vec![5u32, 12u32];
    let mut t = TurnTracker::new();
    t.load_party(&records, &initiatives);
    assert_eq!(t.len(), 2);
    assert_eq!(t.entity(0).name.0, "wizard");
    assert_eq!(t.entity(0).initiative, 12);
    assert_eq!(t.entity(1).name.0, "fighter");
    assert_eq!(t.entity(1).initiative, 5);
    assert!(!t.entity(0).name.1);
    assert_eq!(t.entity(0).legendary_actions, None);
}

#[test]
fn loading_into_running_encounter_keeps_turn_identity() {
    let mut t = TurnTracker::new();
    t.insert_entity(Combatant::new(String::from("A"), 10, 10, false));
    t.insert_entity(Combatant::new(String::from("B"), 10, 2, false));
    t.advance_turn();
    assert_eq!(t.entity(t.current_turn()).name.0, "B");
    let records = vec![Enemy {
        name: Hidden(String::from("ogre"), false),
        hp: Hidden(59, false),
        legendary_actions: None,
        initiative: 7,
    }];
    t.load_encounter(&records);
    assert_eq!(t.len(), 3);
    // the newcomer lands above B, so B's turn marker moved with it
    assert_eq!(t.entity(t.current_turn()).name.0, "B");
}
