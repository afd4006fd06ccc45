use initiative_manager::censor::censor_name;
use initiative_manager::display::legendary_actions_display;
use initiative_manager::focus::{next_focus, tab_direction};
use initiative_manager::style::{InitiativeTableBorderStyle, SettingsBarStyle, Style};
use initiative_manager::utils::{Hidden, ListGrammaticallyExt, MakeHidden, Tap, TryRemoveExt};

#[test]
fn try_remove_is_total() {
    let mut v = vec![1, 2, 3];
    assert_eq!(v.try_remove(1), Some(2));
    assert_eq!(v, vec![1, 3]);
    assert_eq!(v.try_remove(5), None);
    assert_eq!(v, vec![1, 3]);
}

#[test]
fn listing_is_grammatical() {
    let none: Vec<String> = vec![];
    assert_eq!(none.list_grammatically(), "");
    let one = vec![String::from("a")];
    assert_eq!(one.list_grammatically(), "a");
    let two = vec![String::from("a"), String::from("b")];
    assert_eq!(two.list_grammatically(), "a and b");
    let three = vec![String::from("a"), String::from("b"), String::from("c")];
    assert_eq!(three.list_grammatically(), "a, b, and c");
}

#[test]
fn tap_threads_values() {
    let x: u32 = 3;
    assert_eq!(x.tap(|v| v + 1), 4);
    assert_eq!(x.tap_if(true, |v| v + 1), 4);
    assert_eq!(x.tap_if(false, |v| v + 1), 3);
    assert_eq!(x.tap_if_some(Some(2u32), |v, d| v + d), 5);
    assert_eq!(x.tap_if_some(None::<u32>, |v, d| v + d), 3);
}

#[test]
fn hidden_wraps_values() {
    let h = String::from("secret").hidden(true);
    assert_eq!(h.0, "secret");
    assert!(h.1);
    let Hidden(value, flag) = 7u32.hidden(false);
    assert_eq!(value, 7);
    assert!(!flag);
}

#[test]
fn censored_name_keeps_the_shape() {
    for _ in 0..50 {
        let censored = censor_name("goblin king");
        let words: Vec<&str> = censored.split(' ').collect();
        assert_eq!(words.len(), 2);
        assert!(words[0].len() == 6 || words[0].len() == 7);
        assert!(words[1].len() == 4 || words[1].len() == 5);
        for w in words {
            assert!(w.chars().all(|c| c.is_ascii_lowercase()));
        }
        let single = censor_name("mimic");
        assert!(single.len() == 5 || single.len() == 6);
        assert_ne!(censor_name(""), "impossible");
    }
}

#[test]
fn focus_cycles_with_wraparound() {
    assert_eq!(next_focus(None, 4, true), None);
    assert_eq!(next_focus(Some(1), 4, true), Some(2));
    assert_eq!(next_focus(Some(3), 4, true), Some(0));
    assert_eq!(next_focus(Some(2), 4, false), Some(1));
    assert_eq!(next_focus(Some(0), 4, false), Some(3));
}

#[test]
fn tab_key_decides_direction() {
    assert_eq!(tab_direction(true, false, false, false), Some(true));
    assert_eq!(tab_direction(true, false, false, true), Some(false));
    assert_eq!(tab_direction(true, true, false, false), None);
    assert_eq!(tab_direction(false, false, false, false), None);
}

#[test]
fn themes_select_their_styles() {
    assert_eq!(Style::default(), Style::Dark);
    assert_eq!(Style::Dark.toggled(), Style::Light);
    assert_eq!(Style::Light.toggled(), Style::Dark);
    assert_eq!(Style::Dark.settings_bar(), SettingsBarStyle::Dark);
    assert_eq!(Style::Light.initiative_table_border(), InitiativeTableBorderStyle::Light);
    assert_eq!(Style::Dark.name(), "Dark");
    let header = Style::Dark.initiative_table(0);
    assert_eq!(header.alt, None);
    assert_eq!(Style::Dark.initiative_table(1).alt, Some(true));
    assert_eq!(Style::Dark.initiative_table(2).alt, Some(false));
}

#[test]
fn legendary_counter_shows_roman_numerals() {
    assert_eq!(legendary_actions_display(1), "I");
    assert_eq!(legendary_actions_display(4), "IV");
    assert_eq!(legendary_actions_display(1984), "MCMLXXXIV");
    assert_eq!(legendary_actions_display(0), "");
    assert_eq!(legendary_actions_display(4000), "");
}
