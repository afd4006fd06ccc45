//! Marker types for the dark theme's style families. The GUI layer maps
//! each to its concrete stylesheet; the library only names them and, for
//! the initiative table, carries the zebra stripe the row falls on.

use vstd::prelude::*;

verus! {

/// An initiative-table row: `None` for the header, otherwise which stripe
/// of the zebra pattern the row falls on.
#[derive(Debug, Clone, Copy)]
pub struct InitiativeTable(pub Option<bool>);

/// The border drawn around the initiative table.
#[derive(Debug, Clone, Copy)]
pub struct InitiativeTableBorder;

/// The default dark container.
#[derive(Debug, Clone, Copy)]
pub struct Container;

/// The dark text-input family.
#[derive(Debug, Clone, Copy)]
pub struct TextInput;

/// The dark scroll-bar family.
#[derive(Debug, Clone, Copy)]
pub struct Scrollable;

/// The dark button family.
#[derive(Debug, Clone, Copy)]
pub struct Button;

/// The dark pick-list family.
#[derive(Debug, Clone, Copy)]
pub struct PickList;

/// The dark checkbox family.
#[derive(Debug, Clone, Copy)]
pub struct Checkbox;

/// The dark slider family.
#[derive(Debug, Clone, Copy)]
pub struct Slider;

/// The dark tab-bar family.
#[derive(Debug, Clone, Copy)]
pub struct Tabs;

/// The buttons that sit in the settings bar.
#[derive(Debug, Clone, Copy)]
pub struct SettingsButton;

/// The container behind the settings bar.
#[derive(Debug, Clone, Copy)]
pub struct SettingsContainer;

/// The buttons that act as tabs.
#[derive(Debug, Clone, Copy)]
pub struct TabButton;

} // verus!
