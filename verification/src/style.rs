//! The two visual themes and the per-widget style selection. The library
//! only decides *which* style family each part of the display uses — the
//! zebra striping of the initiative table included — and leaves colours and
//! geometry to the GUI layer, which maps each marker type here to its own
//! stylesheet.

use vstd::prelude::*;

pub mod dark;
pub mod light;

verus! {

/// The application-wide theme.
#[derive(Debug, Clone, Copy, PartialEq, Eq, Structural)]
pub enum Style {
    Light,
    Dark,
}

/// The theme of the settings bar along the bottom edge.
#[derive(Debug, Clone, Copy, PartialEq, Eq, Structural)]
pub enum SettingsBarStyle {
    Light,
    Dark,
}

/// The theme of the border drawn around the initiative table.
#[derive(Debug, Clone, Copy, PartialEq, Eq, Structural)]
pub enum InitiativeTableBorderStyle {
    Light,
    Dark,
}

/// The style of one initiative-table row: the theme, plus which stripe of
/// the zebra pattern the row falls on — `None` for the header row.
#[derive(Debug, Clone, Copy, PartialEq, Eq, Structural)]
pub struct InitiativeTableStyle {
    pub style: Style,
    pub alt: Option<bool>,
}

impl Style {
    /// The settings-bar style this theme selects.
    pub fn settings_bar(self) -> (r: SettingsBarStyle)
        ensures
            r == match self {
                Style::Light => SettingsBarStyle::Light,
                Style::Dark => SettingsBarStyle::Dark,
            },
    {
        match self {
            Style::Light => SettingsBarStyle::Light,
            Style::Dark => SettingsBarStyle::Dark,
        }
    }

    /// The style of initiative-table row `n`: row zero is the header, and
    /// the body rows alternate stripes.
    pub fn initiative_table(self, n: usize) -> (r: InitiativeTableStyle)
        ensures
            r.style == self,
            r.alt == if n == 0 {
                None::<bool>
            } else {
                Some(n % 2 == 1)
            },
    {
        InitiativeTableStyle {
            style: self,
            alt: if n == 0 {
                None
            } else {
                Some(n % 2 == 1)
            },
        }
    }

    /// The table-border style this theme selects.
    pub fn initiative_table_border(self) -> (r: InitiativeTableBorderStyle)
        ensures
            r == match self {
                Style::Light => InitiativeTableBorderStyle::Light,
                Style::Dark => InitiativeTableBorderStyle::Dark,
            },
    {
        match self {
            Style::Light => InitiativeTableBorderStyle::Light,
            Style::Dark => InitiativeTableBorderStyle::Dark,
        }
    }

    /// The other theme: toggling switches between light and dark.
    pub fn toggled(self) -> (r: Style)
        ensures
            r == match self {
                Style::Light => Style::Dark,
                Style::Dark => Style::Light,
            },
            r != self,
    {
        match self {
            Style::Light => Style::Dark,
            Style::Dark => Style::Light,
        }
    }

    /// The theme's display name.
    pub fn name(self) -> (r: &'static str)
        ensures
            self is Light ==> r@ == "Light"@,
            self is Dark ==> r@ == "Dark"@,
    {
        match self {
            Style::Light => "Light",
            Style::Dark => "Dark",
        }
    }
}

impl Default for Style {
    /// The application starts dark.
    fn default() -> (r: Self)
        ensures
            r == Style::Dark,
    {
        Style::Dark
    }
}

} // verus!
