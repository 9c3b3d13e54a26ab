//! Colours: the palette of a theme and the colour of each alert level.
use vstd::prelude::*;
use crate::config::{AppConfig, ThemeName};

verus! {

/// A colour by its red, green and blue components.
#[derive(Clone, Copy, Debug, PartialEq, Eq, Structural)]
pub struct Rgb {
    pub r: u8,
    pub g: u8,
    pub b: u8,
}

/// How close a reading is to its alert thresholds.
#[derive(Clone, Copy, Debug, PartialEq, Eq, Structural)]
pub enum Severity {
    /// Below the warning threshold.
    Normal,
    /// At or above the warning threshold, below the critical one.
    Warning,
    /// At or above the critical threshold.
    Critical,
}

/// The level as a number: 0, 1, 2.
pub open spec fn level(s: Severity) -> nat {
    match s {
        Severity::Normal => 0,
        Severity::Warning => 1,
        Severity::Critical => 2,
    }
}

impl Severity {
    /// The level of a reading from whether it reached each threshold; the critical threshold
    /// is looked at first.
    pub fn from_thresholds(reached_critical: bool, reached_warning: bool) -> (s: Severity)
        ensures
            reached_critical ==> s == Severity::Critical,
            !reached_critical && reached_warning ==> s == Severity::Warning,
            !reached_critical && !reached_warning ==> s == Severity::Normal,
    {
        if reached_critical {
            Severity::Critical
        } else if reached_warning {
            Severity::Warning
        } else {
            Severity::Normal
        }
    }

    /// The level as a number: 0, 1, 2.
    pub fn rank(&self) -> (r: u8)
        ensures
            r == level(*self),
    {
        match self {
            Severity::Normal => 0,
            Severity::Warning => 1,
            Severity::Critical => 2,
        }
    }

    /// The higher of two levels.
    pub fn higher(self, other: Severity) -> (s: Severity)
        ensures
            level(s) == if level(self) >= level(other) {
                level(self)
            } else {
                level(other)
            },
    {
        if self.rank() >= other.rank() {
            self
        } else {
            other
        }
    }
}

/// The colours of a theme.
#[derive(Clone, Copy, Debug)]
pub struct Palette {
    pub base: Rgb,
    pub mantle: Rgb,
    pub crust: Rgb,
    pub text: Rgb,
    pub subtext: Rgb,
    pub blue: Rgb,
    pub sapphire: Rgb,
    pub green: Rgb,
    pub yellow: Rgb,
    pub red: Rgb,
    pub mauve: Rgb,
    pub overlay: Rgb,
}

pub open spec fn rgb(r: u8, g: u8, b: u8) -> Rgb {
    Rgb { r, g, b }
}

/// The Catppuccin Mocha palette.
pub open spec fn mocha() -> Palette {
    Palette {
        base: rgb(30, 30, 46),
        mantle: rgb(24, 24, 37),
        crust: rgb(17, 17, 27),
        text: rgb(205, 214, 244),
        subtext: rgb(166, 173, 200),
        blue: rgb(137, 180, 250),
        sapphire: rgb(116, 199, 236),
        green: rgb(166, 227, 161),
        yellow: rgb(249, 226, 175),
        red: rgb(243, 139, 168),
        mauve: rgb(203, 166, 247),
        overlay: rgb(108, 112, 134),
    }
}

impl Palette {
    /// The palette of a theme.
    pub fn from_theme(theme: &ThemeName) -> (p: Self)
        ensures
            *theme == ThemeName::CatppuccinMocha ==> p == mocha(),
    {
        match theme {
            ThemeName::CatppuccinMocha => Self::catppuccin_mocha(),
        }
    }

    /// Green when normal, yellow at the warning level, red at the critical level.
    pub fn severity_color(&self, severity: Severity) -> (c: Rgb)
        ensures
            c == match severity {
                Severity::Critical => self.red,
                Severity::Warning => self.yellow,
                Severity::Normal => self.green,
            },
    {
        match severity {
            Severity::Critical => self.red,
            Severity::Warning => self.yellow,
            Severity::Normal => self.green,
        }
    }

    /// Yellow for data too old to trust, the muted text colour otherwise.
    pub fn stale_color(&self, stale: bool) -> (c: Rgb)
        ensures
            c == if stale {
                self.yellow
            } else {
                self.subtext
            },
    {
        if stale {
            self.yellow
        } else {
            self.subtext
        }
    }

    fn catppuccin_mocha() -> (p: Self)
        ensures
            p == mocha(),
    {
        Self {
            base: Rgb { r: 30, g: 30, b: 46 },
            mantle: Rgb { r: 24, g: 24, b: 37 },
            crust: Rgb { r: 17, g: 17, b: 27 },
            text: Rgb { r: 205, g: 214, b: 244 },
            subtext: Rgb { r: 166, g: 173, b: 200 },
            blue: Rgb { r: 137, g: 180, b: 250 },
            sapphire: Rgb { r: 116, g: 199, b: 236 },
            green: Rgb { r: 166, g: 227, b: 161 },
            yellow: Rgb { r: 249, g: 226, b: 175 },
            red: Rgb { r: 243, g: 139, b: 168 },
            mauve: Rgb { r: 203, g: 166, b: 247 },
            overlay: Rgb { r: 108, g: 112, b: 134 },
        }
    }
}

/// The palette of the configured theme.
pub fn palette(config: &AppConfig) -> (p: Palette)
    ensures
        config.theme == ThemeName::CatppuccinMocha ==> p == mocha(),
{
    Palette::from_theme(&config.theme)
}

} // verus!
