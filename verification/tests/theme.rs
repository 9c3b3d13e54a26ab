use vsysmonitor::config::{AppConfig, ThemeName};
use vsysmonitor::theme::{palette, Palette, Rgb, Severity};

#[test]
fn mocha_palette_values() {
    let p = Palette::from_theme(&ThemeName::CatppuccinMocha);
    assert_eq!(p.base, Rgb { r: 30, g: 30, b: 46 });
    assert_eq!(p.green, Rgb { r: 166, g: 227, b: 161 });
    assert_eq!(p.red, Rgb { r: 243, g: 139, b: 168 });
    assert_eq!(p.overlay, Rgb { r: 108, g: 112, b: 134 });
    assert_eq!(palette(&AppConfig::default()).sapphire, p.sapphire);
}

#[test]
fn severity_levels_and_colours() {
    let p = Palette::from_theme(&ThemeName::CatppuccinMocha);
    assert_eq!(Severity::from_thresholds(true, false), Severity::Critical);
    assert_eq!(Severity::from_thresholds(true, true), Severity::Critical);
    assert_eq!(Severity::from_thresholds(false, true), Severity::Warning);
    assert_eq!(Severity::from_thresholds(false, false), Severity::Normal);
    assert_eq!(p.severity_color(Severity::Critical), p.red);
    assert_eq!(p.severity_color(Severity::Warning), p.yellow);
    assert_eq!(p.severity_color(Severity::Normal), p.green);
    assert_eq!(Severity::Warning.rank(), 1);
    assert_eq!(Severity::Normal.higher(Severity::Warning), Severity::Warning);
    assert_eq!(Severity::Critical.higher(Severity::Normal), Severity::Critical);
}

#[test]
fn stale_data_is_yellow() {
    let p = Palette::from_theme(&ThemeName::CatppuccinMocha);
    assert_eq!(p.stale_color(true), p.yellow);
    assert_eq!(p.stale_color(false), p.subtext);
}
