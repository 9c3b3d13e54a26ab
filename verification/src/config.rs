//! Settings: their defaults, how a partial settings file overrides them, and where the file lies.
use vstd::prelude::*;
use crate::text::{chars_of, push_char, string_of};

verus! {

/// The colour themes there are.
#[derive(Clone, Copy, Debug, PartialEq, Eq, Structural)]
pub enum ThemeName {
    CatppuccinMocha,
}

impl ThemeName {
    /// The name under which the theme is written in the settings file.
    pub fn as_str(&self) -> (s: &'static str)
        ensures
            *self == ThemeName::CatppuccinMocha ==> s@ == "catppuccin_mocha"@,
    {
        match self {
            ThemeName::CatppuccinMocha => "catppuccin_mocha",
        }
    }
}

/// The keys bound to the commands, each written as a key name.
#[derive(Clone, Debug)]
pub struct KeyBindings {
    pub next_page: String,
    pub prev_page: String,
    pub refresh: String,
    pub quit: String,
    pub help: String,
}

/// How remote hosts are reached.
#[derive(Clone, Debug)]
pub struct SshConfig {
    pub config_path: String,
    pub ssh_connect_timeout_ms: u64,
    pub host_ping_timeout_ms: u64,
    pub unreachable_to_end: bool,
    pub prefer_ssh_over_ping_check: bool,
    pub max_parallel_hosts: usize,
}

/// The settings other than the alert thresholds, which are fractional percentages and
/// degrees and are kept beside these by the program.
#[derive(Clone, Debug)]
pub struct AppConfig {
    pub local_refresh_interval_ms: u64,
    pub remote_refresh_interval_ms: u64,
    pub theme: ThemeName,
    pub show_borders: bool,
    pub compact_mode: bool,
    pub show_help_hints: bool,
    pub default_page_size: usize,
    pub stale_data_timeout_ms: u64,
    pub show_all_disks: bool,
    pub disk_include_mountpoints: Vec<String>,
    pub disk_exclude_mountpoints: Vec<String>,
    pub keys: KeyBindings,
    pub ssh: SshConfig,
}

impl Default for KeyBindings {
    fn default() -> (k: Self)
        ensures
            k.next_page@ == "l"@,
            k.prev_page@ == "h"@,
            k.refresh@ == "r"@,
            k.quit@ == "q"@,
            k.help@ == "?"@,
    {
        KeyBindings {
            next_page: String::from_str("l"),
            prev_page: String::from_str("h"),
            refresh: String::from_str("r"),
            quit: String::from_str("q"),
            help: String::from_str("?"),
        }
    }
}

impl Default for SshConfig {
    fn default() -> (s: Self)
        ensures
            s.config_path@ == "~/.ssh/config"@,
            s.ssh_connect_timeout_ms == 5_000,
            s.host_ping_timeout_ms == 1_000,
            s.unreachable_to_end,
            s.prefer_ssh_over_ping_check,
            s.max_parallel_hosts == 8,
    {
        SshConfig {
            config_path: String::from_str("~/.ssh/config"),
            ssh_connect_timeout_ms: 5_000,
            host_ping_timeout_ms: 1_000,
            unreachable_to_end: true,
            prefer_ssh_over_ping_check: true,
            max_parallel_hosts: 8,
        }
    }
}

impl Default for AppConfig {
    fn default() -> (c: Self)
        ensures
            c.local_refresh_interval_ms == 2_000,
            c.remote_refresh_interval_ms == 15_000,
            c.theme == ThemeName::CatppuccinMocha,
            c.show_borders,
            !c.compact_mode,
            c.show_help_hints,
            c.default_page_size == 3,
            c.stale_data_timeout_ms == 20_000,
            c.show_all_disks,
            c.disk_include_mountpoints@.len() == 1,
            c.disk_include_mountpoints@[0]@ == "/"@,
            c.disk_exclude_mountpoints@.len() == 1,
            c.disk_exclude_mountpoints@[0]@ == "/boot"@,
            c.keys.next_page@ == "l"@,
            c.keys.prev_page@ == "h"@,
            c.keys.refresh@ == "r"@,
            c.keys.quit@ == "q"@,
            c.keys.help@ == "?"@,
            c.ssh.config_path@ == "~/.ssh/config"@,
            c.ssh.ssh_connect_timeout_ms == 5_000,
            c.ssh.host_ping_timeout_ms == 1_000,
            c.ssh.unreachable_to_end,
            c.ssh.prefer_ssh_over_ping_check,
            c.ssh.max_parallel_hosts == 8,
    {
        let mut included: Vec<String> = Vec::new();
        included.push(String::from_str("/"));
        let mut exclude: Vec<String> = Vec::new();
        exclude.push(String::from_str("/boot"));
        AppConfig {
            local_refresh_interval_ms: 2_000,
            remote_refresh_interval_ms: 15_000,
            theme: ThemeName::CatppuccinMocha,
            show_borders: true,
            compact_mode: false,
            show_help_hints: true,
            default_page_size: 3,
            stale_data_timeout_ms: 20_000,
            show_all_disks: true,
            disk_include_mountpoints: included,
            disk_exclude_mountpoints: exclude,
            keys: KeyBindings::default(),
            ssh: SshConfig::default(),
        }
    }
}

/// The `[keys]` table of a settings file; an absent entry keeps the default.
#[derive(Debug, Default)]
pub struct RawKeyBindings {
    pub next_page: Option<String>,
    pub prev_page: Option<String>,
    pub refresh: Option<String>,
    pub quit: Option<String>,
    pub help: Option<String>,
}

/// The `[ssh]` table of a settings file; an absent entry keeps the default.
#[derive(Debug, Default)]
pub struct RawSshConfig {
    pub config_path: Option<String>,
    pub ssh_connect_timeout_ms: Option<u64>,
    pub host_ping_timeout_ms: Option<u64>,
    pub unreachable_to_end: Option<bool>,
    pub prefer_ssh_over_ping_check: Option<bool>,
    pub max_parallel_hosts: Option<usize>,
}

/// A settings file as read (thresholds aside); an absent entry keeps the default.
/// `refresh_interval_ms` is the older name that sets both intervals.
#[derive(Debug, Default)]
pub struct RawAppConfig {
    pub refresh_interval_ms: Option<u64>,
    pub local_refresh_interval_ms: Option<u64>,
    pub remote_refresh_interval_ms: Option<u64>,
    pub theme: Option<ThemeName>,
    pub show_borders: Option<bool>,
    pub compact_mode: Option<bool>,
    pub show_help_hints: Option<bool>,
    pub default_page_size: Option<usize>,
    pub stale_data_timeout_ms: Option<u64>,
    pub show_all_disks: Option<bool>,
    pub disk_include_mountpoints: Option<Vec<String>>,
    pub disk_exclude_mountpoints: Option<Vec<String>>,
    pub keys: Option<RawKeyBindings>,
    pub ssh: Option<RawSshConfig>,
}

/// The value given, else the default.
pub open spec fn given_or<T>(given: Option<T>, default: T) -> T {
    match given {
        Some(v) => v,
        None => default,
    }
}

/// The larger of `n` and 1.
pub open spec fn at_least_one(n: usize) -> usize {
    if n >= 1 {
        n
    } else {
        1
    }
}

fn pick<T>(given: Option<T>, default: T) -> (r: T)
    ensures
        r == given_or(given, default),
{
    match given {
        Some(v) => v,
        None => default,
    }
}

impl RawKeyBindings {
    /// The bindings given in the file over `defaults`.
    pub open spec fn merged(self, defaults: KeyBindings) -> KeyBindings {
        KeyBindings {
            next_page: given_or(self.next_page, defaults.next_page),
            prev_page: given_or(self.prev_page, defaults.prev_page),
            refresh: given_or(self.refresh, defaults.refresh),
            quit: given_or(self.quit, defaults.quit),
            help: given_or(self.help, defaults.help),
        }
    }
}

impl RawSshConfig {
    /// The SSH settings given in the file over `defaults`; at least one host is probed at a time.
    pub open spec fn merged(self, defaults: SshConfig) -> SshConfig {
        SshConfig {
            config_path: given_or(self.config_path, defaults.config_path),
            ssh_connect_timeout_ms: given_or(
                self.ssh_connect_timeout_ms,
                defaults.ssh_connect_timeout_ms,
            ),
            host_ping_timeout_ms: given_or(self.host_ping_timeout_ms, defaults.host_ping_timeout_ms),
            unreachable_to_end: given_or(self.unreachable_to_end, defaults.unreachable_to_end),
            prefer_ssh_over_ping_check: given_or(
                self.prefer_ssh_over_ping_check,
                defaults.prefer_ssh_over_ping_check,
            ),
            max_parallel_hosts: at_least_one(
                given_or(self.max_parallel_hosts, defaults.max_parallel_hosts),
            ),
        }
    }
}

impl RawAppConfig {
    /// The settings given in the file over `defaults`.
    pub open spec fn merged(self, defaults: AppConfig) -> AppConfig {
        AppConfig {
            local_refresh_interval_ms: given_or(
                self.local_refresh_interval_ms,
                given_or(self.refresh_interval_ms, defaults.local_refresh_interval_ms),
            ),
            remote_refresh_interval_ms: given_or(
                self.remote_refresh_interval_ms,
                given_or(self.refresh_interval_ms, defaults.remote_refresh_interval_ms),
            ),
            theme: given_or(self.theme, defaults.theme),
            show_borders: given_or(self.show_borders, defaults.show_borders),
            compact_mode: given_or(self.compact_mode, defaults.compact_mode),
            show_help_hints: given_or(self.show_help_hints, defaults.show_help_hints),
            default_page_size: at_least_one(
                given_or(self.default_page_size, defaults.default_page_size),
            ),
            stale_data_timeout_ms: given_or(self.stale_data_timeout_ms, defaults.stale_data_timeout_ms),
            show_all_disks: given_or(self.show_all_disks, defaults.show_all_disks),
            disk_include_mountpoints: given_or(
                self.disk_include_mountpoints,
                defaults.disk_include_mountpoints,
            ),
            disk_exclude_mountpoints: given_or(
                self.disk_exclude_mountpoints,
                defaults.disk_exclude_mountpoints,
            ),
            keys: match self.keys {
                Some(k) => k.merged(defaults.keys),
                None => defaults.keys,
            },
            ssh: match self.ssh {
                Some(s) => s.merged(defaults.ssh),
                None => defaults.ssh,
            },
        }
    }

    /// Fills what the file leaves out from `defaults`.
    pub fn merge(self, defaults: AppConfig) -> (c: AppConfig)
        ensures
            c == self.merged(defaults),
    {
        let legacy = self.refresh_interval_ms;
        let page_size = pick(self.default_page_size, defaults.default_page_size);
        let keys = match self.keys {
            Some(k) => KeyBindings {
                next_page: pick(k.next_page, defaults.keys.next_page),
                prev_page: pick(k.prev_page, defaults.keys.prev_page),
                refresh: pick(k.refresh, defaults.keys.refresh),
                quit: pick(k.quit, defaults.keys.quit),
                help: pick(k.help, defaults.keys.help),
            },
            None => defaults.keys,
        };
        let ssh = match self.ssh {
            Some(s) => {
                let parallel = pick(s.max_parallel_hosts, defaults.ssh.max_parallel_hosts);
                SshConfig {
                    config_path: pick(s.config_path, defaults.ssh.config_path),
                    ssh_connect_timeout_ms: pick(
                        s.ssh_connect_timeout_ms,
                        defaults.ssh.ssh_connect_timeout_ms,
                    ),
                    host_ping_timeout_ms: pick(
                        s.host_ping_timeout_ms,
                        defaults.ssh.host_ping_timeout_ms,
                    ),
                    unreachable_to_end: pick(s.unreachable_to_end, defaults.ssh.unreachable_to_end),
                    prefer_ssh_over_ping_check: pick(
                        s.prefer_ssh_over_ping_check,
                        defaults.ssh.prefer_ssh_over_ping_check,
                    ),
                    max_parallel_hosts: if parallel >= 1 { parallel } else { 1 },
                }
            },
            None => defaults.ssh,
        };
        AppConfig {
            local_refresh_interval_ms: pick(
                self.local_refresh_interval_ms,
                pick(legacy, defaults.local_refresh_interval_ms),
            ),
            remote_refresh_interval_ms: pick(
                self.remote_refresh_interval_ms,
                pick(legacy, defaults.remote_refresh_interval_ms),
            ),
            theme: pick(self.theme, defaults.theme),
            show_borders: pick(self.show_borders, defaults.show_borders),
            compact_mode: pick(self.compact_mode, defaults.compact_mode),
            show_help_hints: pick(self.show_help_hints, defaults.show_help_hints),
            default_page_size: if page_size >= 1 { page_size } else { 1 },
            stale_data_timeout_ms: pick(self.stale_data_timeout_ms, defaults.stale_data_timeout_ms),
            show_all_disks: pick(self.show_all_disks, defaults.show_all_disks),
            disk_include_mountpoints: pick(
                self.disk_include_mountpoints,
                defaults.disk_include_mountpoints,
            ),
            disk_exclude_mountpoints: pick(
                self.disk_exclude_mountpoints,
                defaults.disk_exclude_mountpoints,
            ),
            keys,
            ssh,
        }
    }
}

/// `Path::join` on Unix: an absolute `part` replaces `base`; otherwise a `/` is put between
/// them unless `base` is empty or already ends in one.
pub open spec fn path_join(base: Seq<char>, part: Seq<char>) -> Seq<char> {
    if part.len() > 0 && part[0] == '/' {
        part
    } else if base.len() == 0 || base.last() == '/' {
        base + part
    } else {
        base.push('/') + part
    }
}

/// `base` joined with `part` as a path.
pub fn join_path(base: &str, part: &str) -> (r: String)
    ensures
        r@ == path_join(base@, part@),
{
    let b = chars_of(base);
    let p = chars_of(part);
    if p.len() > 0 && p[0] == '/' {
        return string_of(p.as_slice());
    }
    let mut out = string_of(b.as_slice());
    if b.len() > 0 && b[b.len() - 1] != '/' {
        push_char(&mut out, '/');
    }
    out.append(part);
    out
}

/// A path that cannot be formed because the home directory is unknown.
#[derive(Clone, Copy, Debug, PartialEq, Eq, Structural)]
pub enum PathError {
    /// Neither `XDG_CONFIG_HOME` nor `HOME` is set.
    NoConfigHome,
    /// `HOME` is not set.
    NoHome,
}

impl PathError {
    pub fn message(&self) -> (s: String)
        ensures
            *self == PathError::NoConfigHome ==> s@
                == "HOME is not set and XDG_CONFIG_HOME is unavailable"@,
            *self == PathError::NoHome ==> s@ == "HOME is not set"@,
    {
        match self {
            PathError::NoConfigHome => String::from_str(
                "HOME is not set and XDG_CONFIG_HOME is unavailable",
            ),
            PathError::NoHome => String::from_str("HOME is not set"),
        }
    }
}

/// Where the settings file lies, given the values of `XDG_CONFIG_HOME` and `HOME`.
pub open spec fn config_path_of(xdg: Option<Seq<char>>, home: Option<Seq<char>>) -> Result<
    Seq<char>,
    PathError,
> {
    match xdg {
        Some(x) => Ok(path_join(path_join(x, "vsysmonitor"@), "config.toml"@)),
        None => match home {
            Some(h) => Ok(
                path_join(path_join(path_join(h, ".config"@), "vsysmonitor"@), "config.toml"@),
            ),
            None => Err(PathError::NoConfigHome),
        },
    }
}

impl AppConfig {
    /// `<XDG_CONFIG_HOME>/vsysmonitor/config.toml`, else `<HOME>/.config/vsysmonitor/config.toml`.
    pub fn config_path(xdg_config_home: Option<&str>, home: Option<&str>) -> (r: Result<
        String,
        PathError,
    >)
        ensures
            match (r, config_path_of(
                match xdg_config_home {
                    Some(x) => Some(x@),
                    None => None,
                },
                match home {
                    Some(h) => Some(h@),
                    None => None,
                },
            )) {
                (Ok(p), Ok(q)) => p@ == q,
                (Err(e), Err(f)) => e == f,
                _ => false,
            },
    {
        match xdg_config_home {
            Some(x) => {
                let dir = join_path(x, "vsysmonitor");
                Ok(join_path(dir.as_str(), "config.toml"))
            },
            None => match home {
                Some(h) => {
                    let dir = join_path(h, ".config");
                    let dir = join_path(dir.as_str(), "vsysmonitor");
                    Ok(join_path(dir.as_str(), "config.toml"))
                },
                None => Err(PathError::NoConfigHome),
            },
        }
    }
}

} // verus!

verus! {

/// A settings file that sets nothing.
pub open spec fn empty_file() -> RawAppConfig {
    RawAppConfig {
        refresh_interval_ms: None,
        local_refresh_interval_ms: None,
        remote_refresh_interval_ms: None,
        theme: None,
        show_borders: None,
        compact_mode: None,
        show_help_hints: None,
        default_page_size: None,
        stale_data_timeout_ms: None,
        show_all_disks: None,
        disk_include_mountpoints: None,
        disk_exclude_mountpoints: None,
        keys: None,
        ssh: None,
    }
}

/// A settings file that sets nothing leaves every default as it is (the page size being at least 1).
pub proof fn lemma_empty_file_keeps_defaults(defaults: AppConfig)
    requires
        defaults.default_page_size >= 1,
    ensures
        empty_file().merged(defaults) == defaults,
{
}

/// Whatever the file says, the merged page size is at least 1, and so is the number of hosts
/// probed at a time when the file has an `[ssh]` table.
pub proof fn lemma_merged_sizes_positive(raw: RawAppConfig, defaults: AppConfig)
    ensures
        raw.merged(defaults).default_page_size >= 1,
        raw.ssh is Some ==> raw.merged(defaults).ssh.max_parallel_hosts >= 1,
{
}

/// A value the file gives always wins over the default; the older `refresh_interval_ms`
/// sets an interval only where the file does not set it by its own name.
pub proof fn lemma_given_values_win(raw: RawAppConfig, defaults: AppConfig)
    ensures
        raw.local_refresh_interval_ms matches Some(v) ==> raw.merged(
            defaults,
        ).local_refresh_interval_ms == v,
        raw.local_refresh_interval_ms is None ==> (raw.refresh_interval_ms matches Some(v)
            ==> raw.merged(defaults).local_refresh_interval_ms == v),
        raw.remote_refresh_interval_ms matches Some(v) ==> raw.merged(
            defaults,
        ).remote_refresh_interval_ms == v,
        raw.remote_refresh_interval_ms is None ==> (raw.refresh_interval_ms matches Some(v)
            ==> raw.merged(defaults).remote_refresh_interval_ms == v),
        raw.theme matches Some(t) ==> raw.merged(defaults).theme == t,
{
}

} // verus!

verus! {

/// Field by field, a value the settings file gives is the merged value, and a field the file
/// leaves out keeps its default; the page size and the number of hosts probed at a time are
/// raised to 1 when 0.
pub proof fn lemma_merge_field_by_field(raw: RawAppConfig, d: AppConfig)
    ensures
        raw.local_refresh_interval_ms matches Some(v) ==> raw.merged(d).local_refresh_interval_ms == v,
        raw.remote_refresh_interval_ms matches Some(v) ==> raw.merged(d).remote_refresh_interval_ms == v,
        raw.local_refresh_interval_ms is None && raw.refresh_interval_ms is None
            ==> raw.merged(d).local_refresh_interval_ms == d.local_refresh_interval_ms,
        raw.remote_refresh_interval_ms is None && raw.refresh_interval_ms is None
            ==> raw.merged(d).remote_refresh_interval_ms == d.remote_refresh_interval_ms,
        raw.theme matches Some(v) ==> raw.merged(d).theme == v,
        raw.theme is None ==> raw.merged(d).theme == d.theme,
        raw.show_borders matches Some(v) ==> raw.merged(d).show_borders == v,
        raw.show_borders is None ==> raw.merged(d).show_borders == d.show_borders,
        raw.compact_mode matches Some(v) ==> raw.merged(d).compact_mode == v,
        raw.compact_mode is None ==> raw.merged(d).compact_mode == d.compact_mode,
        raw.show_help_hints matches Some(v) ==> raw.merged(d).show_help_hints == v,
        raw.show_help_hints is None ==> raw.merged(d).show_help_hints == d.show_help_hints,
        raw.default_page_size matches Some(v) ==> raw.merged(d).default_page_size == if v >= 1 {
            v
        } else {
            1
        },
        raw.default_page_size is None && d.default_page_size >= 1 ==> raw.merged(d).default_page_size
            == d.default_page_size,
        raw.stale_data_timeout_ms matches Some(v) ==> raw.merged(d).stale_data_timeout_ms == v,
        raw.stale_data_timeout_ms is None ==> raw.merged(d).stale_data_timeout_ms == d.stale_data_timeout_ms,
        raw.show_all_disks matches Some(v) ==> raw.merged(d).show_all_disks == v,
        raw.show_all_disks is None ==> raw.merged(d).show_all_disks == d.show_all_disks,
        raw.disk_include_mountpoints matches Some(v) ==> raw.merged(d).disk_include_mountpoints == v,
        raw.disk_include_mountpoints is None ==> raw.merged(d).disk_include_mountpoints
            == d.disk_include_mountpoints,
        raw.disk_exclude_mountpoints matches Some(v) ==> raw.merged(d).disk_exclude_mountpoints == v,
        raw.disk_exclude_mountpoints is None ==> raw.merged(d).disk_exclude_mountpoints
            == d.disk_exclude_mountpoints,
        raw.keys is None ==> raw.merged(d).keys == d.keys,
        raw.keys matches Some(k) ==> {
            &&& (k.next_page matches Some(v) ==> raw.merged(d).keys.next_page == v)
            &&& (k.next_page is None ==> raw.merged(d).keys.next_page == d.keys.next_page)
            &&& (k.prev_page matches Some(v) ==> raw.merged(d).keys.prev_page == v)
            &&& (k.prev_page is None ==> raw.merged(d).keys.prev_page == d.keys.prev_page)
            &&& (k.refresh matches Some(v) ==> raw.merged(d).keys.refresh == v)
            &&& (k.refresh is None ==> raw.merged(d).keys.refresh == d.keys.refresh)
            &&& (k.quit matches Some(v) ==> raw.merged(d).keys.quit == v)
            &&& (k.quit is None ==> raw.merged(d).keys.quit == d.keys.quit)
            &&& (k.help matches Some(v) ==> raw.merged(d).keys.help == v)
            &&& (k.help is None ==> raw.merged(d).keys.help == d.keys.help)
        },
        raw.ssh is None ==> raw.merged(d).ssh == d.ssh,
        raw.ssh matches Some(s) ==> {
            &&& (s.config_path matches Some(v) ==> raw.merged(d).ssh.config_path == v)
            &&& (s.config_path is None ==> raw.merged(d).ssh.config_path == d.ssh.config_path)
            &&& (s.ssh_connect_timeout_ms matches Some(v) ==> raw.merged(d).ssh.ssh_connect_timeout_ms
                == v)
            &&& (s.ssh_connect_timeout_ms is None ==> raw.merged(d).ssh.ssh_connect_timeout_ms
                == d.ssh.ssh_connect_timeout_ms)
            &&& (s.host_ping_timeout_ms matches Some(v) ==> raw.merged(d).ssh.host_ping_timeout_ms
                == v)
            &&& (s.host_ping_timeout_ms is None ==> raw.merged(d).ssh.host_ping_timeout_ms
                == d.ssh.host_ping_timeout_ms)
            &&& (s.unreachable_to_end matches Some(v) ==> raw.merged(d).ssh.unreachable_to_end == v)
            &&& (s.unreachable_to_end is None ==> raw.merged(d).ssh.unreachable_to_end
                == d.ssh.unreachable_to_end)
            &&& (s.prefer_ssh_over_ping_check matches Some(v)
                ==> raw.merged(d).ssh.prefer_ssh_over_ping_check == v)
            &&& (s.prefer_ssh_over_ping_check is None
                ==> raw.merged(d).ssh.prefer_ssh_over_ping_check == d.ssh.prefer_ssh_over_ping_check)
            &&& (s.max_parallel_hosts matches Some(v) ==> raw.merged(d).ssh.max_parallel_hosts
                == if v >= 1 {
                v
            } else {
                1
            })
            &&& (s.max_parallel_hosts is None && d.ssh.max_parallel_hosts >= 1
                ==> raw.merged(d).ssh.max_parallel_hosts == d.ssh.max_parallel_hosts)
        },
{
}

} // verus!

verus! {

/// The settings file is `<XDG_CONFIG_HOME>/vsysmonitor/config.toml` when that variable is set,
/// else `<HOME>/.config/vsysmonitor/config.toml`, and cannot be located when neither is set
/// (for directories given without a trailing `/`).
pub proof fn lemma_config_path_literal(xdg: Option<Seq<char>>, home: Option<Seq<char>>)
    ensures
        xdg matches Some(x) ==> (x.len() > 0 && x.last() != '/' ==> config_path_of(xdg, home)
            == Ok::<Seq<char>, PathError>(x + "/vsysmonitor/config.toml"@)),
        xdg is None ==> (home matches Some(h) ==> (h.len() > 0 && h.last() != '/'
            ==> config_path_of(xdg, home) == Ok::<Seq<char>, PathError>(
            h + "/.config/vsysmonitor/config.toml"@,
        ))),
        xdg is None && home is None ==> config_path_of(xdg, home) == Err::<Seq<char>, PathError>(
            PathError::NoConfigHome,
        ),
{
    reveal_strlit("vsysmonitor");
    reveal_strlit("config.toml");
    reveal_strlit(".config");
    reveal_strlit("/vsysmonitor/config.toml");
    reveal_strlit("/.config/vsysmonitor/config.toml");
    if let Some(x) = xdg {
        if x.len() > 0 && x.last() != '/' {
            let d = x.push('/') + "vsysmonitor"@;
            assert(path_join(x, "vsysmonitor"@) == d);
            assert(d.last() == 'r');
            assert(d.push('/') + "config.toml"@ =~= x + "/vsysmonitor/config.toml"@);
        }
    } else if let Some(h) = home {
        if h.len() > 0 && h.last() != '/' {
            let c = h.push('/') + ".config"@;
            assert(path_join(h, ".config"@) == c);
            assert(c.last() == 'g');
            let d = c.push('/') + "vsysmonitor"@;
            assert(path_join(c, "vsysmonitor"@) == d);
            assert(d.last() == 'r');
            assert(d.push('/') + "config.toml"@ =~= h + "/.config/vsysmonitor/config.toml"@);
        }
    }
}

} // verus!
