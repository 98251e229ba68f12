//! Vault configuration (`config.yml`): what a missing setting defaults to
//! and how the settings a file gives replace the defaults.

use vstd::prelude::*;

use crate::text::{chars_of, eq_str, string_of};

verus! {

#[derive(Debug, Clone, Copy, PartialEq, Eq)]
pub enum DateFormat {
    Relative,
    Iso,
    Short,
}

#[derive(Debug, Clone, Copy, PartialEq, Eq)]
pub enum ColorMode {
    Auto,
    Always,
    Never,
}

#[derive(Debug, Clone)]
pub struct ServerConfig {
    pub transport: String,
    pub socket_path: Option<String>,
}

#[derive(Debug, Clone)]
pub struct ResurfacingConfig {
    pub stale_days: u64,
    pub review_window: String,
    pub today_section_limit: usize,
}

/// The `hooks:` section: hook scripts run only when it enables them.
#[derive(Debug, Clone, Copy)]
pub struct HooksConfig {
    pub enabled: bool,
}

#[derive(Debug)]
pub struct Config {
    pub user: Option<String>,
    pub editor: Option<String>,
    pub default_tags: Vec<String>,
    pub date_format: DateFormat,
    pub id_display_length: usize,
    pub color: ColorMode,
    /// Type aliases (`t` → `todo`), sorted by alias.
    pub aliases: Vec<(String, String)>,
    pub history_enabled: bool,
    pub hooks: HooksConfig,
    pub server: ServerConfig,
    pub resurfacing: ResurfacingConfig,
    /// Each plugin's settings, as JSON text, by plugin name.
    pub plugins: Vec<(String, String)>,
}

impl Default for ServerConfig {
    fn default() -> (r: ServerConfig)
        ensures
            r.transport@ == "stdio"@,
            r.socket_path.is_none(),
    {
        ServerConfig { transport: string_of(&chars_of("stdio")), socket_path: None }
    }
}

impl Default for ResurfacingConfig {
    fn default() -> (r: ResurfacingConfig)
        ensures
            r.stale_days == 30,
            r.review_window@ == "this-week"@,
            r.today_section_limit == 10,
    {
        ResurfacingConfig {
            stale_days: 30,
            review_window: string_of(&chars_of("this-week")),
            today_section_limit: 10,
        }
    }
}

/// The aliases a vault has unless its configuration gives others.
pub open spec fn default_aliases() -> Seq<(Seq<char>, Seq<char>)> {
    seq![("d"@, "decision"@), ("i"@, "idea"@), ("n"@, "note"@), ("r"@, "risk"@), ("t"@, "todo"@)]
}

pub open spec fn pairs_view(v: Seq<(String, String)>) -> Seq<(Seq<char>, Seq<char>)> {
    v.map_values(|p: (String, String)| (p.0@, p.1@))
}

fn pair(a: &str, b: &str) -> (r: (String, String))
    ensures
        r.0@ == a@,
        r.1@ == b@,
{
    (string_of(&chars_of(a)), string_of(&chars_of(b)))
}

/// The settings of a vault with no configuration file.
pub open spec fn is_default_config(c: Config) -> bool {
    &&& c.user.is_none()
    &&& c.editor.is_none()
    &&& c.default_tags@.len() == 0
    &&& c.date_format == DateFormat::Relative
    &&& c.id_display_length == 8
    &&& c.color == ColorMode::Auto
    &&& pairs_view(c.aliases@) == default_aliases()
    &&& c.history_enabled
    &&& !c.hooks.enabled
    &&& c.server.transport@ == "stdio"@
    &&& c.server.socket_path.is_none()
    &&& c.resurfacing.stale_days == 30
    &&& c.resurfacing.review_window@ == "this-week"@
    &&& c.resurfacing.today_section_limit == 10
    &&& c.plugins@.len() == 0
}

impl Default for Config {
    fn default() -> (r: Config)
        ensures
            is_default_config(r),
    {
        let mut aliases: Vec<(String, String)> = Vec::new();
        aliases.push(pair("d", "decision"));
        aliases.push(pair("i", "idea"));
        aliases.push(pair("n", "note"));
        aliases.push(pair("r", "risk"));
        aliases.push(pair("t", "todo"));
        assert(pairs_view(aliases@) =~= default_aliases());
        Config {
            user: None,
            editor: None,
            default_tags: Vec::new(),
            date_format: DateFormat::Relative,
            id_display_length: 8,
            color: ColorMode::Auto,
            aliases,
            history_enabled: true,
            hooks: HooksConfig { enabled: false },
            server: ServerConfig::default(),
            resurfacing: ResurfacingConfig::default(),
            plugins: Vec::new(),
        }
    }
}

/// The `resurfacing:` section of a configuration file.
#[derive(Debug)]
pub struct RawResurfacing {
    pub stale_days: Option<u64>,
    pub review_window: Option<String>,
    pub today_section_limit: Option<usize>,
}

/// The `server:` section of a configuration file.
#[derive(Debug)]
pub struct RawServer {
    pub transport: String,
    pub socket_path: Option<String>,
}

/// A configuration file as read, before defaults apply. Settings the file
/// leaves out are `None` or empty; `date_format`, `id_display_length` and
/// `color` already hold their defaults (`relative`, 8, `auto`) when absent,
/// `history_enabled` is the `history.enabled` setting when the file has a
/// `history:` section, and `hooks_enabled` the `hooks.enabled` setting
/// when it has a `hooks:` section.
#[derive(Debug)]
pub struct RawConfig {
    pub user: Option<String>,
    pub editor: Option<String>,
    pub default_tags: Vec<String>,
    pub date_format: String,
    pub id_display_length: usize,
    pub color: String,
    pub aliases: Vec<(String, String)>,
    pub history_enabled: Option<bool>,
    pub hooks_enabled: Option<bool>,
    pub server: Option<RawServer>,
    pub resurfacing: Option<RawResurfacing>,
    pub plugins: Vec<(String, String)>,
}

pub open spec fn date_format_of(s: Seq<char>) -> DateFormat {
    if s == "iso"@ {
        DateFormat::Iso
    } else if s == "short"@ {
        DateFormat::Short
    } else {
        DateFormat::Relative
    }
}

pub open spec fn color_of(s: Seq<char>) -> ColorMode {
    if s == "always"@ {
        ColorMode::Always
    } else if s == "never"@ {
        ColorMode::Never
    } else {
        ColorMode::Auto
    }
}

/// The settings a configuration file gives: each one it sets replaces
/// the default; unknown date formats and colour modes fall back to the
/// default; empty tag and alias lists leave the defaults.
pub open spec fn config_from_raw_spec(raw: RawConfig, c: Config) -> bool {
    &&& c.user == (if raw.user.is_some() { raw.user } else { None })
    &&& c.editor == (if raw.editor.is_some() { raw.editor } else { None })
    &&& (if raw.default_tags@.len() > 0 { c.default_tags@ == raw.default_tags@ } else { c.default_tags@.len() == 0 })
    &&& c.date_format == date_format_of(raw.date_format@)
    &&& c.id_display_length == raw.id_display_length
    &&& c.color == color_of(raw.color@)
    &&& (if raw.aliases@.len() > 0 {
        c.aliases@ == raw.aliases@
    } else {
        pairs_view(c.aliases@) == default_aliases()
    })
    &&& c.history_enabled == (match raw.history_enabled {
        Some(b) => b,
        None => true,
    })
    &&& c.hooks.enabled == (match raw.hooks_enabled {
        Some(b) => b,
        None => false,
    })
    &&& (match raw.server {
        Some(s) => c.server.transport == s.transport && c.server.socket_path == s.socket_path,
        None => c.server.transport@ == "stdio"@ && c.server.socket_path.is_none(),
    })
    &&& (match raw.resurfacing {
        Some(r) => {
            &&& c.resurfacing.stale_days == (match r.stale_days {
                Some(d) => d,
                None => 30,
            })
            &&& c.resurfacing.review_window@ == (match r.review_window {
                Some(w) => w@,
                None => "this-week"@,
            })
            &&& c.resurfacing.today_section_limit == (match r.today_section_limit {
                Some(l) => l,
                None => 10,
            })
        },
        None => {
            &&& c.resurfacing.stale_days == 30
            &&& c.resurfacing.review_window@ == "this-week"@
            &&& c.resurfacing.today_section_limit == 10
        },
    })
    &&& c.plugins@ == raw.plugins@
}

/// The configuration a file gives, on top of the defaults.
pub fn config_from_raw(raw: RawConfig) -> (c: Config)
    ensures
        config_from_raw_spec(raw, c),
{
    proof {
        reveal_strlit("iso");
        reveal_strlit("short");
        reveal_strlit("always");
        reveal_strlit("never");
    }
    let ghost r0 = raw;
    let RawConfig {
        user,
        editor,
        default_tags,
        date_format,
        id_display_length,
        color,
        aliases,
        history_enabled,
        hooks_enabled,
        server,
        resurfacing,
        plugins,
    } = raw;
    let mut config = Config::default();
    if user.is_some() {
        config.user = user;
    }
    if editor.is_some() {
        config.editor = editor;
    }
    if default_tags.len() > 0 {
        config.default_tags = default_tags;
    }
    let df = chars_of(date_format.as_str());
    config.date_format = if eq_str(&df, "iso") {
        DateFormat::Iso
    } else if eq_str(&df, "short") {
        DateFormat::Short
    } else {
        DateFormat::Relative
    };
    config.id_display_length = id_display_length;
    let cm = chars_of(color.as_str());
    config.color = if eq_str(&cm, "always") {
        ColorMode::Always
    } else if eq_str(&cm, "never") {
        ColorMode::Never
    } else {
        ColorMode::Auto
    };
    if aliases.len() > 0 {
        config.aliases = aliases;
    }
    if let Some(h) = history_enabled {
        config.history_enabled = h;
    }
    if let Some(h) = hooks_enabled {
        config.hooks = HooksConfig { enabled: h };
    }
    if let Some(s) = server {
        config.server = ServerConfig { transport: s.transport, socket_path: s.socket_path };
    }
    if let Some(r) = resurfacing {
        if let Some(d) = r.stale_days {
            config.resurfacing.stale_days = d;
        }
        if let Some(w) = r.review_window {
            config.resurfacing.review_window = w;
        }
        if let Some(l) = r.today_section_limit {
            config.resurfacing.today_section_limit = l;
        }
    }
    config.plugins = plugins;
    config
}

/// The editor command: the configured one, else `$EDITOR` (as read by
/// the caller), else `vim`.
pub fn get_editor(config: &Config, env_editor: Option<String>) -> (r: String)
    ensures
        r@ == (match config.editor {
            Some(e) => e@,
            None => match env_editor {
                Some(e) => e@,
                None => "vim"@,
            },
        }),
{
    match &config.editor {
        Some(e) => e.clone(),
        None => match env_editor {
            Some(e) => e,
            None => string_of(&chars_of("vim")),
        },
    }
}

/// The settings of one plugin as JSON text; `{}` when it has none.
pub fn plugin_config_json(config: &Config, plugin_name: &str) -> (r: String)
    ensures
        ({
            let k = crate::config::first_plugin(config.plugins@, plugin_name@);
            if k < config.plugins@.len() {
                r@ == config.plugins@[k].1@
            } else {
                r@ == "{}"@
            }
        }),
{
    let n = chars_of(plugin_name);
    let mut i: usize = 0;
    while i < config.plugins.len()
        invariant
            i <= config.plugins.len(),
            n@ == plugin_name@,
            first_plugin(config.plugins@, plugin_name@) == first_plugin_from(
                config.plugins@,
                plugin_name@,
                i as int,
            ),
        decreases config.plugins.len() - i,
    {
        let pn = chars_of(config.plugins[i].0.as_str());
        if crate::text::eq_str_chars(&pn, &n) {
            return config.plugins[i].1.clone();
        }
        i = i + 1;
    }
    string_of(&chars_of("{}"))
}

/// The index of the first entry at or after `k` for plugin `name`.
pub open spec fn first_plugin_from(p: Seq<(String, String)>, name: Seq<char>, k: int) -> int
    decreases p.len() - k,
{
    if 0 <= k < p.len() && p[k].0@ != name {
        first_plugin_from(p, name, k + 1)
    } else {
        k
    }
}

/// The index of the first entry for plugin `name`, or the length.
pub open spec fn first_plugin(p: Seq<(String, String)>, name: Seq<char>) -> int {
    first_plugin_from(p, name, 0)
}

} // verus!
