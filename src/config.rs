use vstd::prelude::*;

use vstd::string::StringExecFns;

verus! {

/// The value a setting takes after a change: the new one if given.
pub open spec fn changed<T>(new: Option<T>, old: T) -> T {
    match new {
        Some(v) => v,
        None => old,
    }
}

/// The value an optional setting takes after a change.
pub open spec fn changed_opt<T>(new: Option<T>, old: Option<T>) -> Option<T> {
    match new {
        Some(v) => Some(v),
        None => old,
    }
}

/// Launch defaults shared by every game instance.
#[derive(Clone, Debug)]
pub struct GameDefaults {
    pub java_path: Option<String>,
    pub max_memory_mb: u32,
    pub window_width: u32,
    pub window_height: u32,
    pub jvm_args: String,
}

/// The launcher's persisted settings.
#[derive(Clone, Debug)]
pub struct LauncherConfig {
    pub theme: String,
    pub language: String,
    pub cluster_path: Option<String>,
    pub window_width: u32,
    pub window_height: u32,
    pub download_concurrency: u8,
    pub game: GameDefaults,
}

/// Per-version settings of one game instance; unset fields fall back to
/// the launcher's defaults.
#[derive(Clone, Debug)]
pub struct GameConfig {
    pub java_path: Option<String>,
    pub max_memory_mb: Option<u32>,
    pub window_width: Option<u32>,
    pub window_height: Option<u32>,
    pub jvm_args: Option<String>,
    pub game_args: Option<String>,
}

/// A partial change to the launch defaults.
#[derive(Clone, Debug)]
pub struct GameDefaultsDiff {
    pub java_path: Option<String>,
    pub max_memory_mb: Option<u32>,
    pub window_width: Option<u32>,
    pub window_height: Option<u32>,
    pub jvm_args: Option<String>,
}

/// A partial change to the launcher's settings.
#[derive(Clone, Debug)]
pub struct LauncherConfigDiff {
    pub theme: Option<String>,
    pub language: Option<String>,
    pub cluster_path: Option<String>,
    pub window_width: Option<u32>,
    pub window_height: Option<u32>,
    pub download_concurrency: Option<u8>,
    pub game: Option<GameDefaultsDiff>,
}

/// A partial change to one instance's settings.
#[derive(Clone, Debug)]
pub struct GameConfigDiff {
    pub java_path: Option<String>,
    pub max_memory_mb: Option<u32>,
    pub window_width: Option<u32>,
    pub window_height: Option<u32>,
    pub jvm_args: Option<String>,
    pub game_args: Option<String>,
}

impl Default for GameDefaultsDiff {
    fn default() -> (r: Self)
        ensures
            r.java_path is None && r.max_memory_mb is None && r.window_width is None
                && r.window_height is None && r.jvm_args is None,
    {
        GameDefaultsDiff { java_path: None, max_memory_mb: None, window_width: None, window_height: None, jvm_args: None }
    }
}

impl Default for LauncherConfigDiff {
    fn default() -> (r: Self)
        ensures
            r.theme is None && r.language is None && r.cluster_path is None && r.window_width is None
                && r.window_height is None && r.download_concurrency is None && r.game is None,
    {
        LauncherConfigDiff {
            theme: None,
            language: None,
            cluster_path: None,
            window_width: None,
            window_height: None,
            download_concurrency: None,
            game: None,
        }
    }
}

impl Default for GameConfigDiff {
    fn default() -> (r: Self)
        ensures
            r.java_path is None && r.max_memory_mb is None && r.window_width is None
                && r.window_height is None && r.jvm_args is None && r.game_args is None,
    {
        GameConfigDiff {
            java_path: None,
            max_memory_mb: None,
            window_width: None,
            window_height: None,
            jvm_args: None,
            game_args: None,
        }
    }
}

/// `g` with the fields that `d` sets replaced.
pub open spec fn defaults_after(g: GameDefaults, d: GameDefaultsDiff) -> GameDefaults {
    GameDefaults {
        java_path: changed_opt(d.java_path, g.java_path),
        max_memory_mb: changed(d.max_memory_mb, g.max_memory_mb),
        window_width: changed(d.window_width, g.window_width),
        window_height: changed(d.window_height, g.window_height),
        jvm_args: changed(d.jvm_args, g.jvm_args),
    }
}

/// `c` with the fields that `d` sets replaced.
pub open spec fn launcher_after(c: LauncherConfig, d: LauncherConfigDiff) -> LauncherConfig {
    LauncherConfig {
        theme: changed(d.theme, c.theme),
        language: changed(d.language, c.language),
        cluster_path: changed_opt(d.cluster_path, c.cluster_path),
        window_width: changed(d.window_width, c.window_width),
        window_height: changed(d.window_height, c.window_height),
        download_concurrency: changed(d.download_concurrency, c.download_concurrency),
        game: match d.game {
            Some(g) => defaults_after(c.game, g),
            None => c.game,
        },
    }
}

/// `c` with the fields that `d` sets replaced.
pub open spec fn game_after(c: GameConfig, d: GameConfigDiff) -> GameConfig {
    GameConfig {
        java_path: changed_opt(d.java_path, c.java_path),
        max_memory_mb: changed_opt(d.max_memory_mb, c.max_memory_mb),
        window_width: changed_opt(d.window_width, c.window_width),
        window_height: changed_opt(d.window_height, c.window_height),
        jvm_args: changed_opt(d.jvm_args, c.jvm_args),
        game_args: changed_opt(d.game_args, c.game_args),
    }
}

/// Applies a change to the launch defaults.
pub fn apply_defaults_diff(g: &mut GameDefaults, d: GameDefaultsDiff)
    ensures
        *final(g) == defaults_after(*old(g), d),
{
    if let Some(v) = d.java_path {
        g.java_path = Some(v);
    }
    if let Some(v) = d.max_memory_mb {
        g.max_memory_mb = v;
    }
    if let Some(v) = d.window_width {
        g.window_width = v;
    }
    if let Some(v) = d.window_height {
        g.window_height = v;
    }
    if let Some(v) = d.jvm_args {
        g.jvm_args = v;
    }
}

/// Applies a change to the launcher's settings.
pub fn apply_launcher_diff(c: &mut LauncherConfig, d: LauncherConfigDiff)
    ensures
        *final(c) == launcher_after(*old(c), d),
{
    if let Some(v) = d.theme {
        c.theme = v;
    }
    if let Some(v) = d.language {
        c.language = v;
    }
    if let Some(v) = d.cluster_path {
        c.cluster_path = Some(v);
    }
    if let Some(v) = d.window_width {
        c.window_width = v;
    }
    if let Some(v) = d.window_height {
        c.window_height = v;
    }
    if let Some(v) = d.download_concurrency {
        c.download_concurrency = v;
    }
    if let Some(g) = d.game {
        apply_defaults_diff(&mut c.game, g);
    }
}

/// Applies a change to one instance's settings.
pub fn apply_game_diff(c: &mut GameConfig, d: GameConfigDiff)
    ensures
        *final(c) == game_after(*old(c), d),
{
    if let Some(v) = d.java_path {
        c.java_path = Some(v);
    }
    if let Some(v) = d.max_memory_mb {
        c.max_memory_mb = Some(v);
    }
    if let Some(v) = d.window_width {
        c.window_width = Some(v);
    }
    if let Some(v) = d.window_height {
        c.window_height = Some(v);
    }
    if let Some(v) = d.jvm_args {
        c.jvm_args = Some(v);
    }
    if let Some(v) = d.game_args {
        c.game_args = Some(v);
    }
}

/// Checks the ranges of the launcher's settings, in this order: download
/// concurrency above zero, window width in 800..=3840, window height in
/// 600..=2160, maximum memory in 512..=65536 MB. The first that fails is
/// reported.
pub fn validate(c: &LauncherConfig) -> (r: Result<(), String>)
    ensures
        c.download_concurrency == 0 ==> r is Err && r->Err_0@ == "download_concurrency must be > 0"@,
        c.download_concurrency != 0 && !(800 <= c.window_width <= 3840)
            ==> r is Err && r->Err_0@ == "window_width must be between 800 and 3840"@,
        c.download_concurrency != 0 && 800 <= c.window_width <= 3840 && !(600 <= c.window_height <= 2160)
            ==> r is Err && r->Err_0@ == "window_height must be between 600 and 2160"@,
        c.download_concurrency != 0 && 800 <= c.window_width <= 3840 && 600 <= c.window_height <= 2160
            && !(512 <= c.game.max_memory_mb <= 65536)
            ==> r is Err && r->Err_0@ == "max_memory_mb must be between 512 and 65536"@,
        r is Ok <==> (c.download_concurrency != 0 && 800 <= c.window_width <= 3840 && 600 <= c.window_height
            <= 2160 && 512 <= c.game.max_memory_mb <= 65536),
{
    if c.download_concurrency == 0 {
        return Err(String::from_str("download_concurrency must be > 0"));
    }
    if c.window_width < 800 || c.window_width > 3840 {
        return Err(String::from_str("window_width must be between 800 and 3840"));
    }
    if c.window_height < 600 || c.window_height > 2160 {
        return Err(String::from_str("window_height must be between 600 and 2160"));
    }
    if c.game.max_memory_mb < 512 || c.game.max_memory_mb > 65536 {
        return Err(String::from_str("max_memory_mb must be between 512 and 65536"));
    }
    Ok(())
}

} // verus!
