use hako_tasks::account::{offline_uuid, Account, AccountManager};
use hako_tasks::config::{
    apply_game_diff, apply_launcher_diff, validate, GameConfig, GameConfigDiff, GameDefaults,
    GameDefaultsDiff, LauncherConfig, LauncherConfigDiff,
};

fn launcher() -> LauncherConfig {
    LauncherConfig {
        theme: "dark".to_string(),
        language: "zh-CN".to_string(),
        cluster_path: None,
        window_width: 1280,
        window_height: 720,
        download_concurrency: 8,
        game: GameDefaults {
            java_path: None,
            max_memory_mb: 4096,
            window_width: 854,
            window_height: 480,
            jvm_args: String::new(),
        },
    }
}

#[test]
fn launcher_diff_replaces_given_fields_only() {
    let mut c = launcher();
    let diff = LauncherConfigDiff {
        theme: Some("light".to_string()),
        language: Some("en-US".to_string()),
        ..Default::default()
    };
    apply_launcher_diff(&mut c, diff);
    assert_eq!(c.theme, "light");
    assert_eq!(c.language, "en-US");
    assert_eq!(c.window_width, 1280);
    assert_eq!(c.game.max_memory_mb, 4096);
}

#[test]
fn launcher_diff_reaches_game_defaults() {
    let mut c = launcher();
    let diff = LauncherConfigDiff {
        cluster_path: Some("/tmp/cluster".to_string()),
        game: Some(GameDefaultsDiff { max_memory_mb: Some(8192), ..Default::default() }),
        ..Default::default()
    };
    apply_launcher_diff(&mut c, diff);
    assert_eq!(c.cluster_path.as_deref(), Some("/tmp/cluster"));
    assert_eq!(c.game.max_memory_mb, 8192);
    assert_eq!(c.game.window_width, 854);
}

#[test]
fn game_diff_sets_options() {
    let mut c = GameConfig {
        java_path: None,
        max_memory_mb: None,
        window_width: Some(1000),
        window_height: None,
        jvm_args: None,
        game_args: None,
    };
    let diff = GameConfigDiff {
        max_memory_mb: Some(8192),
        jvm_args: Some("-Xms512M".into()),
        ..Default::default()
    };
    apply_game_diff(&mut c, diff);
    assert_eq!(c.max_memory_mb, Some(8192));
    assert_eq!(c.jvm_args, Some("-Xms512M".into()));
    assert_eq!(c.window_width, Some(1000));
}

#[test]
fn validation_reports_first_violation() {
    let mut c = launcher();
    assert!(validate(&c).is_ok());
    c.game.max_memory_mb = 100;
    assert_eq!(validate(&c).unwrap_err(), "max_memory_mb must be between 512 and 65536");
    c.window_height = 3000;
    assert_eq!(validate(&c).unwrap_err(), "window_height must be between 600 and 2160");
    c.window_width = 640;
    assert_eq!(validate(&c).unwrap_err(), "window_width must be between 800 and 3840");
    c.download_concurrency = 0;
    assert_eq!(validate(&c).unwrap_err(), "download_concurrency must be > 0");
    let mut edge = launcher();
    edge.window_width = 3840;
    edge.window_height = 600;
    edge.game.max_memory_mb = 65536;
    assert!(validate(&edge).is_ok());
}

#[test]
fn offline_uuid_is_name_based() {
    let a = offline_uuid("Steve");
    assert_eq!(a, offline_uuid("Steve"));
    assert_ne!(a, offline_uuid("Alex"));
    assert_ne!(a, 0);
    assert_eq!((a >> 76) & 0xf, 5);
    let acc = Account::offline("Steve");
    assert_eq!(acc.username(), "Steve");
    assert_eq!(acc.uuid(), a);
    assert!(acc.is_offline());
    assert!(acc.access_token().is_none());
}

#[test]
fn microsoft_account_has_token() {
    let acc = Account::Microsoft { username: "Alex".to_string(), uuid: 7, access_token: "tok".to_string() };
    assert_eq!(acc.access_token(), Some("tok"));
    assert!(!acc.is_offline());
    assert_eq!(acc.uuid(), 7);
}

#[test]
fn removing_accounts_keeps_selection() {
    let mut m = AccountManager::new();
    assert!(m.current().is_none());
    assert_eq!(m.add_offline("a"), 0);
    assert_eq!(m.add_offline("b"), 1);
    assert_eq!(m.add_offline("c"), 2);
    assert_eq!(m.current().unwrap().username(), "c");
    m.remove(0);
    assert_eq!(m.list().len(), 2);
    assert_eq!(m.current().unwrap().username(), "c");
    m.remove(1);
    assert!(m.current().is_none());
    m.select(Some(0));
    m.remove(5);
    assert_eq!(m.current().unwrap().username(), "b");
    m.select(Some(9));
    assert!(m.current().is_none());
}
