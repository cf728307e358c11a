use steamlite::model::Game;
use steamlite::state::{Config, Screen, SteamLite, Tab};

fn cfg(path: &str, user: Option<&str>) -> Config {
    Config { steam_path: path.to_string(), steam_user: user.map(|u| u.to_string()) }
}

fn game(appid: u64, name: &str, installed: bool) -> Game {
    Game { appid, name: name.to_string(), playtime_forever: 0, installed }
}

#[test]
fn new_state_with_and_without_config() {
    let s = SteamLite::new(Some(cfg("C:\\Steam", Some("bob"))), Some("D:\\Steam".to_string()));
    assert_eq!(s.screen, Screen::Main);
    assert_eq!(s.steamcmd_user, "bob");
    assert_eq!(s.input_path, "D:\\Steam");
    assert!(s.autodetected);
    assert_eq!(s.tab, Tab::Library);
    let s = SteamLite::new(None, None);
    assert_eq!(s.screen, Screen::Setup);
    assert_eq!(s.input_path, "");
    assert!(!s.autodetected);
    assert_eq!(s.steamcmd_user, "");
}

#[test]
fn setup_refuses_empty_path() {
    let mut s = SteamLite::new(None, None);
    s.input_path = "   ".to_string();
    assert!(s.apply_setup(true).is_none());
    assert_eq!(s.setup_error, "Introduce la ruta de Steam");
    assert_eq!(s.screen, Screen::Setup);
    assert!(s.do_setup().is_none());
    assert_eq!(s.setup_error, "Introduce la ruta de Steam");
}

#[test]
fn setup_refuses_path_without_steamapps() {
    let mut s = SteamLite::new(None, None);
    s.input_path = " D:\\Nada ".to_string();
    assert!(s.apply_setup(false).is_none());
    assert_eq!(s.setup_error, "No se encontró steamapps en esa ruta");
    assert!(s.config.is_none());
    s.input_path = "/nonexistent/steamlite/setup".to_string();
    assert!(s.do_setup().is_none());
    assert_eq!(s.screen, Screen::Setup);
}

#[test]
fn setup_accepts_trimmed_path() {
    let mut s = SteamLite::new(None, None);
    s.setup_error = "old".to_string();
    s.input_path = "  D:\\Steam\t".to_string();
    let saved = s.apply_setup(true).unwrap();
    assert_eq!(saved.steam_path, "D:\\Steam");
    assert!(saved.steam_user.is_none());
    assert_eq!(s.screen, Screen::Main);
    assert_eq!(s.setup_error, "");
    assert_eq!(s.config.as_ref().unwrap().steam_path, "D:\\Steam");
}

#[test]
fn download_without_credentials_opens_login() {
    let mut s = SteamLite::new(Some(cfg("C:\\Steam", None)), None);
    s.steamcmd_user = "bob".to_string();
    assert!(s.do_download(570).is_none());
    assert!(s.show_login);
    assert_eq!(s.pending_appid, Some(570));
    assert!(s.config.as_ref().unwrap().steam_user.is_none());
}

#[test]
fn download_with_credentials_remembers_user() {
    let mut s = SteamLite::new(Some(cfg("C:\\Steam", None)), None);
    s.steamcmd_user = "bob".to_string();
    s.steamcmd_pass = "pw".to_string();
    s.steamcmd_guard = "G".to_string();
    let job = s.do_download(570).unwrap();
    assert_eq!(
        (job.steam_path.as_str(), job.user.as_str(), job.pass.as_str(), job.guard.as_str(), job.appid),
        ("C:\\Steam", "bob", "pw", "G", 570)
    );
    assert_eq!(job.config_to_save.unwrap().steam_user.as_deref(), Some("bob"));
    assert_eq!(s.config.as_ref().unwrap().steam_user.as_deref(), Some("bob"));
    assert!(!s.show_login);
}

#[test]
fn download_without_config_uses_empty_path() {
    let mut s = SteamLite::new(None, None);
    s.steamcmd_user = "bob".to_string();
    s.steamcmd_pass = "pw".to_string();
    let job = s.do_download(1).unwrap();
    assert_eq!(job.steam_path, "");
    assert!(job.config_to_save.is_none());
}

#[test]
fn login_popup_confirm_and_cancel() {
    let mut s = SteamLite::new(Some(cfg("C:\\Steam", None)), None);
    s.do_download(730);
    // Still no password: the popup reopens but forgets the game.
    assert!(s.confirm_login().is_none());
    assert!(s.show_login);
    assert_eq!(s.pending_appid, None);
    s.do_download(730);
    assert_eq!(s.cancel_login(), Some("steam://install/730".to_string()));
    assert!(!s.show_login);
    assert_eq!(s.pending_appid, None);
    assert_eq!(s.cancel_login(), None);
    s.do_download(440);
    s.steamcmd_user = "u".to_string();
    s.steamcmd_pass = "p".to_string();
    let job = s.confirm_login().unwrap();
    assert_eq!(job.appid, 440);
    assert!(!s.show_login);
    assert_eq!(s.pending_appid, None);
    s.show_login = true;
    s.close_login();
    assert!(!s.show_login);
}

#[test]
fn logout_and_launch() {
    let mut s = SteamLite::new(Some(cfg("C:\\Steam", None)), None);
    let url = s.record_launch(&game(570, "Dota 2", true));
    assert_eq!(url, "steam://run/570");
    assert_eq!(s.last_played.as_deref(), Some("Dota 2"));
    assert_eq!(s.reload_path(), Some("C:\\Steam".to_string()));
    s.logout();
    assert!(s.config.is_none());
    assert_eq!(s.screen, Screen::Setup);
    assert_eq!(s.reload_path(), None);
}

#[test]
fn autoload_only_on_main_screen_without_games() {
    let s = SteamLite::new(Some(cfg("C:\\Steam", None)), None);
    assert!(s.should_autoload(true, false));
    assert!(!s.should_autoload(false, false));
    assert!(!s.should_autoload(true, true));
    let s = SteamLite::new(None, None);
    assert!(!s.should_autoload(true, false));
}

#[test]
fn search_and_installed_filter() {
    let games = vec![game(1, "Dota 2", true), game(2, "DOOM", false), game(3, "Portal", true)];
    let mut s = SteamLite::new(None, None);
    let ids = |v: Vec<Game>| v.iter().map(|g| g.appid).collect::<Vec<u64>>();
    assert_eq!(ids(s.visible_games(&games)), vec![1, 2, 3]);
    s.search = "do".to_string();
    assert_eq!(ids(s.visible_games(&games)), vec![1, 2]);
    s.show_installed_only = true;
    assert_eq!(ids(s.visible_games(&games)), vec![1]);
    s.search = String::new();
    assert_eq!(ids(s.visible_games(&games)), vec![1, 3]);
}
