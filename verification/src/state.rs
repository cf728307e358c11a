//! The client's state between frames and how user actions change it: the
//! first-run setup, tabs and filters, downloads and the login popup.

use vstd::prelude::*;
use crate::model::{install_url, install_url_of, launch_url_of, Game, GameView};
use crate::sorting::views;
use crate::text::{chars_of, contains, contains_seq, lowercase, string_of, to_lowercase, trim, trim_seq};

verus! {

/// The saved configuration: the Steam folder, and the steamcmd user once
/// one has been used.
#[derive(Debug)]
pub struct Config {
    pub steam_path: String,
    pub steam_user: Option<String>,
}

/// A configuration, with its texts as characters.
pub struct ConfigView {
    pub steam_path: Seq<char>,
    pub steam_user: Option<Seq<char>>,
}

pub open spec fn opt_text(o: Option<String>) -> Option<Seq<char>> {
    match o {
        Some(s) => Some(s@),
        None => None,
    }
}

impl View for Config {
    type V = ConfigView;

    open spec fn view(&self) -> ConfigView {
        ConfigView { steam_path: self.steam_path@, steam_user: opt_text(self.steam_user) }
    }
}

impl Clone for Config {
    fn clone(&self) -> (r: Self)
        ensures
            r@ == self@,
    {
        Config {
            steam_path: self.steam_path.clone(),
            steam_user: match &self.steam_user {
                Some(u) => Some(u.clone()),
                None => None,
            },
        }
    }
}

pub open spec fn opt_config(o: Option<Config>) -> Option<ConfigView> {
    match o {
        Some(c) => Some(c@),
        None => None,
    }
}

/// Which screen is shown.
#[derive(Debug, Clone, Copy, PartialEq, Eq, Structural)]
pub enum Screen {
    Setup,
    Main,
}

/// Which tab of the main screen is shown.
#[derive(Debug, Clone, Copy, PartialEq, Eq, Structural)]
pub enum Tab {
    Library,
    Friends,
    Settings,
}

/// What a download needs: where Steam is, the steamcmd credentials, the
/// game, and the configuration to save when it changed.
#[derive(Debug)]
pub struct DownloadJob {
    pub steam_path: String,
    pub user: String,
    pub pass: String,
    pub guard: String,
    pub appid: u64,
    pub config_to_save: Option<Config>,
}

/// The client's state.
#[derive(Debug)]
pub struct SteamLite {
    pub screen: Screen,
    pub config: Option<Config>,
    pub input_path: String,
    pub setup_error: String,
    pub autodetected: bool,
    pub search: String,
    pub tab: Tab,
    pub show_installed_only: bool,
    pub last_played: Option<String>,
    pub steamcmd_user: String,
    pub steamcmd_pass: String,
    pub steamcmd_guard: String,
    pub show_login: bool,
    pub pending_appid: Option<u64>,
}

/// The state, with its texts as characters.
pub struct SteamLiteView {
    pub screen: Screen,
    pub config: Option<ConfigView>,
    pub input_path: Seq<char>,
    pub setup_error: Seq<char>,
    pub autodetected: bool,
    pub search: Seq<char>,
    pub tab: Tab,
    pub show_installed_only: bool,
    pub last_played: Option<Seq<char>>,
    pub steamcmd_user: Seq<char>,
    pub steamcmd_pass: Seq<char>,
    pub steamcmd_guard: Seq<char>,
    pub show_login: bool,
    pub pending_appid: Option<u64>,
}

impl View for SteamLite {
    type V = SteamLiteView;

    open spec fn view(&self) -> SteamLiteView {
        SteamLiteView {
            screen: self.screen,
            config: opt_config(self.config),
            input_path: self.input_path@,
            setup_error: self.setup_error@,
            autodetected: self.autodetected,
            search: self.search@,
            tab: self.tab,
            show_installed_only: self.show_installed_only,
            last_played: opt_text(self.last_played),
            steamcmd_user: self.steamcmd_user@,
            steamcmd_pass: self.steamcmd_pass@,
            steamcmd_guard: self.steamcmd_guard@,
            show_login: self.show_login,
            pending_appid: self.pending_appid,
        }
    }
}

/// The state the client starts in, given the saved configuration (if any)
/// and the Steam folder found on the machine (if any): the main screen when
/// there is a configuration, the setup screen with the found folder filled
/// in otherwise.
pub open spec fn initial_state(config: Option<ConfigView>, detected: Seq<char>) -> SteamLiteView {
    SteamLiteView {
        screen: if config is Some {
            Screen::Main
        } else {
            Screen::Setup
        },
        config,
        input_path: detected,
        setup_error: seq![],
        autodetected: detected.len() > 0,
        search: seq![],
        tab: Tab::Library,
        show_installed_only: false,
        last_played: None,
        steamcmd_user: match config {
            Some(c) => match c.steam_user {
                Some(u) => u,
                None => seq![],
            },
            None => seq![],
        },
        steamcmd_pass: seq![],
        steamcmd_guard: seq![],
        show_login: false,
        pending_appid: None,
    }
}

/// The error shown when the setup path is empty.
pub open spec fn empty_path_error() -> Seq<char> {
    "Introduce la ruta de Steam"@
}

/// The error shown when the setup path has no `steamapps`.
pub open spec fn no_steamapps_error() -> Seq<char> {
    "No se encontró steamapps en esa ruta"@
}

/// The state after submitting the setup path, given whether the trimmed
/// path holds a `steamapps` folder: an error for an empty path or a missing
/// `steamapps`, otherwise the path becomes the configuration and the main
/// screen shows.
pub open spec fn after_setup(s: SteamLiteView, steamapps_found: bool) -> SteamLiteView {
    let path = trim_seq(s.input_path);
    if path.len() == 0 {
        SteamLiteView { setup_error: empty_path_error(), ..s }
    } else if !steamapps_found {
        SteamLiteView { setup_error: no_steamapps_error(), ..s }
    } else {
        SteamLiteView {
            config: Some(ConfigView { steam_path: path, steam_user: None }),
            setup_error: seq![],
            screen: Screen::Main,
            ..s
        }
    }
}

/// The state after asking to download `appid`: without both steamcmd user
/// and password, the login popup opens for it; otherwise the user is
/// remembered in the configuration.
pub open spec fn after_download_request(s: SteamLiteView, appid: u64) -> SteamLiteView {
    if s.steamcmd_user.len() == 0 || s.steamcmd_pass.len() == 0 {
        SteamLiteView { pending_appid: Some(appid), show_login: true, ..s }
    } else {
        SteamLiteView {
            config: match s.config {
                Some(c) => Some(ConfigView { steam_user: Some(s.steamcmd_user), ..c }),
                None => None,
            },
            ..s
        }
    }
}

/// The download a request starts, when the credentials are there.
pub open spec fn download_job_is(s: SteamLiteView, appid: u64, job: DownloadJob) -> bool {
    &&& job.steam_path@ == match s.config {
        Some(c) => c.steam_path,
        None => seq![],
    }
    &&& job.user@ == s.steamcmd_user
    &&& job.pass@ == s.steamcmd_pass
    &&& job.guard@ == s.steamcmd_guard
    &&& job.appid == appid
    &&& opt_config(job.config_to_save) == after_download_request(s, appid).config
}

/// A game is shown when its lowercased name contains the lowercased search
/// (or the search is empty) and, with the installed filter on, it is installed.
pub open spec fn shown(g: GameView, search: Seq<char>, installed_only: bool) -> bool {
    (lowercase(search).len() == 0 || contains_seq(lowercase(g.name), lowercase(search))) && (
    !installed_only || g.installed)
}

/// The games shown, in library order.
pub open spec fn shown_games(gs: Seq<GameView>, search: Seq<char>, installed_only: bool) -> Seq<
    GameView,
>
    decreases gs.len(),
{
    if gs.len() == 0 {
        seq![]
    } else if shown(gs.last(), search, installed_only) {
        shown_games(gs.drop_last(), search, installed_only).push(gs.last())
    } else {
        shown_games(gs.drop_last(), search, installed_only)
    }
}

impl SteamLite {
    /// The state at start (see `initial_state`): `config` is the saved
    /// configuration, `detected_steam` the Steam folder found on the machine.
    pub fn new(config: Option<Config>, detected_steam: Option<String>) -> (r: SteamLite)
        ensures
            r@ == initial_state(
                opt_config(config),
                match detected_steam {
                    Some(d) => d@,
                    None => seq![],
                },
            ),
    {
        let screen = if config.is_some() {
            Screen::Main
        } else {
            Screen::Setup
        };
        let auto = match detected_steam {
            Some(d) => d,
            None => String::new(),
        };
        let user = match &config {
            Some(c) => match &c.steam_user {
                Some(u) => u.clone(),
                None => String::new(),
            },
            None => String::new(),
        };
        let autodetected = !auto.as_str().is_empty();
        SteamLite {
            screen,
            config,
            input_path: auto,
            setup_error: String::new(),
            autodetected,
            search: String::new(),
            tab: Tab::Library,
            show_installed_only: false,
            last_played: None,
            steamcmd_user: user,
            steamcmd_pass: String::new(),
            steamcmd_guard: String::new(),
            show_login: false,
            pending_appid: None,
        }
    }

    /// The setup path as submitted: the input, trimmed.
    pub fn setup_path(&self) -> (r: String)
        ensures
            r@ == trim_seq(self.input_path@),
    {
        let c = chars_of(self.input_path.as_str());
        let t = trim(c.as_slice());
        string_of(t.as_slice())
    }

    /// Submits the setup path, given whether the trimmed path holds a
    /// `steamapps` folder (see `after_setup`); returns the configuration to
    /// save when it is accepted.
    pub fn apply_setup(&mut self, steamapps_found: bool) -> (r: Option<Config>)
        ensures
            final(self)@ == after_setup(old(self)@, steamapps_found),
            opt_config(r) == if final(self)@.screen == Screen::Main && trim_seq(old(self)@.input_path).len() > 0
                && steamapps_found {
                final(self)@.config
            } else {
                None
            },
    {
        let path = self.setup_path();
        if path.as_str().is_empty() {
            self.setup_error = "Introduce la ruta de Steam".to_owned();
            return None;
        }
        if !steamapps_found {
            self.setup_error = "No se encontró steamapps en esa ruta".to_owned();
            return None;
        }
        let cfg = Config { steam_path: path, steam_user: None };
        let saved = cfg.clone();
        self.config = Some(cfg);
        self.setup_error = String::new();
        self.screen = Screen::Main;
        Some(saved)
    }

    /// Submits the setup path, looking on disk for its `steamapps` folder
    /// (`do_setup`). Whether it is there is the disk's matter: the state
    /// after is `after_setup` for one of the two answers, and an empty path
    /// is refused without looking.
    pub fn do_setup(&mut self) -> (r: Option<Config>)
        ensures
            exists|found: bool| final(self)@ == after_setup(old(self)@, found),
            trim_seq(old(self)@.input_path).len() == 0 ==> final(self)@ == after_setup(
                old(self)@,
                false,
            ) && r is None,
            r matches Some(c) ==> c@ == (ConfigView {
                steam_path: trim_seq(old(self)@.input_path),
                steam_user: None,
            }),
    {
        let path = self.setup_path();
        let found = if path.as_str().is_empty() {
            false
        } else {
            crate::steam::has_steamapps(path.as_str())
        };
        self.apply_setup(found)
    }

    /// Asks to download `appid` (see `after_download_request`); returns the
    /// download to start when the credentials are there.
    pub fn do_download(&mut self, appid: u64) -> (r: Option<DownloadJob>)
        ensures
            final(self)@ == after_download_request(old(self)@, appid),
            match r {
                Some(job) => old(self)@.steamcmd_user.len() > 0 && old(self)@.steamcmd_pass.len()
                    > 0 && download_job_is(old(self)@, appid, job),
                None => old(self)@.steamcmd_user.len() == 0 || old(self)@.steamcmd_pass.len()
                    == 0,
            },
    {
        if self.steamcmd_user.as_str().is_empty() || self.steamcmd_pass.as_str().is_empty() {
            self.pending_appid = Some(appid);
            self.show_login = true;
            return None;
        }
        let path = match &self.config {
            Some(c) => c.steam_path.clone(),
            None => String::new(),
        };
        let user = self.steamcmd_user.clone();
        let pass = self.steamcmd_pass.clone();
        let guard = self.steamcmd_guard.clone();
        let saved = match self.config.take() {
            Some(c) => {
                let updated = Config { steam_path: c.steam_path, steam_user: Some(user.clone()) };
                let saved = updated.clone();
                self.config = Some(updated);
                Some(saved)
            },
            None => None,
        };
        Some(DownloadJob { steam_path: path, user, pass, guard, appid, config_to_save: saved })
    }

    /// The popup's download button: for the game waiting on it, closes the
    /// popup, asks for the download again, and forgets the waiting game.
    pub fn confirm_login(&mut self) -> (r: Option<DownloadJob>)
        ensures
            match old(self)@.pending_appid {
                None => final(self)@ == old(self)@ && r is None,
                Some(id) => {
                    let closed = SteamLiteView { show_login: false, ..old(self)@ };
                    let asked = after_download_request(closed, id);
                    &&& final(self)@ == SteamLiteView { pending_appid: None, ..asked }
                    &&& match r {
                        Some(job) => download_job_is(closed, id, job) && closed.steamcmd_user.len() > 0
                            && closed.steamcmd_pass.len() > 0,
                        None => closed.steamcmd_user.len() == 0 || closed.steamcmd_pass.len() == 0,
                    }
                },
            },
    {
        match self.pending_appid {
            Some(id) => {
                self.show_login = false;
                let job = self.do_download(id);
                self.pending_appid = None;
                job
            },
            None => None,
        }
    }

    /// The popup's cancel button: closes the popup and, for the game waiting
    /// on it, gives the link that hands the install to the Steam client.
    pub fn cancel_login(&mut self) -> (r: Option<String>)
        ensures
            final(self)@ == (SteamLiteView { show_login: false, pending_appid: None, ..old(self)@ }),
            match old(self)@.pending_appid {
                Some(id) => r matches Some(u) && u@ == install_url_of(id),
                None => r is None,
            },
    {
        self.show_login = false;
        match self.pending_appid {
            Some(id) => {
                self.pending_appid = None;
                Some(install_url(id))
            },
            None => None,
        }
    }

    /// The popup was closed with its window button.
    pub fn close_login(&mut self)
        ensures
            final(self)@ == (SteamLiteView { show_login: false, ..old(self)@ }),
    {
        self.show_login = false;
    }

    /// Logging out or resetting: the configuration is dropped and the setup
    /// screen shows.
    pub fn logout(&mut self)
        ensures
            final(self)@ == (SteamLiteView { config: None, screen: Screen::Setup, ..old(self)@ }),
    {
        self.config = None;
        self.screen = Screen::Setup;
    }

    /// Launching a game: it becomes the last played; returns its launch link.
    pub fn record_launch(&mut self, game: &Game) -> (r: String)
        ensures
            final(self)@ == (SteamLiteView { last_played: Some(game.name@), ..old(self)@ }),
            r@ == launch_url_of(game.appid),
    {
        self.last_played = Some(game.name.clone());
        game.launch_url()
    }

    /// The Steam folder to load the library from: none without a configuration.
    pub fn reload_path(&self) -> (r: Option<String>)
        ensures
            match self@.config {
                Some(c) => r matches Some(p) && p@ == c.steam_path,
                None => r is None,
            },
    {
        match &self.config {
            Some(c) => Some(c.steam_path.clone()),
            None => None,
        }
    }

    /// Whether the library should be loaded now: on the main screen, with no
    /// games and nothing loading.
    pub fn should_autoload(&self, no_games: bool, loading: bool) -> (r: bool)
        ensures
            r == (self.screen == Screen::Main && no_games && !loading),
    {
        self.screen == Screen::Main && no_games && !loading
    }

    /// The games of the library the search and the installed filter show.
    pub fn visible_games(&self, games: &Vec<Game>) -> (r: Vec<Game>)
        ensures
            views(r@) == shown_games(views(games@), self.search@, self.show_installed_only),
    {
        let sc = chars_of(self.search.as_str());
        let q = to_lowercase(sc.as_slice());
        let ghost gs = views(games@);
        let mut r: Vec<Game> = Vec::new();
        let mut i: usize = 0;
        assert(gs.take(0) =~= Seq::<GameView>::empty());
        assert(views(r@) =~= Seq::<GameView>::empty());
        while i < games.len()
            invariant
                i <= games@.len(),
                gs == views(games@),
                q@ == lowercase(self.search@),
                views(r@) == shown_games(gs.take(i as int), self.search@, self.show_installed_only),
            decreases games@.len() - i,
        {
            assert(gs.take(i + 1).drop_last() =~= gs.take(i as int));
            assert(gs.take(i + 1).last() == games@[i as int]@);
            let g = &games[i];
            let name_ok = if q.len() == 0 {
                true
            } else {
                let nc = chars_of(g.name.as_str());
                let nl = to_lowercase(nc.as_slice());
                contains(nl.as_slice(), q.as_slice())
            };
            let filter_ok = !self.show_installed_only || g.installed;
            if name_ok && filter_ok {
                let ghost before = r@;
                r.push(g.clone());
                assert(views(r@) =~= views(before).push(games@[i as int]@));
            }
            i = i + 1;
        }
        assert(gs.take(i as int) =~= gs);
        r
    }
}

} // verus!
