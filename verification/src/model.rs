//! The games and friends the client shows, and what it derives from them
//! for display: labels, links and colours.

use vstd::prelude::*;
use crate::sorting::Ranked;
use crate::text::{chars_of, decimal, push_decimal, push_str, starts_with, starts_with_seq};

verus! {

/// A game of the user's library.
#[derive(Debug)]
pub struct Game {
    pub appid: u64,
    pub name: String,
    pub playtime_forever: u64,
    pub installed: bool,
}

/// A game, with its name as characters.
pub struct GameView {
    pub appid: u64,
    pub name: Seq<char>,
    pub playtime_forever: u64,
    pub installed: bool,
}

impl View for Game {
    type V = GameView;

    open spec fn view(&self) -> GameView {
        GameView {
            appid: self.appid,
            name: self.name@,
            playtime_forever: self.playtime_forever,
            installed: self.installed,
        }
    }
}

impl Clone for Game {
    fn clone(&self) -> (r: Self)
        ensures
            r@ == self@,
    {
        Game {
            appid: self.appid,
            name: self.name.clone(),
            playtime_forever: self.playtime_forever,
            installed: self.installed,
        }
    }
}

/// How the library orders games: installed ones first, then by playtime,
/// longest first.
pub open spec fn game_rank(g: GameView) -> int {
    (if g.installed {
        0x1_0000_0000_0000_0000int
    } else {
        0int
    }) + g.playtime_forever
}

impl Ranked for Game {
    open spec fn rank(v: GameView) -> int {
        game_rank(v)
    }

    fn rank_at_least(&self, other: &Self) -> (r: bool) {
        if self.installed != other.installed {
            self.installed
        } else {
            self.playtime_forever >= other.playtime_forever
        }
    }
}

/// How a game's playtime is shown: a ready text, or the playtime in
/// minutes to be shown in hours with one decimal.
#[derive(Debug, PartialEq, Eq)]
pub enum PlaytimeLabel {
    Text(String),
    Hours(u64),
}

/// The prefix of the placeholder name of a game whose name is not known.
pub open spec fn placeholder_prefix() -> Seq<char> {
    "App "@
}

/// The placeholder name of a game whose name is not known: `App <appid>`.
pub open spec fn placeholder_name(appid: u64) -> Seq<char> {
    placeholder_prefix() + decimal(appid as nat)
}

/// The header image of a game in Steam's CDN.
pub open spec fn img_url_of(appid: u64) -> Seq<char> {
    "https://cdn.cloudflare.steamstatic.com/steam/apps/"@ + decimal(appid as nat)
        + "/header.jpg"@
}

/// The link that makes the Steam client start a game.
pub open spec fn launch_url_of(appid: u64) -> Seq<char> {
    "steam://run/"@ + decimal(appid as nat)
}

/// A game's page in the Steam store.
pub open spec fn store_url_of(appid: u64) -> Seq<char> {
    "https://store.steampowered.com/app/"@ + decimal(appid as nat)
}

/// The link that makes the Steam client install a game.
pub open spec fn install_url_of(appid: u64) -> Seq<char> {
    "steam://install/"@ + decimal(appid as nat)
}

/// A name is real when it is not a placeholder (does not start with `App `).
pub open spec fn is_real_name(name: Seq<char>) -> bool {
    !starts_with_seq(name, placeholder_prefix())
}

/// The playtime label: `Sin jugar` for none, minutes below an hour,
/// otherwise hours.
pub open spec fn playtime_label_of(minutes: u64) -> PlaytimeLabelView {
    if minutes == 0 {
        PlaytimeLabelView::Text("Sin jugar"@)
    } else if minutes < 60 {
        PlaytimeLabelView::Text(decimal(minutes as nat) + " min"@)
    } else {
        PlaytimeLabelView::Hours(minutes)
    }
}

/// A playtime label, with its text as characters.
pub enum PlaytimeLabelView {
    Text(Seq<char>),
    Hours(u64),
}

impl View for PlaytimeLabel {
    type V = PlaytimeLabelView;

    open spec fn view(&self) -> PlaytimeLabelView {
        match self {
            PlaytimeLabel::Text(t) => PlaytimeLabelView::Text(t@),
            PlaytimeLabel::Hours(m) => PlaytimeLabelView::Hours(*m),
        }
    }
}

/// The string `prefix` followed by the decimal digits of `n`.
fn prefixed_decimal(prefix: &str, n: u64) -> (r: String)
    ensures
        r@ == prefix@ + decimal(n as nat),
{
    let mut s = String::new();
    push_str(&mut s, prefix);
    push_decimal(&mut s, n);
    assert(Seq::<char>::empty() + prefix@ =~= prefix@);
    s
}

/// The placeholder name `App <appid>`.
pub fn placeholder(appid: u64) -> (r: String)
    ensures
        r@ == placeholder_name(appid),
{
    prefixed_decimal("App ", appid)
}

/// The install link of a game (`steam://install/<appid>`).
pub fn install_url(appid: u64) -> (r: String)
    ensures
        r@ == install_url_of(appid),
{
    prefixed_decimal("steam://install/", appid)
}

impl Game {
    /// How the playtime is shown on the game's card.
    pub fn playtime_str(&self) -> (r: PlaytimeLabel)
        ensures
            r@ == playtime_label_of(self.playtime_forever),
    {
        if self.playtime_forever == 0 {
            let t = "Sin jugar".to_owned();
            PlaytimeLabel::Text(t)
        } else if self.playtime_forever < 60 {
            let mut s = String::new();
            push_decimal(&mut s, self.playtime_forever);
            push_str(&mut s, " min");
            assert(Seq::<char>::empty() + decimal(self.playtime_forever as nat) =~= decimal(
                self.playtime_forever as nat,
            ));
            PlaytimeLabel::Text(s)
        } else {
            PlaytimeLabel::Hours(self.playtime_forever)
        }
    }

    /// The game's header image.
    pub fn img_url(&self) -> (r: String)
        ensures
            r@ == img_url_of(self.appid),
    {
        let mut s = prefixed_decimal("https://cdn.cloudflare.steamstatic.com/steam/apps/", self.appid);
        push_str(&mut s, "/header.jpg");
        s
    }

    /// The link that starts the game.
    pub fn launch_url(&self) -> (r: String)
        ensures
            r@ == launch_url_of(self.appid),
    {
        prefixed_decimal("steam://run/", self.appid)
    }

    /// The game's store page.
    pub fn store_url(&self) -> (r: String)
        ensures
            r@ == store_url_of(self.appid),
    {
        prefixed_decimal("https://store.steampowered.com/app/", self.appid)
    }

    /// Whether the game's name is known (not the `App <appid>` placeholder).
    pub fn has_real_name(&self) -> (r: bool)
        ensures
            r == is_real_name(self.name@),
    {
        let n = chars_of(self.name.as_str());
        let p = chars_of("App ");
        !starts_with(n.as_slice(), p.as_slice())
    }
}

/// A colour as red, green and blue components.
#[derive(Debug, Clone, Copy, PartialEq, Eq, Structural)]
pub struct Rgb {
    pub r: u8,
    pub g: u8,
    pub b: u8,
}

/// A friend from the user's friend list.
#[derive(Debug)]
pub struct Friend {
    pub name: String,
    pub state: u8,
    pub game: Option<String>,
}

/// A friend, with the texts as characters.
pub struct FriendView {
    pub name: Seq<char>,
    pub state: u8,
    pub game: Option<Seq<char>>,
}

impl View for Friend {
    type V = FriendView;

    open spec fn view(&self) -> FriendView {
        FriendView {
            name: self.name@,
            state: self.state,
            game: match self.game {
                Some(g) => Some(g@),
                None => None,
            },
        }
    }
}

impl Clone for Friend {
    fn clone(&self) -> (r: Self)
        ensures
            r@ == self@,
    {
        Friend {
            name: self.name.clone(),
            state: self.state,
            game: match &self.game {
                Some(g) => Some(g.clone()),
                None => None,
            },
        }
    }
}

impl Ranked for Friend {
    open spec fn rank(v: FriendView) -> int {
        v.state as int
    }

    fn rank_at_least(&self, other: &Self) -> (r: bool) {
        self.state >= other.state
    }
}

/// The label of a persona state.
pub open spec fn status_label_of(state: u8) -> Seq<char> {
    if state == 1 {
        "En línea"@
    } else if state == 2 {
        "Ocupado"@
    } else if state == 3 {
        "Ausente"@
    } else {
        "Desconectado"@
    }
}

/// The colour of a persona state.
pub open spec fn state_color_of(state: u8) -> Rgb {
    if state == 1 {
        Rgb { r: 74, g: 197, b: 90 }
    } else if state == 2 {
        Rgb { r: 200, g: 80, b: 80 }
    } else if state == 3 {
        Rgb { r: 200, g: 160, b: 40 }
    } else {
        Rgb { r: 65, g: 80, b: 100 }
    }
}

impl Friend {
    /// The label of the friend's persona state.
    pub fn status_label(&self) -> (r: &'static str)
        ensures
            r@ == status_label_of(self.state),
    {
        if self.state == 1 {
            "En línea"
        } else if self.state == 2 {
            "Ocupado"
        } else if self.state == 3 {
            "Ausente"
        } else {
            "Desconectado"
        }
    }

    /// The colour of the friend's status dot.
    pub fn state_color(&self) -> (r: Rgb)
        ensures
            r == state_color_of(self.state),
    {
        if self.state == 1 {
            Rgb { r: 74, g: 197, b: 90 }
        } else if self.state == 2 {
            Rgb { r: 200, g: 80, b: 80 }
        } else if self.state == 3 {
            Rgb { r: 200, g: 160, b: 40 }
        } else {
            Rgb { r: 65, g: 80, b: 100 }
        }
    }
}

} // verus!
