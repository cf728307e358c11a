use steamlite::model::{install_url, placeholder, Friend, Game, PlaytimeLabel, Rgb};

fn game(appid: u64, name: &str, playtime: u64, installed: bool) -> Game {
    Game { appid, name: name.to_string(), playtime_forever: playtime, installed }
}

#[test]
fn playtime_labels() {
    assert_eq!(game(1, "x", 0, false).playtime_str(), PlaytimeLabel::Text("Sin jugar".to_string()));
    assert_eq!(game(1, "x", 1, false).playtime_str(), PlaytimeLabel::Text("1 min".to_string()));
    assert_eq!(game(1, "x", 59, false).playtime_str(), PlaytimeLabel::Text("59 min".to_string()));
    assert_eq!(game(1, "x", 60, false).playtime_str(), PlaytimeLabel::Hours(60));
    assert_eq!(game(1, "x", 125, false).playtime_str(), PlaytimeLabel::Hours(125));
}

#[test]
fn links_of_a_game() {
    let g = game(570, "Dota 2", 0, true);
    assert_eq!(g.img_url(), "https://cdn.cloudflare.steamstatic.com/steam/apps/570/header.jpg");
    assert_eq!(g.launch_url(), "steam://run/570");
    assert_eq!(g.store_url(), "https://store.steampowered.com/app/570");
    assert_eq!(install_url(570), "steam://install/570");
}

#[test]
fn launch_url_reads_back_the_appid() {
    let g = game(1245620, "Elden Ring", 0, true);
    let url = g.launch_url();
    assert_eq!(url["steam://run/".len()..].parse::<u64>().unwrap(), 1245620);
}

#[test]
fn real_names_and_placeholders() {
    assert!(game(1, "Dota 2", 0, false).has_real_name());
    assert!(!game(1, "App 1", 0, false).has_real_name());
    assert!(game(1, "App", 0, false).has_real_name());
    assert!(game(1, "Apple", 0, false).has_real_name());
    assert_eq!(placeholder(730), "App 730");
    assert!(!game(730, &placeholder(730), 0, false).has_real_name());
}

#[test]
fn friend_status_labels_and_colors() {
    let f = |state: u8| Friend { name: "A".to_string(), state, game: None };
    assert_eq!(f(0).status_label(), "Desconectado");
    assert_eq!(f(1).status_label(), "En línea");
    assert_eq!(f(2).status_label(), "Ocupado");
    assert_eq!(f(3).status_label(), "Ausente");
    assert_eq!(f(7).status_label(), "Desconectado");
    assert_eq!(f(1).state_color(), Rgb { r: 74, g: 197, b: 90 });
    assert_eq!(f(2).state_color(), Rgb { r: 200, g: 80, b: 80 });
    assert_eq!(f(3).state_color(), Rgb { r: 200, g: 160, b: 40 });
    assert_eq!(f(0).state_color(), Rgb { r: 65, g: 80, b: 100 });
}

#[test]
fn clones_keep_every_field() {
    let g = game(9, "N", 3, true).clone();
    assert_eq!((g.appid, g.name.as_str(), g.playtime_forever, g.installed), (9, "N", 3, true));
    let f = Friend { name: "B".to_string(), state: 2, game: Some("G".to_string()) }.clone();
    assert_eq!((f.name.as_str(), f.state, f.game.as_deref()), ("B", 2, Some("G")));
}
