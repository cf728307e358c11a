use steamlite::display::{
    card_title, friend_initial, title_fits, friend_subtitle, friends_summary, library_status, needs_repaint,
    offline_heading, online_heading, preload_targets, split_presence, steam_path_label,
};
use steamlite::model::{Friend, Game};

#[test]
fn sidebar_status() {
    assert_eq!(library_status(12, true, true), "Cargando biblioteca...");
    assert_eq!(library_status(12, false, true), "12 juegos · Obteniendo nombres...");
    assert_eq!(library_status(0, false, false), "0 juegos en biblioteca");
}

#[test]
fn preload_first_forty() {
    let games: Vec<Game> = (1..=45u64)
        .map(|i| Game { appid: i, name: String::new(), playtime_forever: 0, installed: false })
        .collect();
    let t = preload_targets(&games);
    assert_eq!(t.len(), 40);
    assert_eq!(t[0], (1, "https://cdn.cloudflare.steamstatic.com/steam/apps/1/header.jpg".to_string()));
    assert_eq!(t[39].0, 40);
    assert_eq!(preload_targets(&games[..3].to_vec()).len(), 3);
}

#[test]
fn card_titles() {
    assert_eq!(card_title("Dota 2"), "Dota 2");
    let exact = "a".repeat(28);
    assert_eq!(card_title(&exact), exact);
    let long = "The Elder Scrolls V: Skyrim Special Edition";
    assert_eq!(card_title(long), format!("{}...", &long[..25]));
    assert_eq!(card_title(long), "The Elder Scrolls V: Skyr...");
    // Two-byte characters after 25 ASCII bytes: the cut falls on a boundary.
    let accented = format!("{}{}", "a".repeat(25), "éééé");
    assert_eq!(card_title(&accented), format!("{}...", "a".repeat(25)));
    assert!(card_title(long).len() <= 28);
}

#[test]
fn presence_groups() {
    let f = |n: &str, s: u8| Friend { name: n.to_string(), state: s, game: None };
    let all = vec![f("a", 1), f("b", 0), f("c", 3), f("d", 0)];
    let (on, off) = split_presence(&all);
    let names = |v: &Vec<Friend>| v.iter().map(|x| x.name.clone()).collect::<Vec<String>>();
    assert_eq!(names(&on), vec!["a", "c"]);
    assert_eq!(names(&off), vec!["b", "d"]);
    assert_eq!(on.len() + off.len(), all.len());
    assert_eq!(friends_summary(on.len(), all.len()), "2 en línea  ·  4 total");
    assert_eq!(online_heading(2), "EN LÍNEA — 2");
    assert_eq!(offline_heading(2), "DESCONECTADO — 2");
}

#[test]
fn friend_avatar_and_subtitle() {
    assert_eq!(friend_initial("alice"), "A");
    assert_eq!(friend_initial(""), "?");
    assert_eq!(friend_initial("ßeta"), "SS");
    let playing = Friend { name: "Bob".into(), state: 1, game: Some("Dota 2".into()) };
    assert_eq!(friend_subtitle(&playing), "▶  Dota 2");
    let away = Friend { name: "Bob".into(), state: 3, game: None };
    assert_eq!(friend_subtitle(&away), "Ausente");
}

#[test]
fn settings_and_repaint() {
    assert_eq!(steam_path_label("C:\\Steam"), "Steam: C:\\Steam");
    assert!(needs_repaint(false, false, true));
    assert!(!needs_repaint(false, false, false));
}

#[test]
fn which_titles_can_be_cut() {
    assert!(title_fits("Dota 2"));
    assert!(title_fits(&"a".repeat(28)));
    assert!(title_fits(&"a".repeat(40)));
    // 24 ASCII bytes, then a two-byte letter over bytes 25 and 26: no cut at 25.
    let bad = format!("{}é{}", "a".repeat(24), "b".repeat(10));
    assert!(!title_fits(&bad));
    // Short enough, whatever its letters.
    assert!(title_fits(&format!("{}é", "a".repeat(24))));
    let ok = format!("{}é{}", "a".repeat(23), "b".repeat(10));
    assert!(title_fits(&ok));
    assert_eq!(card_title(&ok), format!("{}é...", "a".repeat(23)));
}
