use std::collections::HashMap;
use steamlite::library::{
    game_from_manifest, is_manifest_file_name, load_friends_from, load_games_found, load_games_from,
    manifest_contents, steamapps_missing_message,
};
use steamlite::model::Game;
use steamlite::vdf::{scan_apps, scan_friends};

fn manifest(appid: &str, name: Option<&str>, playtime: Option<&str>) -> String {
    let mut m = format!("\"AppState\"\n{{\n\t\"appid\"\t\t\"{}\"\n", appid);
    if let Some(n) = name {
        m.push_str(&format!("\t\"name\"\t\t\"{}\"\n", n));
    }
    if let Some(p) = playtime {
        m.push_str(&format!("\t\"playtime_forever\"\t\t\"{}\"\n", p));
    }
    m.push_str("}\n");
    m
}

const LOCALCONFIG: &str = "\"UserLocalConfigStore\"\n{\n\t\"Software\"\n\t{\n\t\t\"Valve\"\n\t\t{\n\t\t\t\"Steam\"\n\t\t\t{\n\t\t\t\t\"apps\"\n\t\t\t\t{\n\t\t\t\t\t\"570\"\n\t\t\t\t\t{\n\t\t\t\t\t\t\"LastPlayed\"\t\t\"1700000000\"\n\t\t\t\t\t\t\"Playtime\"\t\t\"1234\"\n\t\t\t\t\t}\n\t\t\t\t\t\"730\"\n\t\t\t\t\t{\n\t\t\t\t\t\t\"Playtime2wks\"\t\t\"5\"\n\t\t\t\t\t}\n\t\t\t\t\t\"440\"\n\t\t\t\t\t{\n\t\t\t\t\t\t\"Playtime\"\t\t\"50\"\n\t\t\t\t\t}\n\t\t\t\t}\n\t\t\t}\n\t\t}\n\t}\n\t\"friends\"\n\t{\n\t\t\"76561198000000001\"\n\t\t{\n\t\t\t\"name\"\t\t\"Alice\"\n\t\t\t\"PersonaState\"\t\t\"1\"\n\t\t}\n\t\t\"76561198000000002\"\n\t\t{\n\t\t\t\"name\"\t\t\"Bob\"\n\t\t\t\"gamename\"\t\t\"Dota 2\"\n\t\t\t\"PersonaState\"\t\t\"3\"\n\t\t}\n\t\t\"76561198000000003\"\n\t\t{\n\t\t\t\"name\"\t\t\"Carol\"\n\t\t}\n\t\t\"76561198000000004\"\n\t\t{\n\t\t\t\"PersonaState\"\t\t\"1\"\n\t\t}\n\t}\n}\n";

fn ids(games: &[Game]) -> Vec<u64> {
    games.iter().map(|g| g.appid).collect()
}

#[test]
fn manifest_file_names() {
    assert!(is_manifest_file_name("appmanifest_570.acf"));
    assert!(!is_manifest_file_name("appmanifest_570.acf.tmp"));
    assert!(!is_manifest_file_name("libraryfolders.vdf"));
    assert!(is_manifest_file_name("appmanifest_.acf"));
}

#[test]
fn game_from_manifest_reads_fields() {
    let cache = HashMap::new();
    let g = game_from_manifest(&manifest("570", Some("Dota 2"), Some("1200")), &cache).unwrap();
    assert_eq!((g.appid, g.name.as_str(), g.playtime_forever, g.installed), (570, "Dota 2", 1200, true));
}

#[test]
fn game_from_manifest_falls_back_for_name_and_playtime() {
    let mut cache = HashMap::new();
    cache.insert(440u64, "Team Fortress 2".to_string());
    let g = game_from_manifest(&manifest("440", None, Some("abc")), &cache).unwrap();
    assert_eq!((g.name.as_str(), g.playtime_forever), ("Team Fortress 2", 0));
    let g = game_from_manifest(&manifest("730", None, None), &cache).unwrap();
    assert_eq!((g.name.as_str(), g.playtime_forever), ("App 730", 0));
    assert!(!g.has_real_name());
}

#[test]
fn game_from_manifest_needs_a_numeric_appid() {
    let cache = HashMap::new();
    assert!(game_from_manifest(&manifest("abc", Some("X"), None), &cache).is_none());
    assert!(game_from_manifest("\"AppState\"\n{\n}\n", &cache).is_none());
}

#[test]
fn scan_apps_reads_playtimes() {
    assert_eq!(scan_apps(LOCALCONFIG), vec![(570, 1234), (730, 0), (440, 50)]);
    assert_eq!(scan_apps("no apps here"), vec![]);
}

#[test]
fn scan_apps_stops_at_the_end_of_the_section() {
    let text = "\"apps\"\n{\n\"1\"\n{\n\"Playtime\" \"2\"\n}\n}\n\"3\"\n{\n}\n";
    assert_eq!(scan_apps(text), vec![(1, 2)]);
}

#[test]
fn scan_friends_reads_named_blocks() {
    let f = scan_friends(LOCALCONFIG);
    let got: Vec<(String, u8, Option<String>)> =
        f.iter().map(|x| (x.name.clone(), x.state, x.game.clone())).collect();
    assert_eq!(
        got,
        vec![
            ("Alice".to_string(), 1, None),
            ("Bob".to_string(), 3, Some("Dota 2".to_string())),
            ("Carol".to_string(), 0, None),
        ]
    );
}

#[test]
fn load_games_orders_installed_then_playtime() {
    let mut cache = HashMap::new();
    cache.insert(440u64, "Team Fortress 2".to_string());
    let manifests = vec![manifest("570", Some("Dota 2"), Some("10")), manifest("620", Some("Portal 2"), None)];
    let games = load_games_from(&manifests, &vec![LOCALCONFIG.to_string()], &cache).unwrap();
    assert_eq!(ids(&games), vec![570, 620, 440, 730]);
    let tf2 = &games[2];
    assert_eq!((tf2.name.as_str(), tf2.playtime_forever, tf2.installed), ("Team Fortress 2", 50, false));
    let cs = &games[3];
    assert_eq!((cs.name.as_str(), cs.installed), ("App 730", false));
    // The installed game keeps the manifest's playtime.
    assert_eq!(games[0].playtime_forever, 10);
}

#[test]
fn load_games_later_manifest_replaces_earlier() {
    let cache = HashMap::new();
    let manifests = vec![manifest("570", Some("Old"), Some("1")), manifest("570", Some("New"), Some("2"))];
    let games = load_games_from(&manifests, &vec![], &cache).unwrap();
    assert_eq!(games.len(), 1);
    assert_eq!(games[0].name, "New");
}

#[test]
fn load_games_without_games_is_an_error() {
    let cache = HashMap::new();
    let r = load_games_from(&vec![], &vec!["\"x\"\n".to_string()], &cache);
    assert_eq!(r.unwrap_err(), "No se encontraron juegos.");
}

#[test]
fn load_games_holds_each_appid_once() {
    let cache = HashMap::new();
    let cfg2 = "\"apps\"\n{\n\"570\"\n{\n\"Playtime\" \"99\"\n}\n\"440\"\n{\n\"Playtime\" \"7\"\n}\n}\n";
    let games = load_games_from(
        &vec![manifest("570", Some("Dota 2"), None)],
        &vec![LOCALCONFIG.to_string(), cfg2.to_string()],
        &cache,
    )
    .unwrap();
    let mut seen = ids(&games);
    seen.sort();
    seen.dedup();
    assert_eq!(seen.len(), games.len());
    // The first user's playtime wins for a game listed twice.
    let tf2 = games.iter().find(|g| g.appid == 440).unwrap();
    assert_eq!(tf2.playtime_forever, 50);
}

#[test]
fn load_friends_sorts_by_state_keeping_file_order() {
    let other = "\"friends\"\n{\n\"9\"\n{\n\"name\"\t\"Dan\"\n\"personastate\"\t\"1\"\n}\n}\n";
    let f = load_friends_from(&vec![LOCALCONFIG.to_string(), other.to_string()]);
    let names: Vec<&str> = f.iter().map(|x| x.name.as_str()).collect();
    assert_eq!(names, vec!["Bob", "Alice", "Dan", "Carol"]);
}

#[test]
fn missing_steamapps_message() {
    assert_eq!(steamapps_missing_message("D:\\Juegos"), "No se encontró steamapps en D:\\Juegos");
}

fn entry(name: &str, content: Option<&str>) -> (String, Option<String>) {
    (name.to_string(), content.map(|c| c.to_string()))
}

#[test]
fn manifests_among_the_files_of_steamapps() {
    let m1 = manifest("570", Some("Dota 2"), None);
    let m2 = manifest("620", None, None);
    let entries = vec![
        entry("appmanifest_570.acf", Some(&m1)),
        entry("libraryfolders.vdf", Some("\"libraryfolders\"\n{\n}\n")),
        entry("appmanifest_10.acf", None),
        entry("appmanifest_620.acf", Some(&m2)),
        entry("appmanifest_1.acf.tmp", Some(&m1)),
    ];
    assert_eq!(manifest_contents(&entries), vec![m1.clone(), m2.clone()]);
}

#[test]
fn load_games_needs_steamapps() {
    let cache = HashMap::new();
    let entries = vec![entry("appmanifest_570.acf", Some(&manifest("570", Some("Dota 2"), None)))];
    let r = load_games_found(false, "D:\\Juegos", &entries, &vec![], &cache);
    assert_eq!(r.unwrap_err(), "No se encontró steamapps en D:\\Juegos");
    let games = load_games_found(true, "D:\\Juegos", &entries, &vec![], &cache).unwrap();
    assert_eq!(ids(&games), vec![570]);
    let none = load_games_found(true, "D:\\Juegos", &vec![], &vec![], &cache);
    assert_eq!(none.unwrap_err(), "No se encontraron juegos.");
}

#[test]
fn other_files_change_nothing() {
    let cache = HashMap::new();
    let m = manifest("570", Some("Dota 2"), Some("3"));
    let plain = vec![entry("appmanifest_570.acf", Some(&m))];
    let with_others = vec![
        entry("workshop", None),
        entry("appmanifest_570.acf", Some(&m)),
        entry("appmanifest_440.acf.bak", Some(&manifest("440", Some("TF2"), None))),
    ];
    let a = load_games_found(true, "/s", &plain, &vec![LOCALCONFIG.to_string()], &cache).unwrap();
    let b = load_games_found(true, "/s", &with_others, &vec![LOCALCONFIG.to_string()], &cache).unwrap();
    let fields = |gs: &[Game]| -> Vec<(u64, String, u64, bool)> {
        gs.iter().map(|g| (g.appid, g.name.clone(), g.playtime_forever, g.installed)).collect()
    };
    assert_eq!(fields(&a), fields(&b));
}

#[test]
fn names_cache_changes_only_names() {
    let mut cache = HashMap::new();
    cache.insert(730u64, "Counter-Strike 2".to_string());
    cache.insert(620u64, "Portal 2".to_string());
    let manifests = vec![manifest("570", Some("Dota 2"), Some("10")), manifest("620", None, None)];
    let cfg = vec![LOCALCONFIG.to_string()];
    let a = load_games_from(&manifests, &cfg, &HashMap::new()).unwrap();
    let b = load_games_from(&manifests, &cfg, &cache).unwrap();
    assert_eq!(a.len(), b.len());
    for (x, y) in a.iter().zip(b.iter()) {
        assert_eq!((x.appid, x.installed, x.playtime_forever), (y.appid, y.installed, y.playtime_forever));
    }
    let names: Vec<&str> = b.iter().map(|g| g.name.as_str()).collect();
    assert_eq!(names, vec!["Dota 2", "Portal 2", "App 440", "Counter-Strike 2"]);
    assert_eq!(a.iter().find(|g| g.appid == 620).unwrap().name, "App 620");
}

#[test]
fn loaded_appids_are_manifests_and_played_games() {
    let cache = HashMap::new();
    let manifests = vec![manifest("570", None, None), manifest("abc", Some("Broken"), None)];
    let games = load_games_from(&manifests, &vec![LOCALCONFIG.to_string()], &cache).unwrap();
    let mut seen = ids(&games);
    seen.sort();
    assert_eq!(seen, vec![440, 570, 730]);
    let dota = games.iter().find(|g| g.appid == 570).unwrap();
    // Installed from its manifest, which has no playtime: 0, not the played 1234.
    assert_eq!((dota.installed, dota.playtime_forever), (true, 0));
}
