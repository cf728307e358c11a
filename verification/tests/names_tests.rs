use std::collections::HashMap;
use steamlite::model::Game;
use steamlite::names::{
    app_name_from_details, appdetails_url, apply_resolved_name, ids_to_resolve, names_cache_from,
    needs_name_resolution, JsonValue,
};

fn game(appid: u64, name: &str) -> Game {
    Game { appid, name: name.to_string(), playtime_forever: 0, installed: false }
}

#[test]
fn ids_to_resolve_takes_unnamed_uncached_games_in_order() {
    let games = vec![game(1, "App 1"), game(2, "Real"), game(3, "App 3"), game(4, "App 4")];
    let mut cache = HashMap::new();
    cache.insert(3u64, "Three".to_string());
    assert_eq!(ids_to_resolve(&games, &cache), vec![1, 4]);
}

#[test]
fn ids_to_resolve_asks_for_at_most_fifteen() {
    let games: Vec<Game> = (1..=20).map(|i| game(i, &format!("App {}", i))).collect();
    let cache = HashMap::new();
    assert_eq!(ids_to_resolve(&games, &cache), (1..=15).collect::<Vec<u64>>());
}

#[test]
fn needs_resolution_only_when_unnamed_and_idle() {
    let named = vec![game(1, "A")];
    let unnamed = vec![game(1, "A"), game(2, "App 2")];
    assert!(!needs_name_resolution(&named, false));
    assert!(needs_name_resolution(&unnamed, false));
    assert!(!needs_name_resolution(&unnamed, true));
    assert!(!needs_name_resolution(&vec![], false));
}

#[test]
fn resolved_name_goes_to_cache_and_first_game() {
    let mut games = vec![game(1, "App 1"), game(2, "App 2"), game(2, "App 2")];
    let mut cache = HashMap::new();
    apply_resolved_name(&mut games, &mut cache, 2, "Two".to_string());
    assert_eq!(cache.get(&2).map(|s| s.as_str()), Some("Two"));
    let names: Vec<&str> = games.iter().map(|g| g.name.as_str()).collect();
    assert_eq!(names, vec!["App 1", "Two", "App 2"]);
    // Not asked for again.
    assert!(!ids_to_resolve(&games, &cache).contains(&2));
    apply_resolved_name(&mut games, &mut cache, 9, "Nine".to_string());
    assert_eq!(cache.len(), 2);
    assert_eq!(games.len(), 3);
}

#[test]
fn appdetails_query() {
    assert_eq!(appdetails_url(440), "https://store.steampowered.com/api/appdetails?appids=440&filters=basic");
}

fn obj(members: Vec<(&str, JsonValue)>) -> JsonValue {
    JsonValue::Object(members.into_iter().map(|(k, v)| (k.to_string(), v)).collect())
}

#[test]
fn app_name_from_store_details() {
    let details = obj(vec![(
        "440",
        obj(vec![
            ("success", JsonValue::Bool(true)),
            ("data", obj(vec![("type", JsonValue::Str("game".into())), ("name", JsonValue::Str("Team Fortress 2".into()))])),
        ]),
    )]);
    assert_eq!(app_name_from_details(&details, 440), Some("Team Fortress 2".to_string()));
    assert_eq!(app_name_from_details(&details, 441), None);
}

#[test]
fn app_name_missing_or_not_text_is_none() {
    let failed = obj(vec![("440", obj(vec![("success", JsonValue::Bool(false))]))]);
    assert_eq!(app_name_from_details(&failed, 440), None);
    let numeric = obj(vec![("440", obj(vec![("data", obj(vec![("name", JsonValue::Number("5".into()))]))]))]);
    assert_eq!(app_name_from_details(&numeric, 440), None);
    let array = obj(vec![("440", obj(vec![("data", JsonValue::Array(vec![]))]))]);
    assert_eq!(app_name_from_details(&array, 440), None);
    assert_eq!(app_name_from_details(&JsonValue::Null, 440), None);
}

#[test]
fn names_cache_reads_json_or_is_empty() {
    let m = names_cache_from(Some("{\"440\":\"Team Fortress 2\",\"570\":\"Dota 2\"}"));
    assert_eq!(m.len(), 2);
    assert_eq!(m.get(&570).map(|s| s.as_str()), Some("Dota 2"));
    assert!(names_cache_from(Some("not json")).is_empty());
    assert!(names_cache_from(Some("{\"x\":\"y\"}")).is_empty());
    assert!(names_cache_from(None).is_empty());
}
