//! Building the game library and the friend list from the contents of
//! Steam's files: the installed games' manifests, each user's
//! `localconfig.vdf`, and the cache of names fetched earlier.

use vstd::prelude::*;
use std::collections::HashMap;
use crate::acf::{acf_val, acf_value};
use crate::model::{placeholder, placeholder_name, Friend, FriendView, Game, GameView};
use crate::sorting::{stable_sort_desc, stable_sorted_desc, views};
use crate::text::{chars_of, ends_with, ends_with_seq, parse_u64, parse_u64_seq, starts_with, starts_with_seq};
use crate::vdf::{apps_entries, friends_in, scan_apps, scan_friends};

verus! {

broadcast use vstd::std_specs::hash::group_hash_axioms;

/// The texts of a sequence of strings.
pub open spec fn texts(v: Seq<String>) -> Seq<Seq<char>> {
    v.map_values(|s: String| s@)
}

/// A file name of an installed game's manifest: `appmanifest_*.acf`.
pub open spec fn is_manifest_name(n: Seq<char>) -> bool {
    starts_with_seq(n, "appmanifest_"@) && ends_with_seq(n, ".acf"@)
}

/// Whether a file in `steamapps` is an installed game's manifest.
pub fn is_manifest_file_name(n: &str) -> (r: bool)
    ensures
        r == is_manifest_name(n@),
{
    let v = chars_of(n);
    let p = chars_of("appmanifest_");
    let s = chars_of(".acf");
    starts_with(v.as_slice(), p.as_slice()) && ends_with(v.as_slice(), s.as_slice())
}

/// The name of a game taken from the cache of fetched names, or its
/// placeholder when the cache does not hold it.
pub open spec fn name_for(cache: Map<u64, String>, id: u64) -> Seq<char> {
    if cache.contains_key(id) {
        cache[id]@
    } else {
        placeholder_name(id)
    }
}

/// The installed game an `appmanifest_*.acf` describes: its `appid` (which
/// must be a number), its `name` (else the cached or placeholder name) and
/// its `playtime_forever` (`0` when missing or not a number).
pub open spec fn manifest_game(content: Seq<char>, cache: Map<u64, String>) -> Option<GameView> {
    match acf_value(content, "appid"@) {
        None => None,
        Some(ids) => match parse_u64_seq(ids) {
            None => None,
            Some(id) => Some(
                GameView {
                    appid: id,
                    name: match acf_value(content, "name"@) {
                        Some(n) => n,
                        None => name_for(cache, id),
                    },
                    playtime_forever: match acf_value(content, "playtime_forever"@) {
                        Some(p) => match parse_u64_seq(p) {
                            Some(v) => v,
                            None => 0,
                        },
                        None => 0,
                    },
                    installed: true,
                },
            ),
        },
    }
}

/// The position of the game with `appid` in `lib` (the last, should there be several).
pub open spec fn position_of(lib: Seq<GameView>, appid: u64) -> Option<int>
    decreases lib.len(),
{
    if lib.len() == 0 {
        None
    } else if lib.last().appid == appid {
        Some(lib.len() - 1)
    } else {
        position_of(lib.drop_last(), appid)
    }
}

/// Where `position_of` points, the game has that appid; when it finds
/// nothing, no game has it.
pub proof fn lemma_position_of(lib: Seq<GameView>, appid: u64)
    ensures
        match position_of(lib, appid) {
            Some(i) => 0 <= i < lib.len() && lib[i].appid == appid,
            None => forall|j: int| 0 <= j < lib.len() ==> lib[j].appid != appid,
        },
    decreases lib.len(),
{
    if lib.len() > 0 {
        lemma_position_of(lib.drop_last(), appid);
        if lib.last().appid != appid {
            assert forall|j: int| 0 <= j < lib.len() - 1 implies lib[j] == lib.drop_last()[j] by {}
        }
    }
}

/// `lib` with `g` in place of the game with the same appid, or added.
pub open spec fn upsert(lib: Seq<GameView>, g: GameView) -> Seq<GameView> {
    match position_of(lib, g.appid) {
        Some(i) => lib.update(i, g),
        None => lib.push(g),
    }
}

/// The installed games of the manifests `ms`, a later manifest replacing an
/// earlier one of the same game.
pub open spec fn installed_library(ms: Seq<Seq<char>>, cache: Map<u64, String>) -> Seq<GameView>
    decreases ms.len(),
{
    if ms.len() == 0 {
        seq![]
    } else {
        let lib = installed_library(ms.drop_last(), cache);
        match manifest_game(ms.last(), cache) {
            Some(g) => upsert(lib, g),
            None => lib,
        }
    }
}

/// A game the user has played but not installed.
pub open spec fn played_game(cache: Map<u64, String>, appid: u64, playtime: u64) -> GameView {
    GameView { appid, name: name_for(cache, appid), playtime_forever: playtime, installed: false }
}

/// `lib` with the played games `entries` that it does not hold yet.
pub open spec fn add_played(
    lib: Seq<GameView>,
    entries: Seq<(u64, u64)>,
    cache: Map<u64, String>,
) -> Seq<GameView>
    decreases entries.len(),
{
    if entries.len() == 0 {
        lib
    } else {
        let acc = add_played(lib, entries.drop_last(), cache);
        let (id, pt) = entries.last();
        if position_of(acc, id) is None {
            acc.push(played_game(cache, id, pt))
        } else {
            acc
        }
    }
}

/// The whole library: the installed games, then the games the users'
/// `localconfig.vdf` files `cs` list that are not among them.
pub open spec fn library_of(
    ms: Seq<Seq<char>>,
    cs: Seq<Seq<char>>,
    cache: Map<u64, String>,
) -> Seq<GameView>
    decreases cs.len(),
{
    if cs.len() == 0 {
        installed_library(ms, cache)
    } else {
        add_played(library_of(ms, cs.drop_last(), cache), apps_entries(cs.last()), cache)
    }
}

/// The friends listed in the `localconfig.vdf` files `cs`, file after file.
pub open spec fn friends_of(cs: Seq<Seq<char>>) -> Seq<FriendView>
    decreases cs.len(),
{
    if cs.len() == 0 {
        seq![]
    } else {
        friends_of(cs.drop_last()) + friends_in(cs.last())
    }
}

/// The error given when no game is found.
pub open spec fn no_games_message() -> Seq<char> {
    "No se encontraron juegos."@
}

/// The error given when the Steam folder has no `steamapps`.
pub open spec fn no_steamapps_message(path: Seq<char>) -> Seq<char> {
    "No se encontró steamapps en "@ + path
}

/// The message for a Steam folder without `steamapps`.
pub fn steamapps_missing_message(path: &str) -> (r: String)
    ensures
        r@ == no_steamapps_message(path@),
{
    let mut s = "No se encontró steamapps en ".to_owned();
    crate::text::push_str(&mut s, path);
    s
}

/// The name of a game from the cache, or its placeholder.
fn cached_name(cache: &HashMap<u64, String>, id: u64) -> (r: String)
    ensures
        r@ == name_for(cache@, id),
{
    match cache.get(&id) {
        Some(n) => n.clone(),
        None => placeholder(id),
    }
}

/// The installed game described by a manifest (see `manifest_game`).
pub fn game_from_manifest(content: &str, cache: &HashMap<u64, String>) -> (r: Option<Game>)
    ensures
        match r {
            Some(g) => manifest_game(content@, cache@) == Some(g@),
            None => manifest_game(content@, cache@) is None,
        },
{
    let ids = match acf_val(content, "appid") {
        Some(s) => s,
        None => return None,
    };
    let idc = chars_of(ids.as_str());
    let id = match parse_u64(idc.as_slice()) {
        Some(i) => i,
        None => return None,
    };
    let name = match acf_val(content, "name") {
        Some(n) => n,
        None => cached_name(cache, id),
    };
    let pt = match acf_val(content, "playtime_forever") {
        Some(p) => {
            let pc = chars_of(p.as_str());
            match parse_u64(pc.as_slice()) {
                Some(v) => v,
                None => 0,
            }
        },
        None => 0,
    };
    Some(Game { appid: id, name, playtime_forever: pt, installed: true })
}

/// The position of the game with `appid` in `lib` (see `position_of`).
fn find_game(lib: &Vec<Game>, appid: u64) -> (r: Option<usize>)
    ensures
        match r {
            Some(i) => position_of(views(lib@), appid) == Some(i as int),
            None => position_of(views(lib@), appid) is None,
        },
{
    let ghost v = views(lib@);
    let mut n: usize = lib.len();
    assert(v.take(n as int) =~= v);
    while n > 0
        invariant
            n <= lib@.len(),
            v == views(lib@),
            position_of(v, appid) == position_of(v.take(n as int), appid),
        decreases n,
    {
        let ghost t = v.take(n as int);
        assert(t.last() == lib@[n - 1]@);
        if lib[n - 1].appid == appid {
            return Some(n - 1);
        }
        assert(t.drop_last() =~= v.take(n - 1));
        n = n - 1;
    }
    None
}

proof fn lemma_views_push(s: Seq<Game>, g: Game)
    ensures
        views(s.push(g)) == views(s).push(g@),
{
    assert(views(s.push(g)) =~= views(s).push(g@));
}

proof fn lemma_views_update(s: Seq<Game>, i: int, g: Game)
    requires
        0 <= i < s.len(),
    ensures
        views(s.update(i, g)) == views(s).update(i, g@),
{
    assert(views(s.update(i, g)) =~= views(s).update(i, g@));
}

/// Puts `g` in `lib`, in place of the game with the same appid if there is one.
fn upsert_game(lib: &mut Vec<Game>, g: Game)
    ensures
        views(final(lib)@) == upsert(views(old(lib)@), g@),
{
    match find_game(lib, g.appid) {
        Some(i) => {
            proof {
                lemma_position_of(views(lib@), g.appid);
                lemma_views_update(lib@, i as int, g);
            }
            lib.set(i, g);
        },
        None => {
            proof {
                lemma_views_push(lib@, g);
            }
            lib.push(g);
        },
    }
}

/// Adds the played games `entries` that `lib` does not hold yet.
fn add_played_games(lib: &mut Vec<Game>, entries: &Vec<(u64, u64)>, cache: &HashMap<u64, String>)
    ensures
        views(final(lib)@) == add_played(views(old(lib)@), entries@, cache@),
{
    let ghost start = views(lib@);
    let mut i: usize = 0;
    assert(entries@.take(0) =~= Seq::<(u64, u64)>::empty());
    while i < entries.len()
        invariant
            i <= entries@.len(),
            views(lib@) == add_played(start, entries@.take(i as int), cache@),
        decreases entries@.len() - i,
    {
        let (id, pt) = entries[i];
        assert(entries@.take(i + 1).drop_last() =~= entries@.take(i as int));
        assert(entries@.take(i + 1).last() == entries@[i as int]);
        match find_game(lib, id) {
            Some(_) => {},
            None => {
                let name = cached_name(cache, id);
                let g = Game { appid: id, name, playtime_forever: pt, installed: false };
                proof {
                    lemma_views_push(lib@, g);
                }
                lib.push(g);
            },
        }
        i = i + 1;
    }
    assert(entries@.take(i as int) =~= entries@);
}

/// The library before sorting (see `library_of`).
fn collect_library(
    manifests: &Vec<String>,
    user_configs: &Vec<String>,
    cache: &HashMap<u64, String>,
) -> (r: Vec<Game>)
    ensures
        views(r@) == library_of(texts(manifests@), texts(user_configs@), cache@),
{
    let ghost ms = texts(manifests@);
    let ghost cs = texts(user_configs@);
    let mut lib: Vec<Game> = Vec::new();
    let mut i: usize = 0;
    assert(ms.take(0) =~= Seq::<Seq<char>>::empty());
    assert(views(lib@) =~= Seq::<GameView>::empty());
    while i < manifests.len()
        invariant
            i <= manifests@.len(),
            ms == texts(manifests@),
            views(lib@) == installed_library(ms.take(i as int), cache@),
        decreases manifests@.len() - i,
    {
        assert(ms.take(i + 1).drop_last() =~= ms.take(i as int));
        assert(ms.take(i + 1).last() == manifests@[i as int]@);
        match game_from_manifest(manifests[i].as_str(), cache) {
            Some(g) => upsert_game(&mut lib, g),
            None => {},
        }
        i = i + 1;
    }
    assert(ms.take(i as int) =~= ms);
    let mut j: usize = 0;
    assert(cs.take(0) =~= Seq::<Seq<char>>::empty());
    while j < user_configs.len()
        invariant
            j <= user_configs@.len(),
            ms == texts(manifests@),
            cs == texts(user_configs@),
            views(lib@) == library_of(ms, cs.take(j as int), cache@),
        decreases user_configs@.len() - j,
    {
        assert(cs.take(j + 1).drop_last() =~= cs.take(j as int));
        assert(cs.take(j + 1).last() == user_configs@[j as int]@);
        let entries = scan_apps(user_configs[j].as_str());
        add_played_games(&mut lib, &entries, cache);
        j = j + 1;
    }
    assert(cs.take(j as int) =~= cs);
    lib
}

/// The game library from the contents of the installed games' manifests
/// (in directory order) and of the users' `localconfig.vdf` files: the
/// games of `library_of`, installed ones first, then by playtime, longest
/// first; an error when there is no game.
pub fn load_games_from(
    manifests: &Vec<String>,
    user_configs: &Vec<String>,
    names_cache: &HashMap<u64, String>,
) -> (r: Result<Vec<Game>, String>)
    ensures
        ({
            let lib = library_of(texts(manifests@), texts(user_configs@), names_cache@);
            match r {
                Ok(games) => lib.len() > 0 && stable_sorted_desc::<Game>(views(games@), lib),
                Err(e) => lib.len() == 0 && e@ == no_games_message(),
            }
        }),
{
    let lib = collect_library(manifests, user_configs, names_cache);
    if lib.len() == 0 {
        return Err("No se encontraron juegos.".to_owned());
    }
    Ok(stable_sort_desc(lib))
}

/// The files of a `steamapps` folder as plain values: each file's name and
/// its contents (`None` when it was not read).
pub open spec fn dir_entries(v: Seq<(String, Option<String>)>) -> Seq<(Seq<char>, Option<Seq<char>>)> {
    v.map_values(
        |e: (String, Option<String>)|
            (
                e.0@,
                match e.1 {
                    Some(c) => Some(c@),
                    None => None,
                },
            ),
    )
}

/// The contents of the installed games' manifests among the files `es`:
/// those named `appmanifest_*.acf` that were read, in directory order.
pub open spec fn manifest_texts(es: Seq<(Seq<char>, Option<Seq<char>>)>) -> Seq<Seq<char>>
    decreases es.len(),
{
    if es.len() == 0 {
        seq![]
    } else {
        let rest = manifest_texts(es.drop_last());
        let (n, c) = es.last();
        match c {
            Some(t) => if is_manifest_name(n) {
                rest.push(t)
            } else {
                rest
            },
            None => rest,
        }
    }
}

/// The manifests among the files of `steamapps` (see `manifest_texts`).
pub fn manifest_contents(entries: &Vec<(String, Option<String>)>) -> (r: Vec<String>)
    ensures
        texts(r@) == manifest_texts(dir_entries(entries@)),
{
    let ghost es = dir_entries(entries@);
    let mut r: Vec<String> = Vec::new();
    let mut i: usize = 0;
    assert(es.take(0) =~= Seq::<(Seq<char>, Option<Seq<char>>)>::empty());
    assert(texts(r@) =~= Seq::<Seq<char>>::empty());
    while i < entries.len()
        invariant
            i <= entries@.len(),
            es == dir_entries(entries@),
            texts(r@) == manifest_texts(es.take(i as int)),
        decreases entries@.len() - i,
    {
        assert(es.take(i + 1).drop_last() =~= es.take(i as int));
        assert(es.take(i + 1).last() == es[i as int]);
        match &entries[i].1 {
            Some(c) => {
                if is_manifest_file_name(entries[i].0.as_str()) {
                    let ghost before = r@;
                    r.push(c.clone());
                    assert(texts(r@) =~= texts(before).push(c@));
                }
            },
            None => {},
        }
        i = i + 1;
    }
    assert(es.take(i as int) =~= es);
    r
}

/// The game library of the Steam folder `path`, given whether it holds
/// `steamapps` (`steamapps_found`), the files of `steamapps` (each name with
/// its contents, `None` when it could not be read) and the contents of the
/// users' `localconfig.vdf` files: the error `No se encontró steamapps en
/// <path>` without `steamapps`, else `load_games_from` of the manifests
/// among the files.
pub fn load_games_found(
    steamapps_found: bool,
    path: &str,
    entries: &Vec<(String, Option<String>)>,
    user_configs: &Vec<String>,
    names_cache: &HashMap<u64, String>,
) -> (r: Result<Vec<Game>, String>)
    ensures
        !steamapps_found ==> (r matches Err(e) && e@ == no_steamapps_message(path@)),
        steamapps_found ==> ({
            let lib = library_of(
                manifest_texts(dir_entries(entries@)),
                texts(user_configs@),
                names_cache@,
            );
            match r {
                Ok(games) => lib.len() > 0 && stable_sorted_desc::<Game>(views(games@), lib),
                Err(e) => lib.len() == 0 && e@ == no_games_message(),
            }
        }),
{
    if !steamapps_found {
        return Err(steamapps_missing_message(path));
    }
    let manifests = manifest_contents(entries);
    load_games_from(&manifests, user_configs, names_cache)
}

/// The friend list from the contents of the users' `localconfig.vdf` files:
/// the friends of `friends_of`, by persona state, highest first, friends of
/// equal state in file order.
pub fn load_friends_from(user_configs: &Vec<String>) -> (r: Vec<Friend>)
    ensures
        stable_sorted_desc::<Friend>(views(r@), friends_of(texts(user_configs@))),
{
    let ghost cs = texts(user_configs@);
    let mut all: Vec<Friend> = Vec::new();
    let mut j: usize = 0;
    assert(cs.take(0) =~= Seq::<Seq<char>>::empty());
    assert(views(all@) =~= Seq::<FriendView>::empty());
    while j < user_configs.len()
        invariant
            j <= user_configs@.len(),
            cs == texts(user_configs@),
            views(all@) == friends_of(cs.take(j as int)),
        decreases user_configs@.len() - j,
    {
        assert(cs.take(j + 1).drop_last() =~= cs.take(j as int));
        assert(cs.take(j + 1).last() == user_configs@[j as int]@);
        let mut found = scan_friends(user_configs[j].as_str());
        let ghost before = views(all@);
        assert(views(found@) =~= friends_in(cs[j as int]));
        all.append(&mut found);
        assert(views(all@) =~= before + friends_in(cs[j as int]));
        j = j + 1;
    }
    assert(cs.take(j as int) =~= cs);
    stable_sort_desc(all)
}

} // verus!
