//! Real names for games that only have a placeholder: which ones to ask the
//! Steam store for, how to read its answer, and the cache of names.

use vstd::prelude::*;
use std::collections::HashMap;
use crate::model::{is_real_name, Game, GameView};
use crate::sorting::views;
use crate::text::{decimal, push_decimal, push_str};

verus! {

broadcast use vstd::std_specs::hash::group_hash_axioms;

/// At most this many names are asked for in one round.
pub const MAX_NAMES_PER_ROUND: usize = 15;

/// The appids of the games, in library order, whose name is a placeholder
/// and that the cache cannot name.
pub open spec fn unnamed_ids(gs: Seq<GameView>, cache: Map<u64, String>) -> Seq<u64>
    decreases gs.len(),
{
    if gs.len() == 0 {
        seq![]
    } else {
        let rest = unnamed_ids(gs.drop_last(), cache);
        let g = gs.last();
        if !is_real_name(g.name) && !cache.contains_key(g.appid) {
            rest.push(g.appid)
        } else {
            rest
        }
    }
}

/// The first `n` elements of `s` (all of them when it is shorter).
pub open spec fn first_n<A>(s: Seq<A>, n: nat) -> Seq<A> {
    if s.len() <= n {
        s
    } else {
        s.take(n as int)
    }
}

/// The appids to ask names for: the first `MAX_NAMES_PER_ROUND` of `unnamed_ids`.
pub fn ids_to_resolve(games: &Vec<Game>, cache: &HashMap<u64, String>) -> (r: Vec<u64>)
    ensures
        r@ == first_n(unnamed_ids(views(games@), cache@), MAX_NAMES_PER_ROUND as nat),
{
    let ghost gs = views(games@);
    let mut r: Vec<u64> = Vec::new();
    let mut i: usize = 0;
    assert(gs.take(0) =~= Seq::<GameView>::empty());
    while i < games.len()
        invariant
            i <= games@.len(),
            gs == views(games@),
            r@.len() <= MAX_NAMES_PER_ROUND,
            r@ == first_n(unnamed_ids(gs.take(i as int), cache@), MAX_NAMES_PER_ROUND as nat),
        decreases games@.len() - i,
    {
        if r.len() == MAX_NAMES_PER_ROUND {
            proof {
                lemma_first_n_full(gs, i as int, cache@);
            }
            return r;
        }
        assert(gs.take(i + 1).drop_last() =~= gs.take(i as int));
        assert(gs.take(i + 1).last() == games@[i as int]@);
        let g = &games[i];
        if !g.has_real_name() && !cache.contains_key(&g.appid) {
            r.push(g.appid);
        }
        i = i + 1;
    }
    assert(gs.take(i as int) =~= gs);
    r
}

/// The ids found in a prefix stay at the front of the ids of the whole.
proof fn lemma_unnamed_prefix(gs: Seq<GameView>, i: int, cache: Map<u64, String>)
    requires
        0 <= i <= gs.len(),
    ensures
        unnamed_ids(gs.take(i), cache).len() <= unnamed_ids(gs, cache).len(),
        unnamed_ids(gs, cache).take(unnamed_ids(gs.take(i), cache).len() as int)
            == unnamed_ids(gs.take(i), cache),
    decreases gs.len() - i,
{
    if i == gs.len() {
        assert(gs.take(i) =~= gs);
        assert(unnamed_ids(gs, cache).take(unnamed_ids(gs, cache).len() as int) =~= unnamed_ids(
            gs,
            cache,
        ));
    } else {
        lemma_unnamed_prefix(gs, i + 1, cache);
        assert(gs.take(i + 1).drop_last() =~= gs.take(i));
        let a = unnamed_ids(gs.take(i), cache);
        let b = unnamed_ids(gs.take(i + 1), cache);
        let all = unnamed_ids(gs, cache);
        assert(b.take(a.len() as int) =~= a);
        assert(all.take(a.len() as int) =~= all.take(b.len() as int).take(a.len() as int));
    }
}

proof fn lemma_first_n_full(gs: Seq<GameView>, i: int, cache: Map<u64, String>)
    requires
        0 <= i <= gs.len(),
        first_n(unnamed_ids(gs.take(i), cache), MAX_NAMES_PER_ROUND as nat).len()
            == MAX_NAMES_PER_ROUND,
    ensures
        first_n(unnamed_ids(gs, cache), MAX_NAMES_PER_ROUND as nat) == first_n(
            unnamed_ids(gs.take(i), cache),
            MAX_NAMES_PER_ROUND as nat,
        ),
{
    lemma_unnamed_prefix(gs, i, cache);
    let a = unnamed_ids(gs.take(i), cache);
    let all = unnamed_ids(gs, cache);
    assert(all.take(MAX_NAMES_PER_ROUND as int) =~= a.take(MAX_NAMES_PER_ROUND as int)) by {
        assert(all.take(a.len() as int) == a);
    }
}

/// Whether any game of the library still has a placeholder name.
pub open spec fn has_unnamed(gs: Seq<GameView>) -> bool {
    exists|i: int| 0 <= i < gs.len() && !is_real_name(#[trigger] gs[i].name)
}

/// Whether a round of name fetching should start: some game has a
/// placeholder name and no round is running.
pub fn needs_name_resolution(games: &Vec<Game>, resolving: bool) -> (r: bool)
    ensures
        r == (has_unnamed(views(games@)) && !resolving),
{
    let ghost gs = views(games@);
    let mut i: usize = 0;
    while i < games.len()
        invariant
            i <= games@.len(),
            gs == views(games@),
            forall|j: int| 0 <= j < i ==> is_real_name(#[trigger] gs[j].name),
        decreases games@.len() - i,
    {
        if !games[i].has_real_name() {
            assert(!is_real_name(gs[i as int].name));
            return !resolving;
        }
        i = i + 1;
    }
    false
}

/// The first position of the game with `appid`.
pub open spec fn first_position(gs: Seq<GameView>, appid: u64) -> Option<int>
    decreases gs.len(),
{
    if gs.len() == 0 {
        None
    } else {
        match first_position(gs.drop_last(), appid) {
            Some(i) => Some(i),
            None => if gs.last().appid == appid {
                Some(gs.len() - 1)
            } else {
                None
            },
        }
    }
}

/// The library after a name was found for `appid`: the first game with that
/// appid takes the name.
pub open spec fn renamed(gs: Seq<GameView>, appid: u64, name: Seq<char>) -> Seq<GameView> {
    match first_position(gs, appid) {
        Some(i) => gs.update(i, GameView { name, ..gs[i] }),
        None => gs,
    }
}

proof fn lemma_first_position(gs: Seq<GameView>, appid: u64)
    ensures
        match first_position(gs, appid) {
            Some(i) => 0 <= i < gs.len() && gs[i].appid == appid && forall|j: int|
                0 <= j < i ==> gs[j].appid != appid,
            None => forall|j: int| 0 <= j < gs.len() ==> gs[j].appid != appid,
        },
    decreases gs.len(),
{
    if gs.len() > 0 {
        lemma_first_position(gs.drop_last(), appid);
        assert forall|j: int| 0 <= j < gs.len() - 1 implies gs[j] == gs.drop_last()[j] by {}
    }
}

/// Records a name found for `appid`: in the cache, and on the first game of
/// the library with that appid.
pub fn apply_resolved_name(
    games: &mut Vec<Game>,
    cache: &mut HashMap<u64, String>,
    appid: u64,
    name: String,
)
    ensures
        final(cache)@ == old(cache)@.insert(appid, name),
        views(final(games)@) == renamed(views(old(games)@), appid, name@),
{
    cache.insert(appid, name.clone());
    let ghost gs = views(games@);
    let ghost name0 = name;
    proof {
        lemma_first_position(gs, appid);
    }
    let mut i: usize = 0;
    while i < games.len()
        invariant
            i <= games@.len(),
            gs == views(games@),
            gs == views(old(games)@),
            name0 == name,
            cache@ == old(cache)@.insert(appid, name0),
            forall|j: int| 0 <= j < i ==> gs[j].appid != appid,
        decreases games@.len() - i,
    {
        if games[i].appid == appid {
            assert(first_position(gs, appid) == Some(i as int)) by {
                lemma_first_position(gs, appid);
                match first_position(gs, appid) {
                    Some(k) => {
                        if k < i {
                        } else if k > i {
                            assert(gs[i as int].appid == appid);
                        }
                    },
                    None => {
                        assert(gs[i as int].appid == appid);
                    },
                }
            }
            let old_game = &games[i];
            let g = Game {
                appid: old_game.appid,
                name,
                playtime_forever: old_game.playtime_forever,
                installed: old_game.installed,
            };
            let ghost before = games@;
            games.set(i, g);
            assert(views(games@) =~= renamed(gs, appid, g.name@)) by {
                assert(views(games@) =~= views(before).update(i as int, g@));
            }
            return;
        }
        i = i + 1;
    }
    assert(first_position(gs, appid) is None) by {
        match first_position(gs, appid) {
            Some(k) => {
                assert(gs[k].appid != appid);
            },
            None => {},
        }
    }
}

/// The store's details of an app, for reading its name.
pub open spec fn appdetails_url_of(appid: u64) -> Seq<char> {
    "https://store.steampowered.com/api/appdetails?appids="@ + decimal(appid as nat)
        + "&filters=basic"@
}

/// The store query that gives the details of an app.
pub fn appdetails_url(appid: u64) -> (r: String)
    ensures
        r@ == appdetails_url_of(appid),
{
    let mut s = String::new();
    push_str(&mut s, "https://store.steampowered.com/api/appdetails?appids=");
    push_decimal(&mut s, appid);
    push_str(&mut s, "&filters=basic");
    assert(Seq::<char>::empty() + "https://store.steampowered.com/api/appdetails?appids="@
        =~= "https://store.steampowered.com/api/appdetails?appids="@);
    s
}

/// A JSON document as the store answers it.
#[derive(Debug)]
pub enum JsonValue {
    Null,
    Bool(bool),
    /// A number, as written.
    Number(String),
    Str(String),
    Array(Vec<JsonValue>),
    Object(Vec<(String, JsonValue)>),
}

/// The position of the first member named `key`.
pub open spec fn member_position(members: Seq<(String, JsonValue)>, key: Seq<char>) -> Option<int>
    decreases members.len(),
{
    if members.len() == 0 {
        None
    } else {
        match member_position(members.drop_last(), key) {
            Some(i) => Some(i),
            None => if members.last().0@ == key {
                Some(members.len() - 1)
            } else {
                None
            },
        }
    }
}

/// `value[key]` in JSON terms: the member named `key` of an object, and
/// `null` for anything else.
pub open spec fn member(value: JsonValue, key: Seq<char>) -> JsonValue {
    match value {
        JsonValue::Object(members) => match member_position(members@, key) {
            Some(i) => members@[i].1,
            None => JsonValue::Null,
        },
        _ => JsonValue::Null,
    }
}

/// The text of a JSON string, `None` for any other value.
pub open spec fn as_text(value: JsonValue) -> Option<Seq<char>> {
    match value {
        JsonValue::Str(s) => Some(s@),
        _ => None,
    }
}

/// The name in the store's details of `appid`: `details[appid]["data"]["name"]`.
pub open spec fn app_name_in(details: JsonValue, appid: u64) -> Option<Seq<char>> {
    as_text(member(member(member(details, decimal(appid as nat)), "data"@), "name"@))
}

proof fn lemma_member_position(members: Seq<(String, JsonValue)>, key: Seq<char>)
    ensures
        match member_position(members, key) {
            Some(i) => 0 <= i < members.len() && members[i].0@ == key && forall|j: int|
                0 <= j < i ==> members[j].0@ != key,
            None => forall|j: int| 0 <= j < members.len() ==> members[j].0@ != key,
        },
    decreases members.len(),
{
    if members.len() > 0 {
        lemma_member_position(members.drop_last(), key);
        assert forall|j: int| 0 <= j < members.len() - 1 implies members[j]
            == members.drop_last()[j] by {}
    }
}

/// `value[key]` (see `member`).
fn get_member<'a>(value: &'a JsonValue, key: &str) -> (r: Option<&'a JsonValue>)
    ensures
        match r {
            Some(v) => *v == member(*value, key@),
            None => member(*value, key@) == JsonValue::Null,
        },
{
    match value {
        JsonValue::Object(members) => {
            let kc = crate::text::chars_of(key);
            let mut i: usize = 0;
            while i < members.len()
                invariant
                    i <= members@.len(),
                    *value == JsonValue::Object(*members),
                    kc@ == key@,
                    forall|j: int| 0 <= j < i ==> members@[j].0@ != key@,
                decreases members@.len() - i,
            {
                let mc = crate::text::chars_of(members[i].0.as_str());
                if crate::text::chars_eq(mc.as_slice(), kc.as_slice()) {
                    proof {
                        lemma_member_position(members@, key@);
                        match member_position(members@, key@) {
                            Some(k) => {
                                if k < i {
                                } else if k > i {
                                }
                            },
                            None => {},
                        }
                        assert(member_position(members@, key@) == Some(i as int));
                        assert(*value == JsonValue::Object(*members));
                        assert(member(JsonValue::Object(*members), key@) == members@[i as int].1);
                    }
                    return Some(&members[i].1);
                }
                i = i + 1;
            }
            proof {
                lemma_member_position(members@, key@);
                match member_position(members@, key@) {
                    Some(k) => {
                        assert(members@[k].0@ != key@);
                    },
                    None => {},
                }
            }
            None
        },
        _ => None,
    }
}

/// The name of `appid` in the store's details (see `app_name_in`).
pub fn app_name_from_details(details: &JsonValue, appid: u64) -> (r: Option<String>)
    ensures
        match r {
            Some(n) => app_name_in(*details, appid) == Some(n@),
            None => app_name_in(*details, appid) is None,
        },
{
    let key = crate::text::to_decimal(appid);
    let entry = match get_member(details, key.as_str()) {
        Some(e) => e,
        None => return None,
    };
    let data = match get_member(entry, "data") {
        Some(d) => d,
        None => return None,
    };
    match get_member(data, "name") {
        Some(JsonValue::Str(s)) => Some(s.clone()),
        _ => None,
    }
}

/// The names a names-cache file holds: `serde_json`'s reading of the text
/// as a JSON object from appids to names, `None` when it is not one.
pub uninterp spec fn names_json(text: Seq<char>) -> Option<Map<u64, Seq<char>>>;

/// The names of a map, as characters.
pub open spec fn name_texts(m: Map<u64, String>) -> Map<u64, Seq<char>> {
    m.map_values(|s: String| s@)
}

/// `serde_json::from_str::<HashMap<u64, String>>`: reads a names-cache file.
/// Its result is named `names_json` (a function of the text alone); how
/// serde_json reads JSON is not stated here.
#[verifier::external_body]
fn parse_names_json(text: &str) -> (r: Option<HashMap<u64, String>>)
    ensures
        match r {
            Some(m) => names_json(text@) == Some(name_texts(m@)),
            None => names_json(text@) is None,
        },
{
    serde_json::from_str(text).ok()
}

/// The names cache read from the text of its file: what `names_json` reads,
/// and an empty cache when there is no file or it does not read.
pub open spec fn names_cache_of(text: Option<Seq<char>>) -> Map<u64, Seq<char>> {
    match text {
        Some(t) => match names_json(t) {
            Some(m) => m,
            None => Map::empty(),
        },
        None => Map::empty(),
    }
}

/// The names cache from the text of its file, if there is one.
pub fn names_cache_from(text: Option<&str>) -> (r: HashMap<u64, String>)
    ensures
        name_texts(r@) == names_cache_of(
            match text {
                Some(t) => Some(t@),
                None => None,
            },
        ),
{
    match text {
        Some(t) => match parse_names_json(t) {
            Some(m) => m,
            None => {
                let e: HashMap<u64, String> = HashMap::new();
                assert(name_texts(e@) =~= Map::<u64, Seq<char>>::empty());
                e
            },
        },
        None => {
            let e: HashMap<u64, String> = HashMap::new();
            assert(name_texts(e@) =~= Map::<u64, Seq<char>>::empty());
            e
        },
    }
}

} // verus!
