//! What the loaded game library holds, stated game by game: which appids
//! it lists, where each game's fields come from, what the names cache and
//! the other files of `steamapps` change.

use vstd::prelude::*;
use crate::library::{
    add_played, installed_library, is_manifest_name, lemma_position_of, library_of, manifest_game,
    manifest_texts, name_for, played_game, position_of, upsert,
};
use crate::model::{Game, GameView};
use crate::sorting::stable_sorted_desc;
use crate::laws::law_sort_is_permutation;
use crate::acf::acf_value;
use crate::text::parse_u64_seq;
use crate::vdf::apps_entries;

verus! {

// ---------------------------------------------------------------------------
// Where the games come from
// ---------------------------------------------------------------------------

/// The appid a manifest gives: its `appid` value, when that is a number.
pub open spec fn manifest_appid(content: Seq<char>) -> Option<u64> {
    match acf_value(content, "appid"@) {
        Some(ids) => parse_u64_seq(ids),
        None => None,
    }
}

/// The last of the manifests `ms` that gives the appid `id`.
pub open spec fn last_manifest(ms: Seq<Seq<char>>, id: u64) -> Option<Seq<char>>
    decreases ms.len(),
{
    if ms.len() == 0 {
        None
    } else if manifest_appid(ms.last()) == Some(id) {
        Some(ms.last())
    } else {
        last_manifest(ms.drop_last(), id)
    }
}

/// The played games the `localconfig.vdf` files `cs` list, file after file
/// (pairs of an appid and a playtime).
pub open spec fn all_entries(cs: Seq<Seq<char>>) -> Seq<(u64, u64)>
    decreases cs.len(),
{
    if cs.len() == 0 {
        seq![]
    } else {
        all_entries(cs.drop_last()) + apps_entries(cs.last())
    }
}

/// The playtime of the first of the entries `es` with the appid `id`.
pub open spec fn first_playtime(es: Seq<(u64, u64)>, id: u64) -> Option<u64>
    decreases es.len(),
{
    if es.len() == 0 {
        None
    } else {
        match first_playtime(es.drop_last(), id) {
            Some(p) => Some(p),
            None => if es.last().0 == id {
                Some(es.last().1)
            } else {
                None
            },
        }
    }
}

proof fn lemma_manifest_game_appid(content: Seq<char>, cache: Map<u64, String>)
    ensures
        match manifest_game(content, cache) {
            Some(g) => manifest_appid(content) == Some(g.appid) && g.installed,
            None => manifest_appid(content) is None,
        },
{
}

/// Positions depend on the appids alone.
proof fn lemma_position_same_ids(a: Seq<GameView>, b: Seq<GameView>, id: u64)
    requires
        a.len() == b.len(),
        forall|i: int| 0 <= i < a.len() ==> (#[trigger] a[i]).appid == b[i].appid,
    ensures
        position_of(a, id) == position_of(b, id),
    decreases a.len(),
{
    if a.len() > 0 {
        assert(a.last().appid == b.last().appid);
        assert forall|i: int| 0 <= i < a.drop_last().len() implies (
        #[trigger] a.drop_last()[i]).appid == b.drop_last()[i].appid by {
            assert(a.drop_last()[i] == a[i]);
            assert(b.drop_last()[i] == b[i]);
        }
        lemma_position_same_ids(a.drop_last(), b.drop_last(), id);
    }
}

/// Where `upsert` finds a game with the appid `id`.
proof fn lemma_position_upsert(lib: Seq<GameView>, g: GameView, id: u64)
    ensures
        id == g.appid ==> position_of(upsert(lib, g), id) is Some,
        id != g.appid ==> position_of(upsert(lib, g), id) == position_of(lib, id),
{
    lemma_position_of(lib, g.appid);
    match position_of(lib, g.appid) {
        Some(i) => {
            let r = lib.update(i, g);
            assert forall|j: int| 0 <= j < lib.len() implies (#[trigger] lib[j]).appid
                == r[j].appid by {}
            lemma_position_same_ids(lib, r, id);
            if id == g.appid {
                lemma_position_of(lib, id);
            }
        },
        None => {
            assert(lib.push(g).drop_last() =~= lib);
        },
    }
}

/// The installed games: one for each appid that some manifest gives, made
/// from the last manifest that gives it.
proof fn lemma_installed_games(ms: Seq<Seq<char>>, cache: Map<u64, String>)
    ensures
        forall|id: u64|
            (position_of(installed_library(ms, cache), id) is Some) == (
            #[trigger] last_manifest(ms, id) is Some),
        forall|i: int|
            0 <= i < installed_library(ms, cache).len() ==> ({
                let g = #[trigger] installed_library(ms, cache)[i];
                &&& last_manifest(ms, g.appid) is Some
                &&& manifest_game(last_manifest(ms, g.appid)->0, cache) == Some(g)
            }),
    decreases ms.len(),
{
    if ms.len() > 0 {
        let prev = ms.drop_last();
        let lib = installed_library(prev, cache);
        lemma_installed_games(prev, cache);
        lemma_manifest_game_appid(ms.last(), cache);
        match manifest_game(ms.last(), cache) {
            Some(g) => {
                let r = upsert(lib, g);
                assert forall|id: u64|
                    (position_of(r, id) is Some) == (#[trigger] last_manifest(ms, id) is Some) by {
                    lemma_position_upsert(lib, g, id);
                    if id != g.appid {
                        assert(last_manifest(ms, id) == last_manifest(prev, id));
                    }
                }
                crate::laws::lemma_installed_distinct(prev, cache);
                lemma_position_of(lib, g.appid);
                assert forall|i: int| 0 <= i < r.len() implies ({
                    let h = #[trigger] r[i];
                    &&& last_manifest(ms, h.appid) is Some
                    &&& manifest_game(last_manifest(ms, h.appid)->0, cache) == Some(h)
                }) by {
                    match position_of(lib, g.appid) {
                        Some(p) => {
                            if i != p {
                                assert(r[i] == lib[i]);
                                assert(lib[i].appid != g.appid);
                            }
                        },
                        None => {
                            if i < lib.len() {
                                assert(r[i] == lib[i]);
                                assert(lib[i].appid != g.appid);
                            }
                        },
                    }
                }
            },
            None => {
                assert forall|id: u64|
                    (position_of(lib, id) is Some) == (#[trigger] last_manifest(ms, id) is Some) by {
                    assert(last_manifest(ms, id) == last_manifest(prev, id));
                }
                assert forall|i: int| 0 <= i < lib.len() implies ({
                    let h = #[trigger] lib[i];
                    &&& last_manifest(ms, h.appid) is Some
                    &&& manifest_game(last_manifest(ms, h.appid)->0, cache) == Some(h)
                }) by {
                    assert(last_manifest(ms, lib[i].appid) == last_manifest(prev, lib[i].appid));
                }
            },
        }
    }
}

/// Adding the played games of two lists of entries, one after the other, is
/// adding those of the two lists joined.
proof fn lemma_add_played_concat(
    lib: Seq<GameView>,
    e1: Seq<(u64, u64)>,
    e2: Seq<(u64, u64)>,
    cache: Map<u64, String>,
)
    ensures
        add_played(add_played(lib, e1, cache), e2, cache) == add_played(lib, e1 + e2, cache),
    decreases e2.len(),
{
    if e2.len() == 0 {
        assert(e1 + e2 =~= e1);
    } else {
        lemma_add_played_concat(lib, e1, e2.drop_last(), cache);
        assert((e1 + e2).drop_last() =~= e1 + e2.drop_last());
        assert((e1 + e2).last() == e2.last());
    }
}

/// The library is the installed games, then the played games of all the
/// `localconfig.vdf` files' entries, file after file.
proof fn lemma_library_is_add_played(ms: Seq<Seq<char>>, cs: Seq<Seq<char>>, cache: Map<u64, String>)
    ensures
        library_of(ms, cs, cache) == add_played(installed_library(ms, cache), all_entries(cs), cache),
    decreases cs.len(),
{
    if cs.len() > 0 {
        lemma_library_is_add_played(ms, cs.drop_last(), cache);
        lemma_add_played_concat(
            installed_library(ms, cache),
            all_entries(cs.drop_last()),
            apps_entries(cs.last()),
            cache,
        );
    }
}

/// Adding played games keeps the games there were, and adds one for each
/// appid of the entries that was missing, with the playtime of the first
/// entry for it.
proof fn lemma_played_games(lib: Seq<GameView>, es: Seq<(u64, u64)>, cache: Map<u64, String>)
    ensures
        add_played(lib, es, cache).len() >= lib.len(),
        forall|id: u64|
            (#[trigger] position_of(add_played(lib, es, cache), id) is Some) == (position_of(
                lib,
                id,
            ) is Some || first_playtime(es, id) is Some),
        forall|i: int| 0 <= i < lib.len() ==> #[trigger] add_played(lib, es, cache)[i] == lib[i],
        forall|i: int|
            lib.len() <= i < add_played(lib, es, cache).len() ==> ({
                let g = #[trigger] add_played(lib, es, cache)[i];
                &&& position_of(lib, g.appid) is None
                &&& first_playtime(es, g.appid) is Some
                &&& g == played_game(cache, g.appid, first_playtime(es, g.appid)->0)
            }),
    decreases es.len(),
{
    if es.len() > 0 {
        let prev = es.drop_last();
        let acc = add_played(lib, prev, cache);
        lemma_played_games(lib, prev, cache);
        let (id, pt) = es.last();
        let r = add_played(lib, es, cache);
        assert forall|x: u64| x != id implies #[trigger] first_playtime(es, x) == first_playtime(
            prev,
            x,
        ) by {}
        assert forall|x: u64| #[trigger] first_playtime(prev, x) is Some implies first_playtime(
            es,
            x,
        ) == first_playtime(prev, x) by {}
        if position_of(acc, id) is None {
            assert(first_playtime(prev, id) is None);
            assert(position_of(lib, id) is None);
            assert(first_playtime(es, id) == Some(pt));
            assert forall|x: u64|
                (#[trigger] position_of(r, x) is Some) == (position_of(lib, x) is Some
                    || first_playtime(es, x) is Some) by {
                assert(r.drop_last() =~= acc);
                if x != id {
                    assert(position_of(r, x) == position_of(acc, x));
                    assert(position_of(acc, x) is Some == (position_of(lib, x) is Some
                        || first_playtime(prev, x) is Some));
                }
            }
            assert forall|i: int| 0 <= i < lib.len() implies #[trigger] r[i] == lib[i] by {
                assert(r[i] == acc[i]);
            }
            assert forall|i: int| lib.len() <= i < r.len() implies ({
                let g = #[trigger] r[i];
                &&& position_of(lib, g.appid) is None
                &&& first_playtime(es, g.appid) is Some
                &&& g == played_game(cache, g.appid, first_playtime(es, g.appid)->0)
            }) by {
                if i < acc.len() {
                    assert(r[i] == acc[i]);
                    assert(first_playtime(prev, acc[i].appid) is Some);
                }
            }
        } else {
            assert forall|x: u64|
                (#[trigger] position_of(r, x) is Some) == (position_of(lib, x) is Some
                    || first_playtime(es, x) is Some) by {
                if x != id {
                    assert(position_of(acc, x) is Some == (position_of(lib, x) is Some
                        || first_playtime(prev, x) is Some));
                }
            }
            assert forall|i: int| lib.len() <= i < r.len() implies ({
                let g = #[trigger] r[i];
                &&& position_of(lib, g.appid) is None
                &&& first_playtime(es, g.appid) is Some
                &&& g == played_game(cache, g.appid, first_playtime(es, g.appid)->0)
            }) by {
                assert(r[i] == acc[i]);
                assert(first_playtime(prev, acc[i].appid) is Some);
            }
        }
    }
}

/// Some manifest gives `id` exactly when there is a last one that does.
proof fn lemma_last_manifest_exists(ms: Seq<Seq<char>>, id: u64)
    ensures
        (last_manifest(ms, id) is Some) == (exists|j: int|
            0 <= j < ms.len() && #[trigger] manifest_appid(ms[j]) == Some(id)),
    decreases ms.len(),
{
    if ms.len() > 0 {
        lemma_last_manifest_exists(ms.drop_last(), id);
        if manifest_appid(ms.last()) != Some(id) {
            if exists|j: int| 0 <= j < ms.len() && #[trigger] manifest_appid(ms[j]) == Some(id) {
                let j = choose|j: int| 0 <= j < ms.len() && #[trigger] manifest_appid(ms[j]) == Some(id);
                assert(ms.drop_last()[j] == ms[j]);
            }
            if exists|j: int|
                0 <= j < ms.drop_last().len() && #[trigger] manifest_appid(ms.drop_last()[j]) == Some(
                    id,
                ) {
                let j = choose|j: int|
                    0 <= j < ms.drop_last().len() && #[trigger] manifest_appid(ms.drop_last()[j])
                        == Some(id);
                assert(ms[j] == ms.drop_last()[j]);
            }
        } else {
            assert(manifest_appid(ms[ms.len() - 1]) == Some(id));
        }
    }
}

/// Some entry has the appid `id` exactly when there is a first one that does.
proof fn lemma_first_playtime_exists(es: Seq<(u64, u64)>, id: u64)
    ensures
        (first_playtime(es, id) is Some) == (exists|j: int| 0 <= j < es.len() && (#[trigger] es[j]).0 == id),
    decreases es.len(),
{
    if es.len() > 0 {
        lemma_first_playtime_exists(es.drop_last(), id);
        if exists|j: int| 0 <= j < es.len() && (#[trigger] es[j]).0 == id {
            let j = choose|j: int| 0 <= j < es.len() && (#[trigger] es[j]).0 == id;
            if j < es.len() - 1 {
                assert(es.drop_last()[j] == es[j]);
            }
        }
        if exists|j: int| 0 <= j < es.drop_last().len() && (#[trigger] es.drop_last()[j]).0 == id {
            let j = choose|j: int| 0 <= j < es.drop_last().len() && (#[trigger] es.drop_last()[j]).0 == id;
            assert(es[j] == es.drop_last()[j]);
        }
    }
}

/// The library lists an appid where `position_of` finds it.
proof fn lemma_lists_position(lib: Seq<GameView>, id: u64)
    ensures
        (position_of(lib, id) is Some) == (exists|i: int| 0 <= i < lib.len() && (#[trigger] lib[i]).appid == id),
{
    lemma_position_of(lib, id);
}

/// Some game of `gs` has the appid `id`.
pub open spec fn lists_appid(gs: Seq<GameView>, id: u64) -> bool {
    exists|i: int| 0 <= i < gs.len() && (#[trigger] gs[i]).appid == id
}

/// Some manifest of `ms` gives the appid `id`.
pub open spec fn manifest_gives(ms: Seq<Seq<char>>, id: u64) -> bool {
    exists|j: int| 0 <= j < ms.len() && #[trigger] manifest_appid(ms[j]) == Some(id)
}

/// Some entry of `es` has the appid `id`.
pub open spec fn entries_list(es: Seq<(u64, u64)>, id: u64) -> bool {
    exists|j: int| 0 <= j < es.len() && (#[trigger] es[j]).0 == id
}

/// The appids of the library: those that some manifest gives (its `appid`
/// value being a number), and those of the games the `localconfig.vdf`
/// files list; no other.
pub proof fn law_library_appids(ms: Seq<Seq<char>>, cs: Seq<Seq<char>>, cache: Map<u64, String>, id: u64)
    ensures
        lists_appid(library_of(ms, cs, cache), id) == (manifest_gives(ms, id) || entries_list(
            all_entries(cs),
            id,
        )),
{
    let lib = library_of(ms, cs, cache);
    let inst = installed_library(ms, cache);
    lemma_library_is_add_played(ms, cs, cache);
    lemma_played_games(inst, all_entries(cs), cache);
    lemma_installed_games(ms, cache);
    assert((position_of(lib, id) is Some) == (position_of(inst, id) is Some || first_playtime(
        all_entries(cs),
        id,
    ) is Some));
    assert((position_of(inst, id) is Some) == (last_manifest(ms, id) is Some));
    lemma_lists_position(lib, id);
    lemma_last_manifest_exists(ms, id);
    lemma_first_playtime_exists(all_entries(cs), id);
}

/// Where each game of the library comes from: a game is installed exactly
/// when some manifest gives its appid, and then it is the game of the last
/// such manifest (its name, else the cached or placeholder name; its
/// playtime, else 0); a game that is not installed has the cached or
/// placeholder name and the playtime of the first `localconfig.vdf` entry
/// for its appid.
pub proof fn law_library_game_sources(ms: Seq<Seq<char>>, cs: Seq<Seq<char>>, cache: Map<u64, String>, i: int)
    requires
        0 <= i < library_of(ms, cs, cache).len(),
    ensures
        ({
            let g = library_of(ms, cs, cache)[i];
            &&& g.installed == (last_manifest(ms, g.appid) is Some)
            &&& g.installed ==> manifest_game(last_manifest(ms, g.appid)->0, cache) == Some(g)
            &&& !g.installed ==> (first_playtime(all_entries(cs), g.appid) is Some && g == played_game(
                cache,
                g.appid,
                first_playtime(all_entries(cs), g.appid)->0,
            ))
        }),
{
    let lib = library_of(ms, cs, cache);
    let inst = installed_library(ms, cache);
    lemma_library_is_add_played(ms, cs, cache);
    lemma_played_games(inst, all_entries(cs), cache);
    lemma_installed_games(ms, cache);
    let g = lib[i];
    if i < inst.len() {
        assert(lib[i] == inst[i]);
        lemma_manifest_game_appid(last_manifest(ms, g.appid)->0, cache);
    } else {
        assert(position_of(inst, g.appid) is None);
        assert((position_of(inst, g.appid) is Some) == (last_manifest(ms, g.appid) is Some));
    }
}

/// The library is empty exactly when no manifest gives an appid and the
/// `localconfig.vdf` files list no game.
pub proof fn law_library_empty(ms: Seq<Seq<char>>, cs: Seq<Seq<char>>, cache: Map<u64, String>)
    ensures
        (library_of(ms, cs, cache).len() == 0) == ((forall|j: int|
            0 <= j < ms.len() ==> #[trigger] manifest_appid(ms[j]) is None) && all_entries(cs).len()
            == 0),
{
    let lib = library_of(ms, cs, cache);
    if lib.len() > 0 {
        law_library_appids(ms, cs, cache, lib[0].appid);
    }
    if exists|j: int| 0 <= j < ms.len() && #[trigger] manifest_appid(ms[j]) is Some {
        let j = choose|j: int| 0 <= j < ms.len() && #[trigger] manifest_appid(ms[j]) is Some;
        let id = manifest_appid(ms[j])->0;
        law_library_appids(ms, cs, cache, id);
    }
    if all_entries(cs).len() > 0 {
        let id = all_entries(cs)[0].0;
        law_library_appids(ms, cs, cache, id);
    }
}

// ---------------------------------------------------------------------------
// What the names cache changes
// ---------------------------------------------------------------------------

/// Two libraries list the same games in the same order, with the same
/// appids, installed flags and playtimes; where the names differ, each is
/// the name its cache gives (or the placeholder).
pub open spec fn same_but_names(
    a: Seq<GameView>,
    b: Seq<GameView>,
    c1: Map<u64, String>,
    c2: Map<u64, String>,
) -> bool {
    &&& a.len() == b.len()
    &&& forall|i: int|
        0 <= i < a.len() ==> {
            &&& (#[trigger] a[i]).appid == b[i].appid
            &&& a[i].installed == b[i].installed
            &&& a[i].playtime_forever == b[i].playtime_forever
            &&& (a[i].name == b[i].name || (a[i].name == name_for(c1, a[i].appid) && b[i].name
                == name_for(c2, a[i].appid)))
        }
}

proof fn lemma_same_ids(a: Seq<GameView>, b: Seq<GameView>, c1: Map<u64, String>, c2: Map<u64, String>, id: u64)
    requires
        same_but_names(a, b, c1, c2),
    ensures
        position_of(a, id) == position_of(b, id),
{
    assert forall|i: int| 0 <= i < a.len() implies (#[trigger] a[i]).appid == b[i].appid by {}
    lemma_position_same_ids(a, b, id);
}

proof fn lemma_installed_same_but_names(ms: Seq<Seq<char>>, c1: Map<u64, String>, c2: Map<u64, String>)
    ensures
        same_but_names(installed_library(ms, c1), installed_library(ms, c2), c1, c2),
    decreases ms.len(),
{
    if ms.len() > 0 {
        let a = installed_library(ms.drop_last(), c1);
        let b = installed_library(ms.drop_last(), c2);
        lemma_installed_same_but_names(ms.drop_last(), c1, c2);
        match manifest_game(ms.last(), c1) {
            Some(g1) => {
                let g2 = manifest_game(ms.last(), c2)->0;
                lemma_same_ids(a, b, c1, c2, g1.appid);
                lemma_position_of(a, g1.appid);
                let ra = upsert(a, g1);
                let rb = upsert(b, g2);
                assert forall|i: int| 0 <= i < ra.len() implies {
                    &&& (#[trigger] ra[i]).appid == rb[i].appid
                    &&& ra[i].installed == rb[i].installed
                    &&& ra[i].playtime_forever == rb[i].playtime_forever
                    &&& (ra[i].name == rb[i].name || (ra[i].name == name_for(c1, ra[i].appid)
                        && rb[i].name == name_for(c2, ra[i].appid)))
                } by {
                    match position_of(a, g1.appid) {
                        Some(p) => {
                            if i != p {
                                assert(ra[i] == a[i]);
                                assert(rb[i] == b[i]);
                            }
                        },
                        None => {
                            if i < a.len() {
                                assert(ra[i] == a[i]);
                                assert(rb[i] == b[i]);
                            }
                        },
                    }
                }
            },
            None => {},
        }
    }
}

proof fn lemma_played_same_but_names(
    a: Seq<GameView>,
    b: Seq<GameView>,
    es: Seq<(u64, u64)>,
    c1: Map<u64, String>,
    c2: Map<u64, String>,
)
    requires
        same_but_names(a, b, c1, c2),
    ensures
        same_but_names(add_played(a, es, c1), add_played(b, es, c2), c1, c2),
    decreases es.len(),
{
    if es.len() > 0 {
        lemma_played_same_but_names(a, b, es.drop_last(), c1, c2);
        let ra = add_played(a, es.drop_last(), c1);
        let rb = add_played(b, es.drop_last(), c2);
        lemma_same_ids(ra, rb, c1, c2, es.last().0);
        let xa = add_played(a, es, c1);
        let xb = add_played(b, es, c2);
        assert forall|i: int| 0 <= i < xa.len() implies {
            &&& (#[trigger] xa[i]).appid == xb[i].appid
            &&& xa[i].installed == xb[i].installed
            &&& xa[i].playtime_forever == xb[i].playtime_forever
            &&& (xa[i].name == xb[i].name || (xa[i].name == name_for(c1, xa[i].appid) && xb[i].name
                == name_for(c2, xa[i].appid)))
        } by {
            if i < ra.len() {
                assert(xa[i] == ra[i]);
                assert(xb[i] == rb[i]);
            }
        }
    }
}

/// The names cache changes only names: with two caches, the libraries list
/// the same games in the same order, with the same appids, installed flags
/// and playtimes, and where a name differs, each is the name its cache gives
/// (or the placeholder), which happens only for a game whose manifest has
/// no name or that is not installed.
pub proof fn law_cache_changes_only_names(
    ms: Seq<Seq<char>>,
    cs: Seq<Seq<char>>,
    c1: Map<u64, String>,
    c2: Map<u64, String>,
)
    ensures
        same_but_names(library_of(ms, cs, c1), library_of(ms, cs, c2), c1, c2),
{
    lemma_library_is_add_played(ms, cs, c1);
    lemma_library_is_add_played(ms, cs, c2);
    lemma_installed_same_but_names(ms, c1, c2);
    lemma_played_same_but_names(
        installed_library(ms, c1),
        installed_library(ms, c2),
        all_entries(cs),
        c1,
        c2,
    );
}

// ---------------------------------------------------------------------------
// The loaded games
// ---------------------------------------------------------------------------

/// Two orderings of the same games hold the same games.
proof fn lemma_same_members(r: Seq<GameView>, s: Seq<GameView>)
    requires
        r.to_multiset() == s.to_multiset(),
    ensures
        forall|i: int| 0 <= i < r.len() ==> s.contains(#[trigger] r[i]),
        forall|j: int| 0 <= j < s.len() ==> r.contains(#[trigger] s[j]),
{
    broadcast use vstd::seq_lib::group_to_multiset_ensures;

    assert forall|i: int| 0 <= i < r.len() implies s.contains(#[trigger] r[i]) by {
        assert(r.contains(r[i]));
        assert(r.to_multiset().count(r[i]) > 0);
        assert(s.to_multiset().count(r[i]) > 0);
    }
    assert forall|j: int| 0 <= j < s.len() implies r.contains(#[trigger] s[j]) by {
        assert(s.contains(s[j]));
        assert(s.to_multiset().count(s[j]) > 0);
        assert(r.to_multiset().count(s[j]) > 0);
    }
}

/// The loaded games (the library sorted): their appids are those that some
/// manifest gives and those the `localconfig.vdf` files list, and each game
/// comes from where `law_library_game_sources` says.
pub proof fn law_loaded_games(
    games: Seq<GameView>,
    ms: Seq<Seq<char>>,
    cs: Seq<Seq<char>>,
    cache: Map<u64, String>,
)
    requires
        stable_sorted_desc::<Game>(games, library_of(ms, cs, cache)),
    ensures
        forall|id: u64|
            #[trigger] lists_appid(games, id) == (manifest_gives(ms, id) || entries_list(
                all_entries(cs),
                id,
            )),
        forall|i: int|
            0 <= i < games.len() ==> ({
                let g = #[trigger] games[i];
                &&& g.installed == (last_manifest(ms, g.appid) is Some)
                &&& g.installed ==> manifest_game(last_manifest(ms, g.appid)->0, cache) == Some(g)
                &&& !g.installed ==> (first_playtime(all_entries(cs), g.appid) is Some && g
                    == played_game(cache, g.appid, first_playtime(all_entries(cs), g.appid)->0))
            }),
{
    let lib = library_of(ms, cs, cache);
    law_sort_is_permutation::<Game>(games, lib);
    lemma_same_members(games, lib);
    assert forall|id: u64|
        #[trigger] lists_appid(games, id) == (manifest_gives(ms, id) || entries_list(
            all_entries(cs),
            id,
        )) by {
        law_library_appids(ms, cs, cache, id);
        if exists|i: int| 0 <= i < games.len() && (#[trigger] games[i]).appid == id {
            let i = choose|i: int| 0 <= i < games.len() && (#[trigger] games[i]).appid == id;
            let j = choose|j: int| 0 <= j < lib.len() && lib[j] == games[i];
            assert(lib[j].appid == id);
        }
        if exists|j: int| 0 <= j < lib.len() && (#[trigger] lib[j]).appid == id {
            let j = choose|j: int| 0 <= j < lib.len() && (#[trigger] lib[j]).appid == id;
            let i = choose|i: int| 0 <= i < games.len() && games[i] == lib[j];
            assert(games[i].appid == id);
        }
    }
    assert forall|i: int| 0 <= i < games.len() implies ({
        let g = #[trigger] games[i];
        &&& g.installed == (last_manifest(ms, g.appid) is Some)
        &&& g.installed ==> manifest_game(last_manifest(ms, g.appid)->0, cache) == Some(g)
        &&& !g.installed ==> (first_playtime(all_entries(cs), g.appid) is Some && g == played_game(
            cache,
            g.appid,
            first_playtime(all_entries(cs), g.appid)->0,
        ))
    }) by {
        let j = choose|j: int| 0 <= j < lib.len() && lib[j] == games[i];
        law_library_game_sources(ms, cs, cache, j);
    }
}

/// The names cache changes only names in the loaded games: with two caches,
/// as many games are loaded, and for each game loaded with the one there is
/// a game loaded with the other with the same appid, installed flag and
/// playtime, whose name is the same or the name each cache gives (or the
/// placeholder).
pub proof fn law_loaded_names_only(
    g1: Seq<GameView>,
    g2: Seq<GameView>,
    ms: Seq<Seq<char>>,
    cs: Seq<Seq<char>>,
    c1: Map<u64, String>,
    c2: Map<u64, String>,
)
    requires
        stable_sorted_desc::<Game>(g1, library_of(ms, cs, c1)),
        stable_sorted_desc::<Game>(g2, library_of(ms, cs, c2)),
    ensures
        g1.len() == g2.len(),
        forall|i: int|
            #![trigger g1[i]]
            0 <= i < g1.len() ==> exists|j: int|
                #![trigger g2[j]]
                0 <= j < g2.len() && same_game_but_name(g1[i], g2[j], c1, c2),
{
    let l1 = library_of(ms, cs, c1);
    let l2 = library_of(ms, cs, c2);
    law_cache_changes_only_names(ms, cs, c1, c2);
    law_sort_is_permutation::<Game>(g1, l1);
    law_sort_is_permutation::<Game>(g2, l2);
    lemma_same_members(g1, l1);
    lemma_same_members(g2, l2);
    assert(g1.len() == l1.len() && g2.len() == l2.len()) by {
        broadcast use vstd::seq_lib::group_to_multiset_ensures;

        assert(g1.to_multiset().len() == l1.to_multiset().len());
        assert(g2.to_multiset().len() == l2.to_multiset().len());
    }
    assert forall|i: int| #![trigger g1[i]] 0 <= i < g1.len() implies exists|j: int|
        #![trigger g2[j]]
        0 <= j < g2.len() && same_game_but_name(g1[i], g2[j], c1, c2) by {
        let k = choose|k: int| 0 <= k < l1.len() && l1[k] == g1[i];
        let j = choose|j: int| 0 <= j < g2.len() && g2[j] == l2[k];
        assert(same_game_but_name(g1[i], g2[j], c1, c2));
    }
}

/// The same game but perhaps for its name, which is then the name each
/// cache gives (or the placeholder).
pub open spec fn same_game_but_name(a: GameView, b: GameView, c1: Map<u64, String>, c2: Map<u64, String>) -> bool {
    &&& a.appid == b.appid
    &&& a.installed == b.installed
    &&& a.playtime_forever == b.playtime_forever
    &&& (a.name == b.name || (a.name == name_for(c1, a.appid) && b.name == name_for(c2, a.appid)))
}

// ---------------------------------------------------------------------------
// The files of steamapps
// ---------------------------------------------------------------------------

proof fn lemma_manifest_texts_add(
    a: Seq<(Seq<char>, Option<Seq<char>>)>,
    b: Seq<(Seq<char>, Option<Seq<char>>)>,
)
    ensures
        manifest_texts(a + b) == manifest_texts(a) + manifest_texts(b),
    decreases b.len(),
{
    if b.len() == 0 {
        assert(a + b =~= a);
        assert(manifest_texts(a) + manifest_texts(b) =~= manifest_texts(a));
    } else {
        lemma_manifest_texts_add(a, b.drop_last());
        assert((a + b).drop_last() =~= a + b.drop_last());
        assert((a + b).last() == b.last());
        let (n, c) = b.last();
        if c is Some && is_manifest_name(n) {
            assert(manifest_texts(a) + manifest_texts(b.drop_last()).push(c->0) =~= (manifest_texts(
                a,
            ) + manifest_texts(b.drop_last())).push(c->0));
        }
    }
}

/// A file of `steamapps` that is not named `appmanifest_*.acf`, or that
/// could not be read, changes nothing: the manifests are the same without it.
pub proof fn law_other_files_change_nothing(
    before: Seq<(Seq<char>, Option<Seq<char>>)>,
    name: Seq<char>,
    content: Option<Seq<char>>,
    after: Seq<(Seq<char>, Option<Seq<char>>)>,
)
    requires
        !is_manifest_name(name) || content is None,
    ensures
        manifest_texts(before + seq![(name, content)] + after) == manifest_texts(before + after),
{
    let one = seq![(name, content)];
    lemma_manifest_texts_add(before + one, after);
    lemma_manifest_texts_add(before, one);
    lemma_manifest_texts_add(before, after);
    assert(one.drop_last() =~= Seq::<(Seq<char>, Option<Seq<char>>)>::empty());
    assert(manifest_texts(one.drop_last()) =~= Seq::<Seq<char>>::empty());
    assert(one.last() == (name, content));
    assert(manifest_texts(one) =~= Seq::<Seq<char>>::empty());
    assert(manifest_texts(before) + manifest_texts(one) =~= manifest_texts(before));
}

} // verus!
