//! Properties of the library that span functions or hold of all inputs.

use vstd::prelude::*;
use crate::acf::{acf_value, quoted};
use crate::model::{is_real_name, launch_url_of, placeholder_name, placeholder_prefix, FriendView, Game, GameView};
use crate::display::{card_title_is, char_width, offline_of, online_of, utf8_len, TITLE_CUT_BYTES, TITLE_MAX_BYTES};
use crate::library::{
    add_played, installed_library, lemma_position_of, library_of, manifest_game, played_game,
    position_of, upsert,
};
use crate::names::{first_n, renamed, unnamed_ids, MAX_NAMES_PER_ROUND};
use crate::state::{after_download_request, after_setup, shown, shown_games, ConfigView, Screen, SteamLiteView};
use crate::vdf::apps_entries;
use vstd::seq_lib::to_multiset_remove;
use crate::sorting::{rank_class, sorted_desc, stable_sorted_desc, Ranked};
use crate::steam::{outcome_of, DownloadOutcome};
use crate::text::{
    contains_seq, decimal, find_seq, index_of, is_ws, lemma_find_seq, lemma_index_of, lemma_index_of_is, lemma_parse_decimal, lowercase, occurs_at,
    parse_u64_seq, starts_with_seq, trim_seq, trim_start_seq,
};

verus! {

// ---------------------------------------------------------------------------
// Numbers and manifests
// ---------------------------------------------------------------------------

/// Reading back a written number: parsing the decimal digits of `n` gives `n`.
pub proof fn law_decimal_round_trip(n: u64)
    ensures
        parse_u64_seq(decimal(n as nat)) == Some(n),
{
    lemma_parse_decimal(n);
}

proof fn lemma_trim_start_ws_prefix(sep: Seq<char>, t: Seq<char>)
    requires
        forall|i: int| 0 <= i < sep.len() ==> is_ws(#[trigger] sep[i]),
    ensures
        trim_start_seq(sep + t) == trim_start_seq(t),
    decreases sep.len(),
{
    if sep.len() > 0 {
        assert((sep + t)[0] == sep[0]);
        assert((sep + t).skip(1) =~= sep.skip(1) + t);
        assert forall|i: int| 0 <= i < sep.skip(1).len() implies is_ws(#[trigger] sep.skip(1)[i]) by {
            assert(sep.skip(1)[i] == sep[i + 1]);
        }
        lemma_trim_start_ws_prefix(sep.skip(1), t);
    } else {
        assert(sep + t =~= t);
    }
}

/// Reading back a written manifest entry: in a text that starts with the
/// quoted key `k`, then whitespace, then the quoted value `v` (which holds
/// no quote), the value read for `k` is `v`, whatever follows.
pub proof fn law_acf_reads_written_value(k: Seq<char>, sep: Seq<char>, v: Seq<char>, rest: Seq<char>)
    requires
        forall|i: int| 0 <= i < sep.len() ==> is_ws(#[trigger] sep[i]),
        forall|i: int| 0 <= i < v.len() ==> #[trigger] v[i] != '"',
    ensures
        acf_value(quoted(k) + sep + quoted(v) + rest, k) == Some(v),
{
    let s = quoted(k) + sep + quoted(v) + rest;
    let pat = quoted(k);
    assert(s.subrange(0, pat.len() as int) =~= pat);
    assert(occurs_at(s, pat, 0));
    assert(find_seq(s, pat) == Some(0int));
    let tail = quoted(v) + rest;
    assert(s.skip(pat.len() as int) =~= sep + tail);
    lemma_trim_start_ws_prefix(sep, tail);
    assert(tail[0] == '"');
    assert(!is_ws('"'));
    assert(trim_start_seq(tail) == tail);
    let inner = tail.skip(1);
    assert(inner =~= v + seq!['"'] + rest);
    assert(inner[v.len() as int] == '"');
    assert forall|j: int| 0 <= j < v.len() implies inner[j] != '"' by {
        assert(inner[j] == v[j]);
    }
    lemma_index_of_is(inner, '"', v.len() as int);
    assert(inner.take(v.len() as int) =~= v);
}

/// `trim_start_seq` drops a run of leading whitespace: `n` characters.
proof fn lemma_trim_start_split(t: Seq<char>) -> (n: int)
    ensures
        0 <= n <= t.len(),
        trim_start_seq(t) == t.skip(n),
        forall|i: int| 0 <= i < n ==> is_ws(#[trigger] t[i]),
        n < t.len() ==> !is_ws(t[n]),
    decreases t.len(),
{
    if t.len() > 0 && is_ws(t[0]) {
        let m = lemma_trim_start_split(t.skip(1));
        assert(t.skip(1).skip(m) =~= t.skip(m + 1));
        assert forall|i: int| 0 <= i < m + 1 implies is_ws(#[trigger] t[i]) by {
            if i > 0 {
                assert(t[i] == t.skip(1)[i - 1]);
            }
        }
        if m + 1 < t.len() {
            assert(t[m + 1] == t.skip(1)[m]);
        }
        m + 1
    } else {
        assert(t.skip(0) =~= t);
        0
    }
}

/// `find_seq` is the least position where the pattern occurs.
proof fn lemma_find_seq_is(s: Seq<char>, pat: Seq<char>, i: int)
    requires
        occurs_at(s, pat, i),
        forall|j: int| 0 <= j < i ==> !occurs_at(s, pat, j),
    ensures
        find_seq(s, pat) == Some(i),
{
    lemma_find_seq(s, pat);
    match find_seq(s, pat) {
        Some(k) => {
            if k < i {
                assert(!occurs_at(s, pat, k));
            } else if k > i {
                assert(!occurs_at(s, pat, i));
            }
        },
        None => {
            assert(contains_seq(s, pat));
        },
    }
}

/// The first occurrence of the quoted key `k` in `s` is at `p`, and after it
/// come the whitespace `ws`, the value `v` between quotes (`v` holds no
/// quote) and `rest`.
pub open spec fn entry_read_at(
    s: Seq<char>,
    k: Seq<char>,
    p: int,
    ws: Seq<char>,
    v: Seq<char>,
    rest: Seq<char>,
) -> bool {
    &&& find_seq(s, quoted(k)) == Some(p)
    &&& forall|i: int| 0 <= i < ws.len() ==> is_ws(#[trigger] ws[i])
    &&& !v.contains('"')
    &&& s.skip(p + quoted(k).len()) == ws + quoted(v) + rest
}

/// Reading a manifest entry, exactly: the value read for `k` in `s` is `v`
/// if and only if, right after the first occurrence of the quoted key, `s`
/// goes on with whitespace (maybe none), a quote, `v` (which holds no quote)
/// and another quote.
pub proof fn law_acf_value_exact(s: Seq<char>, k: Seq<char>, v: Seq<char>)
    ensures
        acf_value(s, k) == Some(v) <==> exists|p: int, ws: Seq<char>, rest: Seq<char>|
            #[trigger] entry_read_at(s, k, p, ws, v, rest),
{
    let pat = quoted(k);
    if acf_value(s, k) == Some(v) {
        let p = find_seq(s, pat)->0;
        let t = s.skip(p + pat.len());
        let n = lemma_trim_start_split(t);
        let ws = t.take(n);
        let after = t.skip(n);
        let inner = after.skip(1);
        let q = index_of(inner, '"')->0;
        lemma_index_of(inner, '"');
        assert(v =~= inner.take(q));
        let rest = inner.skip(q + 1);
        assert forall|i: int| 0 <= i < ws.len() implies is_ws(#[trigger] ws[i]) by {
            assert(ws[i] == t[i]);
        }
        if v.contains('"') {
            let j = choose|j: int| 0 <= j < v.len() && v[j] == '"';
            assert(inner[j] == '"');
        }
        assert(inner =~= v + seq!['"'] + rest);
        assert(after =~= seq!['"'] + inner);
        assert(t =~= ws + quoted(v) + rest);
        assert(entry_read_at(s, k, p, ws, v, rest));
    }
    if exists|p: int, ws: Seq<char>, rest: Seq<char>| #[trigger] entry_read_at(s, k, p, ws, v, rest) {
        let (p, ws, rest) = choose|p: int, ws: Seq<char>, rest: Seq<char>| #[trigger] entry_read_at(s, k, p, ws, v, rest);
        let tail = quoted(v) + rest;
        assert(ws + quoted(v) + rest =~= ws + tail);
        lemma_trim_start_ws_prefix(ws, tail);
        assert(tail[0] == '"');
        assert(!is_ws('"'));
        assert(trim_start_seq(tail) == tail);
        let inner = tail.skip(1);
        assert(inner =~= v + seq!['"'] + rest);
        assert(inner[v.len() as int] == '"');
        assert forall|j: int| 0 <= j < v.len() implies inner[j] != '"' by {
            assert(inner[j] == v[j]);
            if v[j] == '"' {
                assert(v.contains('"'));
            }
        }
        lemma_index_of_is(inner, '"', v.len() as int);
        assert(inner.take(v.len() as int) =~= v);
    }
}

/// A value read from a text is read the same from the text with anything
/// after it, and with anything before it that holds no quote.
pub proof fn law_acf_value_in_context(pre: Seq<char>, s: Seq<char>, post: Seq<char>, k: Seq<char>)
    requires
        !pre.contains('"'),
        acf_value(s, k) is Some,
    ensures
        acf_value(pre + s + post, k) == acf_value(s, k),
{
    let v = acf_value(s, k)->0;
    let pat = quoted(k);
    law_acf_value_exact(s, k, v);
    let (p, ws, rest) = choose|p: int, ws: Seq<char>, rest: Seq<char>| #[trigger] entry_read_at(s, k, p, ws, v, rest);
    lemma_find_seq(s, pat);
    let big = pre + s + post;
    let off = pre.len() as int;
    assert(big.subrange(off + p, off + p + pat.len()) =~= s.subrange(p, p + pat.len()));
    assert forall|j: int| 0 <= j < off + p implies !occurs_at(big, pat, j) by {
        if occurs_at(big, pat, j) {
            if j < off {
                assert(big.subrange(j, j + pat.len())[0] == big[j]);
                assert(big[j] == pre[j]);
                assert(pat[0] == '"');
                assert(pre.contains('"'));
            } else {
                assert(big.subrange(j, j + pat.len()) =~= s.subrange(j - off, j - off + pat.len()));
                assert(occurs_at(s, pat, j - off));
            }
        }
    }
    lemma_find_seq_is(big, pat, off + p);
    assert(occurs_at(s, pat, p));
    assert(big.skip(off + p + pat.len()) =~= s.skip(p + pat.len()) + post);
    assert(big.skip(off + p + pat.len()) =~= ws + quoted(v) + (rest + post));
    assert(entry_read_at(big, k, off + p, ws, v, rest + post));
    law_acf_value_exact(big, k, v);
}

/// The launch link names its game: the number after `steam://run/` parses
/// back to the appid.
pub proof fn law_launch_url_names_game(appid: u64)
    ensures
        parse_u64_seq(launch_url_of(appid).skip("steam://run/"@.len() as int)) == Some(appid),
{
    assert(launch_url_of(appid).skip("steam://run/"@.len() as int) =~= decimal(appid as nat));
    lemma_parse_decimal(appid);
}

// ---------------------------------------------------------------------------
// Names
// ---------------------------------------------------------------------------

/// A placeholder name is never taken for a real name, so games named
/// `App <appid>` are the ones whose real name is looked for.
pub proof fn law_placeholder_is_not_real(appid: u64)
    ensures
        !is_real_name(placeholder_name(appid)),
{
    let p = placeholder_prefix();
    let n = placeholder_name(appid);
    assert(n.take(p.len() as int) =~= p);
    assert(starts_with_seq(n, p));
}

proof fn lemma_unnamed_not_cached(gs: Seq<GameView>, cache: Map<u64, String>, x: u64)
    ensures
        unnamed_ids(gs, cache).contains(x) ==> !cache.contains_key(x),
    decreases gs.len(),
{
    if gs.len() > 0 {
        lemma_unnamed_not_cached(gs.drop_last(), cache, x);
        let rest = unnamed_ids(gs.drop_last(), cache);
        if unnamed_ids(gs, cache).contains(x) {
            let i = choose|i: int|
                0 <= i < unnamed_ids(gs, cache).len() && unnamed_ids(gs, cache)[i] == x;
            if i < rest.len() {
                assert(rest[i] == x);
            }
        }
    }
}

/// Once a name has been found for a game, that game is not asked for again:
/// its appid is among neither the ids of placeholder-named games that the
/// cache cannot name.
pub proof fn law_resolved_not_asked_again(
    gs: Seq<GameView>,
    cache: Map<u64, String>,
    appid: u64,
    name: String,
)
    ensures
        !unnamed_ids(renamed(gs, appid, name@), cache.insert(appid, name)).contains(appid),
{
    lemma_unnamed_not_cached(renamed(gs, appid, name@), cache.insert(appid, name), appid);
}

// ---------------------------------------------------------------------------
// Order of the library and of the friend list
// ---------------------------------------------------------------------------

/// In the library order, installed games come before the others, and games
/// of the same kind go by playtime, longest first.
pub proof fn law_installed_first(gs: Seq<GameView>)
    requires
        sorted_desc::<Game>(gs),
    ensures
        forall|i: int, j: int|
            #![trigger gs[i], gs[j]]
            0 <= i < j < gs.len() && gs[j].installed ==> gs[i].installed,
        forall|i: int, j: int|
            #![trigger gs[i], gs[j]]
            0 <= i < j < gs.len() && gs[i].installed == gs[j].installed ==> gs[i].playtime_forever
                >= gs[j].playtime_forever,
{
    assert forall|i: int, j: int| 0 <= i < j < gs.len() && gs[j].installed implies gs[i].installed by {
        assert(<Game as Ranked>::rank(gs[i]) >= <Game as Ranked>::rank(gs[j]));
    }
    assert forall|i: int, j: int|
        0 <= i < j < gs.len() && gs[i].installed == gs[j].installed implies gs[i].playtime_forever
            >= gs[j].playtime_forever by {
        assert(<Game as Ranked>::rank(gs[i]) >= <Game as Ranked>::rank(gs[j]));
    }
}

proof fn lemma_count_in_class<T: Ranked>(s: Seq<T::V>, x: T::V)
    ensures
        s.to_multiset().count(x) == rank_class::<T>(s, T::rank(x)).to_multiset().count(x),
    decreases s.len(),
{
    broadcast use vstd::seq_lib::group_to_multiset_ensures;

    if s.len() > 0 {
        let k = T::rank(x);
        lemma_count_in_class::<T>(s.drop_last(), x);
        assert(s =~= s.drop_last().push(s.last()));
        if T::rank(s.last()) == k {
            assert(rank_class::<T>(s, k) == rank_class::<T>(s.drop_last(), k).push(s.last()));
        } else {
            assert(s.last() != x);
        }
    } else {
        assert(rank_class::<T>(s, T::rank(x)) =~= Seq::<T::V>::empty());
    }
}

/// Sorting keeps every element: a stably sorted sequence holds the same
/// elements, as often, as the input.
pub proof fn law_sort_is_permutation<T: Ranked>(r: Seq<T::V>, s: Seq<T::V>)
    requires
        stable_sorted_desc::<T>(r, s),
    ensures
        r.to_multiset() == s.to_multiset(),
{
    assert forall|x: T::V| r.to_multiset().count(x) == s.to_multiset().count(x) by {
        lemma_count_in_class::<T>(r, x);
        lemma_count_in_class::<T>(s, x);
    }
    assert(r.to_multiset() =~= s.to_multiset());
}

// ---------------------------------------------------------------------------
// One game per appid
// ---------------------------------------------------------------------------

/// No two games of `gs` share an appid.
pub open spec fn distinct_appids(gs: Seq<GameView>) -> bool {
    forall|i: int, j: int|
        #![trigger gs[i], gs[j]]
        0 <= i < j < gs.len() ==> gs[i].appid != gs[j].appid
}

proof fn lemma_upsert_distinct(lib: Seq<GameView>, g: GameView)
    requires
        distinct_appids(lib),
    ensures
        distinct_appids(upsert(lib, g)),
{
    lemma_position_of(lib, g.appid);
    let r = upsert(lib, g);
    match position_of(lib, g.appid) {
        Some(p) => {
            assert forall|i: int, j: int| 0 <= i < j < r.len() implies r[i].appid != r[j].appid by {
                assert(lib[i].appid != lib[j].appid);
            }
        },
        None => {
            assert forall|i: int, j: int| 0 <= i < j < r.len() implies r[i].appid != r[j].appid by {
                if j < lib.len() {
                    assert(lib[i].appid != lib[j].appid);
                }
            }
        },
    }
}

pub(crate) proof fn lemma_installed_distinct(ms: Seq<Seq<char>>, cache: Map<u64, String>)
    ensures
        distinct_appids(installed_library(ms, cache)),
    decreases ms.len(),
{
    if ms.len() > 0 {
        lemma_installed_distinct(ms.drop_last(), cache);
        match manifest_game(ms.last(), cache) {
            Some(g) => lemma_upsert_distinct(installed_library(ms.drop_last(), cache), g),
            None => {},
        }
    }
}

pub(crate) proof fn lemma_add_played_distinct(
    lib: Seq<GameView>,
    entries: Seq<(u64, u64)>,
    cache: Map<u64, String>,
)
    requires
        distinct_appids(lib),
    ensures
        distinct_appids(add_played(lib, entries, cache)),
    decreases entries.len(),
{
    if entries.len() > 0 {
        lemma_add_played_distinct(lib, entries.drop_last(), cache);
        let acc = add_played(lib, entries.drop_last(), cache);
        let (id, pt) = entries.last();
        lemma_position_of(acc, id);
        if position_of(acc, id) is None {
            let r = acc.push(played_game(cache, id, pt));
            assert forall|i: int, j: int| 0 <= i < j < r.len() implies r[i].appid != r[j].appid by {
                if j < acc.len() {
                    assert(acc[i].appid != acc[j].appid);
                }
            }
        }
    }
}

/// The library holds each game once: no two of its games share an appid.
pub proof fn law_library_one_game_per_appid(
    ms: Seq<Seq<char>>,
    cs: Seq<Seq<char>>,
    cache: Map<u64, String>,
)
    ensures
        distinct_appids(library_of(ms, cs, cache)),
    decreases cs.len(),
{
    if cs.len() == 0 {
        lemma_installed_distinct(ms, cache);
    } else {
        law_library_one_game_per_appid(ms, cs.drop_last(), cache);
        lemma_add_played_distinct(library_of(ms, cs.drop_last(), cache), apps_entries(cs.last()), cache);
    }
}

proof fn lemma_count_two<A>(s: Seq<A>, i: int, j: int)
    requires
        0 <= i < j < s.len(),
        s[i] == s[j],
    ensures
        s.to_multiset().count(s[i]) >= 2,
{
    broadcast use vstd::seq_lib::group_to_multiset_ensures;

    broadcast use vstd::multiset::group_multiset_axioms;

    to_multiset_remove(s, j);
    let t = s.remove(j);
    assert(t[i] == s[i]);
    assert(t.contains(s[i]));
    assert(s.contains(s[j]));
    assert(s.to_multiset().count(s[j]) >= 1);
    assert(t.to_multiset().count(s[i]) >= 1);
    assert(t.to_multiset() == s.to_multiset().remove(s[j]));
}

proof fn lemma_two_positions<A>(s: Seq<A>, x: A)
    requires
        s.to_multiset().count(x) >= 2,
    ensures
        exists|p: int, q: int| 0 <= p < q < s.len() && s[p] == x && s[q] == x,
{
    broadcast use vstd::seq_lib::group_to_multiset_ensures;

    assert(s.contains(x));
    let p = choose|p: int| 0 <= p < s.len() && s[p] == x;
    broadcast use vstd::multiset::group_multiset_axioms;

    to_multiset_remove(s, p);
    let t = s.remove(p);
    assert(t.to_multiset() == s.to_multiset().remove(x));
    assert(t.to_multiset().count(x) >= 1);
    assert(t.contains(x));
    let q = choose|q: int| 0 <= q < t.len() && t[q] == x;
    if q < p {
        assert(s[q] == x);
    } else {
        assert(s[q + 1] == x);
    }
}

/// Two sequences with the same elements, as often: when no two games of
/// the second share an appid, no two of the first do.
pub proof fn lemma_permutation_distinct(r: Seq<GameView>, s: Seq<GameView>)
    requires
        r.to_multiset() == s.to_multiset(),
        distinct_appids(s),
    ensures
        distinct_appids(r),
{
    broadcast use vstd::seq_lib::group_to_multiset_ensures;

    assert forall|i: int, j: int| 0 <= i < j < r.len() implies r[i].appid != r[j].appid by {
        if r[i].appid == r[j].appid {
            if r[i] == r[j] {
                lemma_count_two(r, i, j);
                lemma_two_positions(s, r[i]);
                let (p, q) = choose|p: int, q: int| 0 <= p < q < s.len() && s[p] == r[i] && s[q] == r[i];
                assert(s[p].appid != s[q].appid);
            } else {
                assert(r.contains(r[i]));
                assert(r.contains(r[j]));
                assert(r.to_multiset().count(r[i]) > 0);
                assert(r.to_multiset().count(r[j]) > 0);
                assert(s.to_multiset().count(r[i]) > 0);
                assert(s.to_multiset().count(r[j]) > 0);
                assert(s.contains(r[i]));
                assert(s.contains(r[j]));
                let p = choose|p: int| 0 <= p < s.len() && s[p] == r[i];
                let q = choose|q: int| 0 <= q < s.len() && s[q] == r[j];
                if p < q {
                    assert(s[p].appid != s[q].appid);
                } else {
                    assert(s[q].appid != s[p].appid);
                }
            }
        }
    }
}

/// The games `load_games_from` returns hold each appid once.
pub proof fn law_loaded_games_one_per_appid(
    games: Seq<GameView>,
    ms: Seq<Seq<char>>,
    cs: Seq<Seq<char>>,
    cache: Map<u64, String>,
)
    requires
        stable_sorted_desc::<Game>(games, library_of(ms, cs, cache)),
    ensures
        distinct_appids(games),
{
    law_library_one_game_per_appid(ms, cs, cache);
    law_sort_is_permutation::<Game>(games, library_of(ms, cs, cache));
    lemma_permutation_distinct(games, library_of(ms, cs, cache));
}

// ---------------------------------------------------------------------------
// Friends and the library screen
// ---------------------------------------------------------------------------

/// Every friend is either online or offline: the two groups together are
/// as many as the list, the online ones have a persona state above 0 and the
/// offline ones state 0.
pub proof fn law_presence_partition(fs: Seq<FriendView>)
    ensures
        online_of(fs).len() + offline_of(fs).len() == fs.len(),
        forall|i: int| 0 <= i < online_of(fs).len() ==> (#[trigger] online_of(fs)[i]).state > 0,
        forall|i: int| 0 <= i < offline_of(fs).len() ==> (#[trigger] offline_of(fs)[i]).state == 0,
    decreases fs.len(),
{
    if fs.len() > 0 {
        law_presence_partition(fs.drop_last());
    }
}

/// With an empty search and the installed filter off, every game is shown,
/// in library order.
pub proof fn law_no_filter_shows_all(gs: Seq<GameView>)
    ensures
        lowercase(seq![]).len() == 0 ==> shown_games(gs, seq![], false) == gs,
    decreases gs.len(),
{
    if gs.len() > 0 {
        law_no_filter_shows_all(gs.drop_last());
        assert(gs.drop_last().push(gs.last()) =~= gs);
    }
}

/// The search finds a game wherever its text appears in the game's name:
/// the games shown are, in library order, exactly those whose lowercased
/// name holds the lowercased search at some position (every game when the
/// search is empty) and, with the installed filter on, that are installed.
pub proof fn law_search_matches_anywhere(gs: Seq<GameView>, search: Seq<char>, installed_only: bool)
    ensures
        shown_games(gs, search, installed_only) == gs.filter(
            |g: GameView|
                (exists|p: int| occurs_at(lowercase(g.name), lowercase(search), p)) && (
                !installed_only || g.installed),
        ),
    decreases gs.len(),
{
    reveal(Seq::filter);
    let pred = |g: GameView|
        (exists|p: int| occurs_at(lowercase(g.name), lowercase(search), p)) && (!installed_only
            || g.installed);
    if gs.len() > 0 {
        law_search_matches_anywhere(gs.drop_last(), search, installed_only);
        let g = gs.last();
        let n = lowercase(g.name);
        let q = lowercase(search);
        if q.len() == 0 {
            assert(n.subrange(0, 0) =~= q);
            assert(occurs_at(n, q, 0));
        }
        assert(shown(g, search, installed_only) == pred(g));
    }
}

/// With the installed filter on, only installed games are shown.
pub proof fn law_installed_filter(gs: Seq<GameView>, search: Seq<char>)
    ensures
        forall|i: int|
            0 <= i < shown_games(gs, search, true).len() ==> (#[trigger] shown_games(
                gs,
                search,
                true,
            )[i]).installed,
    decreases gs.len(),
{
    if gs.len() > 0 {
        law_installed_filter(gs.drop_last(), search);
        let prev = shown_games(gs.drop_last(), search, true);
        let cur = shown_games(gs, search, true);
        assert forall|i: int| 0 <= i < cur.len() implies (#[trigger] cur[i]).installed by {
            if i < prev.len() {
                assert(cur[i] == prev[i]);
            }
        }
    }
}

proof fn lemma_utf8_len_add(a: Seq<char>, b: Seq<char>)
    ensures
        utf8_len(a + b) == utf8_len(a) + utf8_len(b),
    decreases b.len(),
{
    if b.len() == 0 {
        assert(a + b =~= a);
    } else {
        lemma_utf8_len_add(a, b.drop_last());
        assert((a + b).drop_last() =~= a + b.drop_last());
        assert((a + b).last() == b.last());
    }
}

/// A card's title is never longer than 28 bytes.
pub proof fn law_card_title_fits(name: Seq<char>, title: Seq<char>)
    requires
        card_title_is(name, title),
    ensures
        utf8_len(title) <= TITLE_MAX_BYTES,
{
    if utf8_len(name) > TITLE_MAX_BYTES {
        let k = choose|k: int|
            0 <= k <= name.len() && utf8_len(#[trigger] name.take(k)) == TITLE_CUT_BYTES && title
                == name.take(k) + "..."@;
        lemma_utf8_len_add(name.take(k), "..."@);
        reveal_strlit("...");
        let d = "..."@;
        assert(d.len() == 3);
        let d1 = d.drop_last();
        let d2 = d1.drop_last();
        let d3 = d2.drop_last();
        assert(d3 =~= Seq::<char>::empty());
        assert(utf8_len(d3) == 0);
        assert(d2.last() == '.');
        assert(char_width('.') == 1);
        assert(utf8_len(d2) == 1);
        assert(d1.last() == '.');
        assert(utf8_len(d1) == 2);
        assert(d.last() == '.');
        assert(utf8_len(d) == 3);
    }
}

/// A round of name fetching asks for at most `MAX_NAMES_PER_ROUND` games,
/// none of which the cache can already name.
pub proof fn law_name_round(gs: Seq<GameView>, cache: Map<u64, String>)
    ensures
        first_n(unnamed_ids(gs, cache), MAX_NAMES_PER_ROUND as nat).len() <= MAX_NAMES_PER_ROUND,
        forall|i: int|
            0 <= i < first_n(unnamed_ids(gs, cache), MAX_NAMES_PER_ROUND as nat).len()
                ==> !cache.contains_key(
                #[trigger] first_n(unnamed_ids(gs, cache), MAX_NAMES_PER_ROUND as nat)[i],
            ),
{
    let ids = unnamed_ids(gs, cache);
    let f = first_n(ids, MAX_NAMES_PER_ROUND as nat);
    assert forall|i: int| 0 <= i < f.len() implies !cache.contains_key(#[trigger] f[i]) by {
        assert(f[i] == ids[i]);
        assert(ids.contains(ids[i]));
        lemma_unnamed_not_cached(gs, cache, ids[i]);
    }
}

proof fn lemma_unnamed_is_filter(gs: Seq<GameView>, cache: Map<u64, String>)
    ensures
        unnamed_ids(gs, cache) == gs.filter(
            |g: GameView| !is_real_name(g.name) && !cache.contains_key(g.appid),
        ).map_values(|g: GameView| g.appid),
    decreases gs.len(),
{
    reveal(Seq::filter);
    let pred = |g: GameView| !is_real_name(g.name) && !cache.contains_key(g.appid);
    if gs.len() > 0 {
        lemma_unnamed_is_filter(gs.drop_last(), cache);
        let prev = gs.drop_last().filter(pred);
        if pred(gs.last()) {
            assert(prev.push(gs.last()).map_values(|g: GameView| g.appid) =~= prev.map_values(
                |g: GameView| g.appid,
            ).push(gs.last().appid));
        }
    } else {
        assert(gs.filter(pred).map_values(|g: GameView| g.appid) =~= Seq::<u64>::empty());
    }
}

/// A round of name fetching asks, in library order, for the first
/// `MAX_NAMES_PER_ROUND` of the games whose name is a placeholder and that
/// the cache cannot name, wherever they stand in the library: for all of
/// them when there are fewer.
pub proof fn law_name_round_takes_first_unnamed(gs: Seq<GameView>, cache: Map<u64, String>)
    ensures
        ({
            let need = gs.filter(|g: GameView| !is_real_name(g.name) && !cache.contains_key(g.appid));
            let asked = first_n(unnamed_ids(gs, cache), MAX_NAMES_PER_ROUND as nat);
            &&& asked.len() == if need.len() < MAX_NAMES_PER_ROUND {
                need.len()
            } else {
                MAX_NAMES_PER_ROUND as nat
            }
            &&& forall|j: int| 0 <= j < asked.len() ==> #[trigger] asked[j] == need[j].appid
        }),
{
    lemma_unnamed_is_filter(gs, cache);
}

/// Text found in `t` is found in `t` with anything before or after it.
proof fn lemma_contains_in_context(pre: Seq<char>, t: Seq<char>, post: Seq<char>, pat: Seq<char>)
    requires
        contains_seq(t, pat),
    ensures
        contains_seq(pre + t + post, pat),
{
    let i = choose|i: int| occurs_at(t, pat, i);
    let big = pre + t + post;
    let j = pre.len() + i;
    assert(big.subrange(j, j + pat.len()) =~= t.subrange(i, i + pat.len()));
    assert(occurs_at(big, pat, j));
}

/// How a steamcmd run's output is read: `Success` anywhere means done;
/// otherwise `guard` anywhere means a Steam Guard code is wanted, whatever
/// else the output says (a failed login included); otherwise `Invalid`
/// means a wrong password; otherwise, as when it could not run, the Steam
/// client is asked to install.
pub proof fn law_download_outcome_reading(t: Seq<char>)
    ensures
        contains_seq(t, "Success"@) ==> outcome_of(Some(t)) == DownloadOutcome::Completed,
        !contains_seq(t, "Success"@) && contains_seq(t, "guard"@) ==> outcome_of(Some(t))
            == DownloadOutcome::NeedsGuardCode,
        !contains_seq(t, "Success"@) && !contains_seq(t, "guard"@) && contains_seq(t, "Invalid"@)
            ==> outcome_of(Some(t)) == DownloadOutcome::WrongPassword,
        !contains_seq(t, "Success"@) && !contains_seq(t, "guard"@) && !contains_seq(t, "Invalid"@)
            ==> outcome_of(Some(t)) == DownloadOutcome::HandedToSteam,
        outcome_of(None) == DownloadOutcome::HandedToSteam,
{
}

/// An output that asks for the Steam Guard code is read so whatever is
/// printed before or after it (a failed login with `Invalid` included), as
/// long as the whole does not report `Success`.
pub proof fn law_guard_prompt_wins(pre: Seq<char>, t: Seq<char>, post: Seq<char>)
    requires
        contains_seq(t, "guard"@),
        !contains_seq(pre + t + post, "Success"@),
    ensures
        outcome_of(Some(pre + t + post)) == DownloadOutcome::NeedsGuardCode,
{
    lemma_contains_in_context(pre, t, post, "guard"@);
}

// ---------------------------------------------------------------------------
// Downloads and the login popup
// ---------------------------------------------------------------------------

/// Asking to download without both steamcmd credentials opens the login
/// popup for that game and changes nothing else; cancelling the popup then
/// gives that game's install link (see `SteamLite::cancel_login`).
pub proof fn law_download_waits_for_login(s: SteamLiteView, appid: u64)
    requires
        s.steamcmd_user.len() == 0 || s.steamcmd_pass.len() == 0,
    ensures
        after_download_request(s, appid) == (SteamLiteView {
            pending_appid: Some(appid),
            show_login: true,
            ..s
        }),
{
}

/// A setup is accepted exactly when the trimmed path is not empty and holds
/// a `steamapps` folder; it then configures that path and shows the main
/// screen.
pub proof fn law_setup_accepts(s: SteamLiteView, found: bool)
    ensures
        (after_setup(s, found).config == Some(
            ConfigView { steam_path: trim_seq(s.input_path), steam_user: None },
        ) && after_setup(s, found).screen == Screen::Main) || (after_setup(s, found).config
            == s.config && after_setup(s, found).screen == s.screen),
        (trim_seq(s.input_path).len() > 0 && found) ==> after_setup(s, found).screen
            == Screen::Main && after_setup(s, found).setup_error.len() == 0,
        (trim_seq(s.input_path).len() == 0 || !found) ==> after_setup(s, found).screen
            == s.screen && after_setup(s, found).setup_error.len() > 0,
{
    reveal_strlit("Introduce la ruta de Steam");
    reveal_strlit("No se encontró steamapps en esa ruta");
}

} // verus!
