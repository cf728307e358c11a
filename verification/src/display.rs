//! Texts and selections the client's screens show.

use vstd::prelude::*;
use crate::model::{img_url_of, status_label_of, Friend, FriendView, Game, GameView};
use crate::sorting::views;
use crate::text::{char_to_uppercase, chars_of, decimal, push_decimal, push_str, string_of, sub_chars, uppercase_of_char};

verus! {

// ---------------------------------------------------------------------------
// Library screen
// ---------------------------------------------------------------------------

/// The sidebar's line under the title: loading, fetching names, or the
/// number of games.
pub open spec fn library_status_of(count: nat, loading: bool, resolving: bool) -> Seq<char> {
    if loading {
        "Cargando biblioteca..."@
    } else if resolving {
        decimal(count) + " juegos · Obteniendo nombres..."@
    } else {
        decimal(count) + " juegos en biblioteca"@
    }
}

/// The sidebar's line under the title.
pub fn library_status(count: usize, loading: bool, resolving: bool) -> (r: String)
    ensures
        r@ == library_status_of(count as nat, loading, resolving),
{
    if loading {
        return "Cargando biblioteca...".to_owned();
    }
    let mut s = String::new();
    push_decimal(&mut s, count as u64);
    if resolving {
        push_str(&mut s, " juegos · Obteniendo nombres...");
    } else {
        push_str(&mut s, " juegos en biblioteca");
    }
    assert(Seq::<char>::empty() + decimal(count as nat) =~= decimal(count as nat));
    s
}

/// At most this many header images are requested ahead.
pub const PRELOAD_IMAGES: usize = 40;

/// The header images to request ahead: those of the first games shown.
pub open spec fn preload_of(gs: Seq<GameView>) -> Seq<(u64, Seq<char>)> {
    let n = if gs.len() < PRELOAD_IMAGES {
        gs.len() as int
    } else {
        PRELOAD_IMAGES as int
    };
    Seq::new(n as nat, |i: int| (gs[i].appid, img_url_of(gs[i].appid)))
}

/// The appids and header images of the first games shown.
pub fn preload_targets(games: &Vec<Game>) -> (r: Vec<(u64, String)>)
    ensures
        r@.len() == preload_of(views(games@)).len(),
        forall|i: int|
            0 <= i < r@.len() ==> (#[trigger] r@[i]).0 == preload_of(views(games@))[i].0 && r@[i].1@
                == preload_of(views(games@))[i].1,
{
    let mut r: Vec<(u64, String)> = Vec::new();
    let mut i: usize = 0;
    while i < games.len() && i < PRELOAD_IMAGES
        invariant
            i <= games@.len(),
            i <= PRELOAD_IMAGES,
            r@.len() == i,
            forall|k: int|
                0 <= k < i ==> (#[trigger] r@[k]).0 == games@[k].appid && r@[k].1@ == img_url_of(
                    games@[k].appid,
                ),
        decreases games@.len() - i,
    {
        r.push((games[i].appid, games[i].img_url()));
        i = i + 1;
    }
    r
}

/// The number of bytes of a character in UTF-8.
pub open spec fn char_width(c: char) -> nat {
    let u = c as u32;
    if u < 0x80 {
        1
    } else if u < 0x800 {
        2
    } else if u < 0x10000 {
        3
    } else {
        4
    }
}

/// The number of bytes of a text in UTF-8 (what `str::len` counts).
pub open spec fn utf8_len(s: Seq<char>) -> nat
    decreases s.len(),
{
    if s.len() == 0 {
        0
    } else {
        utf8_len(s.drop_last()) + char_width(s.last())
    }
}

/// Names longer than this many bytes are cut on the game cards.
pub const TITLE_MAX_BYTES: usize = 28;

/// Where a long name is cut, in bytes.
pub const TITLE_CUT_BYTES: usize = 25;

/// The first 25 bytes of a long name fall on a character boundary (else the
/// name cannot be cut there).
pub open spec fn title_cuttable(name: Seq<char>) -> bool {
    utf8_len(name) <= TITLE_MAX_BYTES || exists|k: int|
        0 <= k <= name.len() && utf8_len(#[trigger] name.take(k)) == TITLE_CUT_BYTES
}

/// The name on a game card: as it is up to 28 bytes, else its first 25
/// bytes and `...`.
pub open spec fn card_title_is(name: Seq<char>, title: Seq<char>) -> bool {
    if utf8_len(name) <= TITLE_MAX_BYTES {
        title == name
    } else {
        exists|k: int|
            0 <= k <= name.len() && utf8_len(#[trigger] name.take(k)) == TITLE_CUT_BYTES && title
                == name.take(k) + "..."@
    }
}

fn width_of(c: char) -> (w: usize)
    ensures
        w == char_width(c),
{
    let u = c as u32;
    if u < 0x80 {
        1
    } else if u < 0x800 {
        2
    } else if u < 0x10000 {
        3
    } else {
        4
    }
}

proof fn lemma_utf8_len_push(s: Seq<char>, c: char)
    ensures
        utf8_len(s.push(c)) == utf8_len(s) + char_width(c),
{
    assert(s.push(c).drop_last() =~= s);
}

/// A longer prefix takes more bytes.
proof fn lemma_utf8_len_mono(s: Seq<char>, i: int, j: int)
    requires
        0 <= i < j <= s.len(),
    ensures
        utf8_len(s.take(i)) < utf8_len(s.take(j)),
    decreases j - i,
{
    assert(s.take(j).drop_last() =~= s.take(j - 1));
    if i < j - 1 {
        lemma_utf8_len_mono(s, i, j - 1);
    }
}

/// Whether `card_title` can cut `name`: it is short enough, or its first
/// 25 bytes end on a character boundary.
pub fn title_fits(name: &str) -> (r: bool)
    ensures
        r == title_cuttable(name@),
{
    let n = chars_of(name);
    let mut total: u128 = 0;
    let mut hit = false;
    let mut i: usize = 0;
    assert(n@.take(0) =~= Seq::<char>::empty());
    while i < n.len()
        invariant
            i <= n@.len(),
            total as nat == utf8_len(n@.take(i as int)),
            total <= 4 * i,
            hit == (exists|k: int|
                0 <= k <= i && utf8_len(#[trigger] n@.take(k)) == TITLE_CUT_BYTES),
        decreases n@.len() - i,
    {
        let w = width_of(n[i]);
        assert(n@.take(i + 1) =~= n@.take(i as int).push(n@[i as int]));
        proof {
            lemma_utf8_len_push(n@.take(i as int), n@[i as int]);
        }
        let ghost old_hit = hit;
        total = total + w as u128;
        if total == TITLE_CUT_BYTES as u128 {
            hit = true;
        }
        proof {
            if !old_hit && total != TITLE_CUT_BYTES as u128 {
                assert forall|k: int| 0 <= k <= i + 1 implies utf8_len(
                    #[trigger] n@.take(k),
                ) != TITLE_CUT_BYTES by {
                    if k <= i {
                    } else {
                        assert(k == i + 1);
                    }
                }
            }
        }
        i = i + 1;
    }
    assert(n@.take(i as int) =~= n@);
    proof {
        if hit {
            let k = choose|k: int| 0 <= k <= i && utf8_len(#[trigger] n@.take(k)) == TITLE_CUT_BYTES;
            assert(0 <= k <= n@.len());
        }
    }
    total <= TITLE_MAX_BYTES as u128 || hit
}

/// The name shown on a game card (see `card_title_is`).
pub fn card_title(name: &str) -> (r: String)
    requires
        title_cuttable(name@),
    ensures
        card_title_is(name@, r@),
{
    let n = chars_of(name);
    let mut total: u128 = 0;
    let mut cut: usize = 0;
    let mut i: usize = 0;
    assert(n@.take(0) =~= Seq::<char>::empty());
    while i < n.len()
        invariant
            i <= n@.len(),
            total as nat == utf8_len(n@.take(i as int)),
            total <= 4 * i,
            cut <= i,
            utf8_len(n@.take(i as int)) <= TITLE_CUT_BYTES ==> cut == i,
            utf8_len(n@.take(i as int)) > TITLE_CUT_BYTES ==> utf8_len(n@.take(cut as int))
                <= TITLE_CUT_BYTES && utf8_len(n@.take(cut + 1)) > TITLE_CUT_BYTES,
        decreases n@.len() - i,
    {
        let w = width_of(n[i]);
        assert(n@.take(i + 1) =~= n@.take(i as int).push(n@[i as int]));
        proof {
            lemma_utf8_len_push(n@.take(i as int), n@[i as int]);
        }
        if total + (w as u128) <= TITLE_CUT_BYTES as u128 {
            cut = i + 1;
        }
        total = total + w as u128;
        i = i + 1;
    }
    assert(n@.take(i as int) =~= n@);
    if total <= TITLE_MAX_BYTES as u128 {
        return string_of(n.as_slice());
    }
    proof {
        let k = choose|k: int| 0 <= k <= n@.len() && utf8_len(#[trigger] n@.take(k)) == TITLE_CUT_BYTES;
        if k < cut {
            lemma_utf8_len_mono(n@, k, cut as int);
        } else if k > cut {
            if k > cut + 1 {
                lemma_utf8_len_mono(n@, cut + 1, k);
            }
        }
        assert(k == cut);
    }
    let head = sub_chars(n.as_slice(), 0, cut);
    assert(head@ =~= n@.take(cut as int));
    let mut t = string_of(head.as_slice());
    push_str(&mut t, "...");
    t
}

// ---------------------------------------------------------------------------
// Friends screen
// ---------------------------------------------------------------------------

/// Friends that are online in some way (a persona state above 0).
pub open spec fn online_of(fs: Seq<FriendView>) -> Seq<FriendView>
    decreases fs.len(),
{
    if fs.len() == 0 {
        seq![]
    } else if fs.last().state > 0 {
        online_of(fs.drop_last()).push(fs.last())
    } else {
        online_of(fs.drop_last())
    }
}

/// Friends that are offline (persona state 0).
pub open spec fn offline_of(fs: Seq<FriendView>) -> Seq<FriendView>
    decreases fs.len(),
{
    if fs.len() == 0 {
        seq![]
    } else if fs.last().state == 0 {
        offline_of(fs.drop_last()).push(fs.last())
    } else {
        offline_of(fs.drop_last())
    }
}

/// The friends list split into the online and the offline ones, each in
/// list order.
pub fn split_presence(friends: &Vec<Friend>) -> (r: (Vec<Friend>, Vec<Friend>))
    ensures
        views(r.0@) == online_of(views(friends@)),
        views(r.1@) == offline_of(views(friends@)),
{
    let ghost fs = views(friends@);
    let mut on: Vec<Friend> = Vec::new();
    let mut off: Vec<Friend> = Vec::new();
    let mut i: usize = 0;
    assert(fs.take(0) =~= Seq::<FriendView>::empty());
    assert(views(on@) =~= Seq::<FriendView>::empty());
    assert(views(off@) =~= Seq::<FriendView>::empty());
    while i < friends.len()
        invariant
            i <= friends@.len(),
            fs == views(friends@),
            views(on@) == online_of(fs.take(i as int)),
            views(off@) == offline_of(fs.take(i as int)),
        decreases friends@.len() - i,
    {
        assert(fs.take(i + 1).drop_last() =~= fs.take(i as int));
        assert(fs.take(i + 1).last() == friends@[i as int]@);
        let f = friends[i].clone();
        if f.state > 0 {
            let ghost before = on@;
            on.push(f);
            assert(views(on@) =~= views(before).push(friends@[i as int]@));
        } else {
            let ghost before = off@;
            off.push(f);
            assert(views(off@) =~= views(before).push(friends@[i as int]@));
        }
        i = i + 1;
    }
    assert(fs.take(i as int) =~= fs);
    (on, off)
}

/// The friends panel's summary: `<online> en línea  ·  <total> total`.
pub open spec fn friends_summary_of(online: nat, total: nat) -> Seq<char> {
    decimal(online) + " en línea  ·  "@ + decimal(total) + " total"@
}

/// The friends panel's summary.
pub fn friends_summary(online: usize, total: usize) -> (r: String)
    ensures
        r@ == friends_summary_of(online as nat, total as nat),
{
    let mut s = String::new();
    push_decimal(&mut s, online as u64);
    push_str(&mut s, " en línea  ·  ");
    push_decimal(&mut s, total as u64);
    push_str(&mut s, " total");
    assert(Seq::<char>::empty() + decimal(online as nat) =~= decimal(online as nat));
    s
}

/// The heading of the online group: `EN LÍNEA — <n>`.
pub open spec fn online_heading_of(n: nat) -> Seq<char> {
    "EN LÍNEA — "@ + decimal(n)
}

/// The heading of the offline group: `DESCONECTADO — <n>`.
pub open spec fn offline_heading_of(n: nat) -> Seq<char> {
    "DESCONECTADO — "@ + decimal(n)
}

/// The heading of the online group.
pub fn online_heading(n: usize) -> (r: String)
    ensures
        r@ == online_heading_of(n as nat),
{
    let mut s = "EN LÍNEA — ".to_owned();
    push_decimal(&mut s, n as u64);
    s
}

/// The heading of the offline group.
pub fn offline_heading(n: usize) -> (r: String)
    ensures
        r@ == offline_heading_of(n as nat),
{
    let mut s = "DESCONECTADO — ".to_owned();
    push_decimal(&mut s, n as u64);
    s
}

/// The letter on a friend's avatar: the first character of the name,
/// uppercased, or `?` for an empty name.
pub open spec fn initial_of(name: Seq<char>) -> Seq<char> {
    uppercase_of_char(
        if name.len() > 0 {
            name[0]
        } else {
            '?'
        },
    )
}

/// The letter on a friend's avatar.
pub fn friend_initial(name: &str) -> (r: String)
    ensures
        r@ == initial_of(name@),
{
    let n = chars_of(name);
    let c = if n.len() > 0 {
        n[0]
    } else {
        '?'
    };
    char_to_uppercase(c)
}

/// The line under a friend's name: the game being played, else the status.
pub open spec fn friend_subtitle_of(f: FriendView) -> Seq<char> {
    match f.game {
        Some(g) => "▶  "@ + g,
        None => status_label_of(f.state),
    }
}

/// The line under a friend's name.
pub fn friend_subtitle(f: &Friend) -> (r: String)
    ensures
        r@ == friend_subtitle_of(f@),
{
    match &f.game {
        Some(g) => {
            let mut s = "▶  ".to_owned();
            push_str(&mut s, g.as_str());
            s
        },
        None => f.status_label().to_owned(),
    }
}

// ---------------------------------------------------------------------------
// Settings screen
// ---------------------------------------------------------------------------

/// The settings' line naming the Steam folder: `Steam: <path>`.
pub open spec fn steam_path_label_of(path: Seq<char>) -> Seq<char> {
    "Steam: "@ + path
}

/// The settings' line naming the Steam folder.
pub fn steam_path_label(path: &str) -> (r: String)
    ensures
        r@ == steam_path_label_of(path@),
{
    let mut s = "Steam: ".to_owned();
    push_str(&mut s, path);
    s
}

/// Whether the window should be redrawn soon: images are waiting, or the
/// library or names are being loaded.
pub fn needs_repaint(images_pending: bool, loading: bool, resolving: bool) -> (r: bool)
    ensures
        r == (images_pending || loading || resolving),
{
    images_pending || loading || resolving
}

} // verus!
