//! Reading the `apps` and `friends` sections of a user's `localconfig.vdf`.
//!
//! Both are read line by line, each line trimmed: the section starts after
//! the first line that names it, `{` and `}` lines open and close blocks,
//! the entries are the blocks two levels down, and reading stops when the
//! section's outer block closes.

use vstd::prelude::*;
use crate::model::{Friend, FriendView};
use crate::text::{
    chars_eq, chars_of, contains, contains_seq, index_of, index_of_char, lemma_index_of, lines, lines_seq,
    lowercase, parse_u64, parse_u64_seq, parse_u8, parse_u8_seq, split_char, split_seq, string_of,
    sub_chars, to_lowercase, trim, trim_char, trim_char_seq, trim_seq,
};

verus! {

// ---------------------------------------------------------------------------
// The apps section: playtime of every game the user has played
// ---------------------------------------------------------------------------

/// The state of the scan of the apps section after some lines.
pub struct AppsScan {
    pub in_apps: bool,
    pub depth: int,
    pub cur_id: Option<u64>,
    pub cur_pt: u64,
    pub stopped: bool,
    /// The `(appid, playtime)` pairs of the app blocks closed so far.
    pub entries: Seq<(u64, u64)>,
}

pub open spec fn apps_scan_start() -> AppsScan {
    AppsScan {
        in_apps: false,
        depth: 0,
        cur_id: None,
        cur_pt: 0,
        stopped: false,
        entries: seq![],
    }
}

/// The playtime written on a `"Playtime"  "<minutes>"` line: the fourth
/// piece between double quotes, `0` when it is missing or not a number.
pub open spec fn playtime_field(t: Seq<char>) -> u64 {
    let parts = split_seq(t, '"');
    let field = if parts.len() > 3 {
        parts[3]
    } else {
        seq!['0']
    };
    match parse_u64_seq(field) {
        Some(v) => v,
        None => 0,
    }
}

/// One line of the apps scan.
pub open spec fn apps_step(st: AppsScan, line: Seq<char>) -> AppsScan {
    let t = trim_seq(line);
    if st.stopped {
        st
    } else if !st.in_apps {
        AppsScan { in_apps: contains_seq(lowercase(t), "\"apps\""@), ..st }
    } else if t == seq!['{'] {
        AppsScan { depth: st.depth + 1, ..st }
    } else if t == seq!['}'] {
        let closes_app = st.depth == 2;
        AppsScan {
            depth: st.depth - 1,
            stopped: st.depth - 1 <= 0,
            cur_id: if closes_app {
                None
            } else {
                st.cur_id
            },
            cur_pt: if closes_app {
                0
            } else {
                st.cur_pt
            },
            entries: if closes_app && st.cur_id is Some {
                st.entries.push((st.cur_id->0, st.cur_pt))
            } else {
                st.entries
            },
            ..st
        }
    } else if st.depth == 1 {
        match parse_u64_seq(trim_char_seq(t, '"')) {
            Some(id) => AppsScan { cur_id: Some(id), ..st },
            None => st,
        }
    } else if st.depth == 2 && contains_seq(lowercase(t), "\"playtime\""@) {
        AppsScan { cur_pt: playtime_field(t), ..st }
    } else {
        st
    }
}

/// The apps scan after the lines `ls`.
pub open spec fn apps_run(ls: Seq<Seq<char>>) -> AppsScan
    decreases ls.len(),
{
    if ls.len() == 0 {
        apps_scan_start()
    } else {
        apps_step(apps_run(ls.drop_last()), ls.last())
    }
}

/// The `(appid, playtime)` entries of the apps section of a
/// `localconfig.vdf`, in file order.
pub open spec fn apps_entries(content: Seq<char>) -> Seq<(u64, u64)> {
    apps_run(lines_seq(content)).entries
}

proof fn lemma_apps_run_stopped(ls: Seq<Seq<char>>, j: int)
    requires
        0 <= j <= ls.len(),
        apps_run(ls.take(j)).stopped,
    ensures
        apps_run(ls) == apps_run(ls.take(j)),
    decreases ls.len(),
{
    if ls.len() == j {
        assert(ls.take(j) =~= ls);
    } else {
        assert(ls.drop_last().take(j) =~= ls.take(j));
        lemma_apps_run_stopped(ls.drop_last(), j);
    }
}

/// The line is exactly the single character `c`.
fn is_single(t: &Vec<char>, c: char) -> (r: bool)
    ensures
        r == (t@ == seq![c]),
{
    if t.len() == 1 && t[0] == c {
        assert(t@ =~= seq![c]);
        true
    } else {
        false
    }
}

/// The playtime on a `"Playtime"` line (see `playtime_field`).
fn playtime_value(t: &Vec<char>) -> (r: u64)
    ensures
        r == playtime_field(t@),
{
    let parts = split_char(t.as_slice(), '"');
    if parts.len() > 3 {
        match parse_u64(parts[3].as_slice()) {
            Some(v) => v,
            None => 0,
        }
    } else {
        let zero = vec!['0'];
        assert(zero@ =~= seq!['0']);
        match parse_u64(zero.as_slice()) {
            Some(v) => v,
            None => 0,
        }
    }
}

/// The `(appid, playtime)` entries of the apps section of a `localconfig.vdf`.
pub fn scan_apps(content: &str) -> (r: Vec<(u64, u64)>)
    ensures
        r@ == apps_entries(content@),
{
    let chars = chars_of(content);
    let ls = lines(chars.as_slice());
    let ghost lsv = lines_seq(content@);
    let apps_key = chars_of("\"apps\"");
    let playtime_key = chars_of("\"playtime\"");
    let mut in_apps = false;
    let mut depth: i128 = 0;
    let mut cur_id: Option<u64> = None;
    let mut cur_pt: u64 = 0;
    let mut out: Vec<(u64, u64)> = Vec::new();
    let mut i: usize = 0;
    assert(lsv.take(0) =~= Seq::<Seq<char>>::empty());
    while i < ls.len()
        invariant
            lsv == lines_seq(content@),
            ls@.len() == lsv.len(),
            forall|k: int| 0 <= k < ls@.len() ==> (#[trigger] ls@[k])@ == lsv[k],
            apps_key@ == "\"apps\""@,
            playtime_key@ == "\"playtime\""@,
            i <= ls@.len(),
            0 <= depth <= i,
            apps_run(lsv.take(i as int)) == (AppsScan {
                in_apps,
                depth: depth as int,
                cur_id,
                cur_pt,
                stopped: false,
                entries: out@,
            }),
        decreases ls@.len() - i,
    {
        let ghost before = apps_run(lsv.take(i as int));
        assert(lsv.take(i + 1).drop_last() =~= lsv.take(i as int));
        assert(lsv.take(i + 1).last() == lsv[i as int]);
        let t = trim(ls[i].as_slice());
        if !in_apps {
            let low = to_lowercase(t.as_slice());
            if contains(low.as_slice(), apps_key.as_slice()) {
                in_apps = true;
            }
        } else if is_single(&t, '{') {
            depth = depth + 1;
        } else if is_single(&t, '}') {
            if depth == 2 {
                if let Some(id) = cur_id {
                    out.push((id, cur_pt));
                }
                cur_id = None;
                cur_pt = 0;
            }
            depth = depth - 1;
            if depth <= 0 {
                proof {
                    assert(apps_run(lsv.take(i + 1)) == apps_step(before, lsv[i as int]));
                    assert(apps_run(lsv.take(i + 1)).stopped);
                    assert(apps_run(lsv.take(i + 1)).entries == out@);
                    lemma_apps_run_stopped(lsv, i + 1);
                }
                return out;
            }
        } else if depth == 1 {
            let id_text = trim_char(t.as_slice(), '"');
            if let Some(id) = parse_u64(id_text.as_slice()) {
                cur_id = Some(id);
            }
        } else if depth == 2 {
            let low = to_lowercase(t.as_slice());
            if contains(low.as_slice(), playtime_key.as_slice()) {
                cur_pt = playtime_value(&t);
            }
        }
        i = i + 1;
    }
    assert(lsv.take(i as int) =~= lsv);
    out
}

// ---------------------------------------------------------------------------
// The friends section
// ---------------------------------------------------------------------------

/// The state of the scan of the friends section after some lines.
pub struct FriendsScan {
    pub in_friends: bool,
    pub depth: int,
    pub name: Option<Seq<char>>,
    pub state: u8,
    pub game: Option<Seq<char>>,
    pub stopped: bool,
    /// The friends of the blocks closed so far that had a name.
    pub friends: Seq<FriendView>,
}

pub open spec fn friends_scan_start() -> FriendsScan {
    FriendsScan {
        in_friends: false,
        depth: 0,
        name: None,
        state: 0,
        game: None,
        stopped: false,
        friends: seq![],
    }
}

/// The key of a `"key"<TAB>"value"` line: before the first tab, trimmed,
/// without quotes, lowercased.
pub open spec fn field_key(t: Seq<char>, tab: int) -> Seq<char> {
    lowercase(trim_char_seq(trim_seq(t.take(tab)), '"'))
}

/// The value of a `"key"<TAB>"value"` line: after the first tab, trimmed,
/// without quotes.
pub open spec fn field_value(t: Seq<char>, tab: int) -> Seq<char> {
    trim_char_seq(trim_seq(t.skip(tab + 1)), '"')
}

/// One field line inside a friend's block.
pub open spec fn friend_field(st: FriendsScan, t: Seq<char>) -> FriendsScan {
    match index_of(t, '\t') {
        None => st,
        Some(tab) => {
            let k = field_key(t, tab);
            let v = field_value(t, tab);
            if k == "name"@ {
                FriendsScan { name: Some(v), ..st }
            } else if k == "personastate"@ {
                FriendsScan {
                    state: match parse_u8_seq(v) {
                        Some(s) => s,
                        None => 0,
                    },
                    ..st
                }
            } else if k == "gamename"@ {
                FriendsScan { game: Some(v), ..st }
            } else {
                st
            }
        },
    }
}

/// One line of the friends scan.
pub open spec fn friends_step(st: FriendsScan, line: Seq<char>) -> FriendsScan {
    let t = trim_seq(line);
    if st.stopped {
        st
    } else if contains_seq(lowercase(t), "\"friends\""@) {
        FriendsScan { in_friends: true, ..st }
    } else if !st.in_friends {
        st
    } else if t == seq!['{'] {
        FriendsScan { depth: st.depth + 1, ..st }
    } else if t == seq!['}'] {
        let closes = st.depth == 2;
        FriendsScan {
            depth: st.depth - 1,
            stopped: st.depth - 1 <= 0,
            name: if closes {
                None
            } else {
                st.name
            },
            state: if closes {
                0
            } else {
                st.state
            },
            game: if closes {
                None
            } else {
                st.game
            },
            friends: if closes && st.name is Some {
                st.friends.push(FriendView { name: st.name->0, state: st.state, game: st.game })
            } else {
                st.friends
            },
            ..st
        }
    } else if st.depth == 2 {
        friend_field(st, t)
    } else {
        st
    }
}

/// The friends scan after the lines `ls`.
pub open spec fn friends_run(ls: Seq<Seq<char>>) -> FriendsScan
    decreases ls.len(),
{
    if ls.len() == 0 {
        friends_scan_start()
    } else {
        friends_step(friends_run(ls.drop_last()), ls.last())
    }
}

/// The friends listed in a `localconfig.vdf`, in file order.
pub open spec fn friends_in(content: Seq<char>) -> Seq<FriendView> {
    friends_run(lines_seq(content)).friends
}

proof fn lemma_friends_run_stopped(ls: Seq<Seq<char>>, j: int)
    requires
        0 <= j <= ls.len(),
        friends_run(ls.take(j)).stopped,
    ensures
        friends_run(ls) == friends_run(ls.take(j)),
    decreases ls.len(),
{
    if ls.len() == j {
        assert(ls.take(j) =~= ls);
    } else {
        assert(ls.drop_last().take(j) =~= ls.take(j));
        lemma_friends_run_stopped(ls.drop_last(), j);
    }
}

/// The optional text as a string.
fn string_opt(v: &Option<Vec<char>>) -> (r: Option<String>)
    ensures
        match v {
            Some(c) => r matches Some(s) && s@ == c@,
            None => r is None,
        },
{
    match v {
        Some(c) => Some(string_of(c.as_slice())),
        None => None,
    }
}

/// The friends listed in one `localconfig.vdf`, in file order.
pub fn scan_friends(content: &str) -> (r: Vec<Friend>)
    ensures
        r@.len() == friends_in(content@).len(),
        forall|k: int| 0 <= k < r@.len() ==> (#[trigger] r@[k])@ == friends_in(content@)[k],
{
    let chars = chars_of(content);
    let ls = lines(chars.as_slice());
    let ghost lsv = lines_seq(content@);
    let friends_key = chars_of("\"friends\"");
    let name_key = chars_of("name");
    let state_key = chars_of("personastate");
    let game_key = chars_of("gamename");
    let mut in_friends = false;
    let mut depth: i128 = 0;
    let mut name: Option<Vec<char>> = None;
    let mut state: u8 = 0;
    let mut game: Option<Vec<char>> = None;
    let mut out: Vec<Friend> = Vec::new();
    let ghost mut outv: Seq<FriendView> = seq![];
    let mut i: usize = 0;
    assert(lsv.take(0) =~= Seq::<Seq<char>>::empty());
    while i < ls.len()
        invariant
            lsv == lines_seq(content@),
            ls@.len() == lsv.len(),
            forall|k: int| 0 <= k < ls@.len() ==> (#[trigger] ls@[k])@ == lsv[k],
            friends_key@ == "\"friends\""@,
            name_key@ == "name"@,
            state_key@ == "personastate"@,
            game_key@ == "gamename"@,
            i <= ls@.len(),
            0 <= depth <= i,
            out@.len() == outv.len(),
            forall|k: int| 0 <= k < out@.len() ==> (#[trigger] out@[k])@ == outv[k],
            friends_run(lsv.take(i as int)) == (FriendsScan {
                in_friends,
                depth: depth as int,
                name: match name {
                    Some(n) => Some(n@),
                    None => None,
                },
                state,
                game: match game {
                    Some(g) => Some(g@),
                    None => None,
                },
                stopped: false,
                friends: outv,
            }),
        decreases ls@.len() - i,
    {
        let ghost before = friends_run(lsv.take(i as int));
        assert(lsv.take(i + 1).drop_last() =~= lsv.take(i as int));
        assert(lsv.take(i + 1).last() == lsv[i as int]);
        let t = trim(ls[i].as_slice());
        let low = to_lowercase(t.as_slice());
        if contains(low.as_slice(), friends_key.as_slice()) {
            in_friends = true;
        } else if !in_friends {
        } else if is_single(&t, '{') {
            depth = depth + 1;
        } else if is_single(&t, '}') {
            if depth == 2 {
                match &name {
                    Some(n) => {
                        let f = Friend { name: string_of(n.as_slice()), state, game: string_opt(&game) };
                        proof {
                            outv = outv.push(f@);
                        }
                        out.push(f);
                    },
                    None => {},
                }
                name = None;
                state = 0;
                game = None;
            }
            depth = depth - 1;
            if depth <= 0 {
                proof {
                    assert(friends_run(lsv.take(i + 1)) == friends_step(before, lsv[i as int]));
                    assert(friends_run(lsv.take(i + 1)).stopped);
                    assert(friends_run(lsv.take(i + 1)).friends == outv);
                    lemma_friends_run_stopped(lsv, i + 1);
                }
                return out;
            }
        } else if depth == 2 {
            match index_of_char(t.as_slice(), '\t') {
                None => {},
                Some(tab) => {
                    proof {
                        lemma_index_of(t@, '\t');
                    }
                    let kpart = sub_chars(t.as_slice(), 0, tab);
                    let vpart = sub_chars(t.as_slice(), tab + 1, t.len());
                    assert(kpart@ =~= t@.take(tab as int));
                    assert(vpart@ =~= t@.skip(tab + 1));
                    let ktrim = trim(kpart.as_slice());
                    let kbare = trim_char(ktrim.as_slice(), '"');
                    let k = to_lowercase(kbare.as_slice());
                    let vtrim = trim(vpart.as_slice());
                    let v = trim_char(vtrim.as_slice(), '"');
                    if chars_eq(k.as_slice(), name_key.as_slice()) {
                        name = Some(v);
                    } else if chars_eq(k.as_slice(), state_key.as_slice()) {
                        state = match parse_u8(v.as_slice()) {
                            Some(s) => s,
                            None => 0,
                        };
                    } else if chars_eq(k.as_slice(), game_key.as_slice()) {
                        game = Some(v);
                    }
                },
            }
        }
        i = i + 1;
    }
    assert(lsv.take(i as int) =~= lsv);
    out
}

} // verus!
