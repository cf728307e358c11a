//! Properties of reading `localconfig.vdf`: blocks nested inside a game's or
//! a friend's block belong to that entry and change nothing in it.

use vstd::prelude::*;
use crate::text::{contains_seq, lowercase, parse_u64_seq, trim_char_seq, trim_seq};
use crate::vdf::{playtime_field, apps_run, apps_step, friends_run, friends_step, AppsScan, FriendsScan};

verus! {

/// The line is an opening brace once trimmed.
pub open spec fn opens_block(line: Seq<char>) -> bool {
    trim_seq(line) == seq!['{']
}

/// The line is a closing brace once trimmed.
pub open spec fn closes_block(line: Seq<char>) -> bool {
    trim_seq(line) == seq!['}']
}

/// How many blocks the lines `ls` leave open: one more for each `{` line,
/// one fewer for each `}` line.
pub open spec fn level(ls: Seq<Seq<char>>) -> int
    decreases ls.len(),
{
    if ls.len() == 0 {
        0
    } else if opens_block(ls.last()) {
        level(ls.drop_last()) + 1
    } else if closes_block(ls.last()) {
        level(ls.drop_last()) - 1
    } else {
        level(ls.drop_last())
    }
}

/// The lines `ls` close every block they open and no other: blocks nested
/// in one another, and lines outside braces, in any number.
pub open spec fn balanced(ls: Seq<Seq<char>>) -> bool {
    &&& level(ls) == 0
    &&& forall|k: int| 0 <= k <= ls.len() ==> level(#[trigger] ls.take(k)) >= 0
}

// ---------------------------------------------------------------------------
// The apps section
// ---------------------------------------------------------------------------

/// The apps scan from the state `st` over the lines `ls`.
pub open spec fn apps_from(st: AppsScan, ls: Seq<Seq<char>>) -> AppsScan
    decreases ls.len(),
{
    if ls.len() == 0 {
        st
    } else {
        apps_step(apps_from(st, ls.drop_last()), ls.last())
    }
}

proof fn lemma_apps_from_one(st: AppsScan, l: Seq<char>)
    ensures
        apps_from(st, seq![l]) == apps_step(st, l),
{
    assert(seq![l].drop_last().len() == 0);
    assert(apps_from(st, seq![l].drop_last()) == st);
    assert(seq![l].last() == l);
}

proof fn lemma_apps_run_add(a: Seq<Seq<char>>, b: Seq<Seq<char>>)
    ensures
        apps_run(a + b) == apps_from(apps_run(a), b),
    decreases b.len(),
{
    if b.len() == 0 {
        assert(a + b =~= a);
    } else {
        lemma_apps_run_add(a, b.drop_last());
        assert((a + b).drop_last() =~= a + b.drop_last());
        assert((a + b).last() == b.last());
    }
}

proof fn lemma_apps_from_add(st: AppsScan, a: Seq<Seq<char>>, b: Seq<Seq<char>>)
    ensures
        apps_from(st, a + b) == apps_from(apps_from(st, a), b),
    decreases b.len(),
{
    if b.len() == 0 {
        assert(a + b =~= a);
    } else {
        lemma_apps_from_add(st, a, b.drop_last());
        assert((a + b).drop_last() =~= a + b.drop_last());
        assert((a + b).last() == b.last());
    }
}

/// Inside a nested block, the apps scan only counts the depth.
proof fn lemma_apps_inner(st: AppsScan, inner: Seq<Seq<char>>, k: int)
    requires
        st.in_apps,
        !st.stopped,
        st.depth == 3,
        balanced(inner),
        0 <= k <= inner.len(),
    ensures
        apps_from(st, inner.take(k)) == (AppsScan { depth: 3 + level(inner.take(k)), ..st }),
    decreases k,
{
    if k == 0 {
        assert(inner.take(0) =~= Seq::<Seq<char>>::empty());
    } else {
        lemma_apps_inner(st, inner, k - 1);
        assert(inner.take(k).drop_last() =~= inner.take(k - 1));
        assert(inner.take(k).last() == inner[k - 1]);
        assert(level(inner.take(k)) >= 0);
        assert(level(inner.take(k - 1)) >= 0);
    }
}

/// A block nested inside a game's block of the apps section (a `{` line,
/// balanced lines, a `}` line) changes nothing: it neither ends the
/// game's entry nor changes its appid or playtime, and what follows is read
/// as if it were not there. So a game's block with nested blocks gives one
/// entry, with the playtime written at the game's own level.
pub proof fn law_apps_nested_block_ignored(
    before: Seq<Seq<char>>,
    open: Seq<char>,
    inner: Seq<Seq<char>>,
    close: Seq<char>,
    after: Seq<Seq<char>>,
)
    requires
        apps_run(before).in_apps,
        !apps_run(before).stopped,
        apps_run(before).depth == 2,
        opens_block(open),
        balanced(inner),
        closes_block(close),
    ensures
        apps_run(before + (seq![open] + inner + seq![close]) + after) == apps_run(before + after),
{
    let st = apps_run(before);
    let nested = seq![open] + inner + seq![close];
    let s3 = apps_step(st, open);
    lemma_apps_from_one(st, open);
    lemma_apps_inner(s3, inner, inner.len() as int);
    assert(inner.take(inner.len() as int) =~= inner);
    lemma_apps_from_add(st, seq![open], inner);
    lemma_apps_from_add(st, seq![open] + inner, seq![close]);
    assert(apps_from(st, seq![open] + inner) == s3);
    lemma_apps_from_one(s3, close);
    assert(apps_step(s3, close) == st);
    assert(apps_from(st, nested) == st);
    lemma_apps_run_add(before, nested);
    lemma_apps_run_add(before + nested, after);
    lemma_apps_run_add(before, after);
}

/// A game's block in the apps section (its appid line, `{`, a `"Playtime"`
/// line, `}`) adds exactly one entry: that appid with that playtime.
pub proof fn law_apps_block_gives_one_entry(
    before: Seq<Seq<char>>,
    id_line: Seq<char>,
    id: u64,
    open: Seq<char>,
    playtime_line: Seq<char>,
    close: Seq<char>,
)
    requires
        apps_run(before).in_apps,
        !apps_run(before).stopped,
        apps_run(before).depth == 1,
        !opens_block(id_line) && !closes_block(id_line),
        parse_u64_seq(trim_char_seq(trim_seq(id_line), '"')) == Some(id),
        opens_block(open),
        !opens_block(playtime_line) && !closes_block(playtime_line),
        closes_block(close),
    ensures
        contains_seq(lowercase(trim_seq(playtime_line)), "\"playtime\""@) ==> apps_run(
            before + seq![id_line, open, playtime_line, close],
        ).entries == apps_run(before).entries.push((id, playtime_field(trim_seq(playtime_line)))),
{
    let ls = seq![id_line, open, playtime_line, close];
    lemma_apps_run_add(before, ls);
    let st = apps_run(before);
    let s1 = apps_step(st, id_line);
    let s2 = apps_step(s1, open);
    let s3 = apps_step(s2, playtime_line);
    let s4 = apps_step(s3, close);
    lemma_apps_from_one(st, id_line);
    assert(seq![id_line] + seq![open] =~= seq![id_line, open]);
    lemma_apps_from_add(st, seq![id_line], seq![open]);
    lemma_apps_from_one(s1, open);
    assert(seq![id_line, open] + seq![playtime_line] =~= seq![id_line, open, playtime_line]);
    lemma_apps_from_add(st, seq![id_line, open], seq![playtime_line]);
    lemma_apps_from_one(s2, playtime_line);
    assert(seq![id_line, open, playtime_line] + seq![close] =~= ls);
    lemma_apps_from_add(st, seq![id_line, open, playtime_line], seq![close]);
    lemma_apps_from_one(s3, close);
    assert(apps_from(st, ls) == s4);
}

// ---------------------------------------------------------------------------
// The friends section
// ---------------------------------------------------------------------------

/// The friends scan from the state `st` over the lines `ls`.
pub open spec fn friends_from(st: FriendsScan, ls: Seq<Seq<char>>) -> FriendsScan
    decreases ls.len(),
{
    if ls.len() == 0 {
        st
    } else {
        friends_step(friends_from(st, ls.drop_last()), ls.last())
    }
}

proof fn lemma_friends_from_one(st: FriendsScan, l: Seq<char>)
    ensures
        friends_from(st, seq![l]) == friends_step(st, l),
{
    assert(seq![l].drop_last().len() == 0);
    assert(friends_from(st, seq![l].drop_last()) == st);
    assert(seq![l].last() == l);
}

proof fn lemma_friends_run_add(a: Seq<Seq<char>>, b: Seq<Seq<char>>)
    ensures
        friends_run(a + b) == friends_from(friends_run(a), b),
    decreases b.len(),
{
    if b.len() == 0 {
        assert(a + b =~= a);
    } else {
        lemma_friends_run_add(a, b.drop_last());
        assert((a + b).drop_last() =~= a + b.drop_last());
        assert((a + b).last() == b.last());
    }
}

proof fn lemma_friends_from_add(st: FriendsScan, a: Seq<Seq<char>>, b: Seq<Seq<char>>)
    ensures
        friends_from(st, a + b) == friends_from(friends_from(st, a), b),
    decreases b.len(),
{
    if b.len() == 0 {
        assert(a + b =~= a);
    } else {
        lemma_friends_from_add(st, a, b.drop_last());
        assert((a + b).drop_last() =~= a + b.drop_last());
        assert((a + b).last() == b.last());
    }
}

/// Inside a nested block, the friends scan only counts the depth.
proof fn lemma_friends_inner(st: FriendsScan, inner: Seq<Seq<char>>, k: int)
    requires
        st.in_friends,
        !st.stopped,
        st.depth == 3,
        balanced(inner),
        braces_name_no_section(),
        0 <= k <= inner.len(),
    ensures
        friends_from(st, inner.take(k)) == (FriendsScan { depth: 3 + level(inner.take(k)), ..st }),
    decreases k,
{
    if k == 0 {
        assert(inner.take(0) =~= Seq::<Seq<char>>::empty());
    } else {
        lemma_friends_inner(st, inner, k - 1);
        assert(inner.take(k).drop_last() =~= inner.take(k - 1));
        assert(inner.take(k).last() == inner[k - 1]);
        assert(level(inner.take(k)) >= 0);
        assert(level(inner.take(k - 1)) >= 0);
    }
}

/// The lowercase of a lone brace does not name the friends section (the
/// friends scan looks for that name before it looks at braces).
pub open spec fn braces_name_no_section() -> bool {
    &&& !contains_seq(lowercase(seq!['{']), "\"friends\""@)
    &&& !contains_seq(lowercase(seq!['}']), "\"friends\""@)
}

/// A block nested inside a friend's block (a `{` line, balanced
/// lines, a `}` line) changes nothing: the friend is not ended there, its
/// name, state and game are kept, and the fields after the nested block
/// still belong to the same friend. (Stated where lowercasing a lone brace
/// does not give the section's name, which Unicode's mapping ensures but
/// the library leaves unstated.)
pub proof fn law_friends_nested_block_ignored(
    before: Seq<Seq<char>>,
    open: Seq<char>,
    inner: Seq<Seq<char>>,
    close: Seq<char>,
    after: Seq<Seq<char>>,
)
    requires
        friends_run(before).in_friends,
        !friends_run(before).stopped,
        friends_run(before).depth == 2,
        opens_block(open),
        balanced(inner),
        closes_block(close),
    ensures
        braces_name_no_section() ==> friends_run(before + (seq![open] + inner + seq![close]) + after)
            == friends_run(before + after),
{
    if !braces_name_no_section() {
        return;
    }
    let st = friends_run(before);
    let nested = seq![open] + inner + seq![close];
    let s3 = friends_step(st, open);
    lemma_friends_from_one(st, open);
    lemma_friends_inner(s3, inner, inner.len() as int);
    assert(inner.take(inner.len() as int) =~= inner);
    lemma_friends_from_add(st, seq![open], inner);
    lemma_friends_from_add(st, seq![open] + inner, seq![close]);
    assert(friends_from(st, seq![open] + inner) == s3);
    lemma_friends_from_one(s3, close);
    assert(friends_step(s3, close) == st);
    assert(friends_from(st, nested) == st);
    lemma_friends_run_add(before, nested);
    lemma_friends_run_add(before + nested, after);
    lemma_friends_run_add(before, after);
}

} // verus!
