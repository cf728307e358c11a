//! Reading values out of Steam's `appmanifest_*.acf` files.

use vstd::prelude::*;
use crate::text::{
    chars_of, find, occurs_at, find_seq, index_of, index_of_char, lemma_find_seq, lemma_index_of, string_of,
    sub_chars, trim_start, trim_start_seq,
};

verus! {

/// The key as it is written in an ACF file: between double quotes.
pub open spec fn quoted(k: Seq<char>) -> Seq<char> {
    seq!['"'] + k + seq!['"']
}

/// The value that `acf_val` reads for key `k` in `s`: after the first
/// occurrence of `"k"` and any whitespace, the text between the next pair of
/// double quotes; `None` when the key is missing, the next non-blank character
/// is not a quote, or the closing quote is missing.
pub open spec fn acf_value(s: Seq<char>, k: Seq<char>) -> Option<Seq<char>> {
    match find_seq(s, quoted(k)) {
        None => None,
        Some(pos) => {
            let after = trim_start_seq(s.skip(pos + quoted(k).len()));
            if after.len() > 0 && after[0] == '"' {
                let inner = after.skip(1);
                match index_of(inner, '"') {
                    Some(q) => Some(inner.take(q)),
                    None => None,
                }
            } else {
                None
            }
        },
    }
}

/// The value of key `k` in the ACF text `s` (see `acf_value`).
pub fn acf_val(s: &str, k: &str) -> (r: Option<String>)
    ensures
        r matches Some(v) ==> acf_value(s@, k@) == Some(v@),
        r is None ==> acf_value(s@, k@) is None,
{
    let sv = chars_of(s);
    let kv = chars_of(k);
    let mut search: Vec<char> = Vec::new();
    search.push('"');
    let mut i: usize = 0;
    while i < kv.len()
        invariant
            i <= kv@.len(),
            search@ == seq!['"'] + kv@.take(i as int),
        decreases kv@.len() - i,
    {
        search.push(kv[i]);
        assert(seq!['"'] + kv@.take(i as int).push(kv@[i as int]) =~= seq!['"'] + kv@.take(i + 1));
        i = i + 1;
    }
    search.push('"');
    assert(kv@.take(kv@.len() as int) =~= kv@);
    assert(search@ =~= quoted(k@));
    let pos = match find(sv.as_slice(), search.as_slice()) {
        Some(p) => p,
        None => return None,
    };
    proof {
        lemma_find_seq(sv@, search@);
        assert(find_seq(sv@, search@) == Some(pos as int));
        assert(occurs_at(sv@, search@, pos as int));
    }
    let slen = search.len();
    assert(pos + slen <= sv.len());
    let rest = sub_chars(sv.as_slice(), pos + slen, sv.len());
    assert(rest@ =~= sv@.skip(pos + search@.len()));
    let after = trim_start(rest.as_slice());
    if after.len() > 0 && after[0] == '"' {
        let inner = sub_chars(after.as_slice(), 1, after.len());
        assert(inner@ =~= after@.skip(1));
        match index_of_char(inner.as_slice(), '"') {
            Some(q) => {
                proof {
                    lemma_index_of(inner@, '"');
                }
                let v = sub_chars(inner.as_slice(), 0, q);
                assert(v@ =~= inner@.take(q as int));
                Some(string_of(v.as_slice()))
            },
            None => None,
        }
    } else {
        None
    }
}

} // verus!
