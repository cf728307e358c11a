//! Finding the Steam installation and steamcmd, and downloading a game
//! with steamcmd (or handing it to the Steam client).

use vstd::prelude::*;
use vstd::utf8::{decode_utf8, valid_utf8};
use crate::model::{install_url, install_url_of};
use crate::text::{
    chars_of, contains, contains_seq, decimal, ends_with_seq, find, find_seq, lemma_find_seq,
    lines, lines_seq, lowercase, occurs_at, string_of, sub_chars, to_decimal, to_lowercase, trim,
    trim_seq,
};

verus! {

// ---------------------------------------------------------------------------
// Paths (std)
// ---------------------------------------------------------------------------

/// A single relative path component that joining cannot reinterpret: not
/// empty, no separator, no drive colon, not `.` or `..`.
pub open spec fn plain_component(name: Seq<char>) -> bool {
    &&& name.len() > 0
    &&& forall|i: int| 0 <= i < name.len() ==> name[i] != '/' && name[i] != '\\' && name[i] != ':'
    &&& name != seq!['.']
    &&& name != seq!['.', '.']
}

/// A base path that joining keeps as it is: it has no `?`, so no verbatim
/// prefix (`\\?\`), whose `.` and `..` components joining would remove.
pub open spec fn plain_base(base: Seq<char>) -> bool {
    !base.contains('?')
}

/// What joining puts between a path and a relative name: nothing (the path
/// is empty or already ends in a separator) or one separator.
pub open spec fn join_gap(mid: Seq<char>) -> bool {
    mid.len() == 0 || (mid.len() == 1 && (mid[0] == '/' || mid[0] == '\\'))
}

/// `r` is `name` adjoined to `base`: the two, with at most one separator
/// between them.
pub open spec fn joined(base: Seq<char>, name: Seq<char>, r: Seq<char>) -> bool {
    exists|mid: Seq<char>| join_gap(mid) && r == base + mid + name
}

/// `Path::join` of a plain component, as a string
/// (`PathBuf::from(base).join(name)`): `base`, then at most one separator
/// (none when `base` is empty, ends in one or is a bare drive such as `C:`),
/// then `name`. Which separator is the platform's matter (`/` or `\`), and a
/// base with a verbatim prefix is normalised first: of such a base only that
/// the path ends with `name` is stated.
#[verifier::external_body]
fn path_join(base: &str, name: &str) -> (r: String)
    requires
        plain_component(name@),
    ensures
        ends_with_seq(r@, name@),
        plain_base(base@) ==> joined(base@, name@, r@),
{
    std::path::Path::new(base).join(name).to_string_lossy().into_owned()
}

/// `Path::exists`: whether something is at `p` on disk. Nothing is stated
/// of the answer, which depends on the disk.
#[verifier::external_body]
fn path_exists(p: &str) -> (r: bool) {
    std::path::Path::new(p).exists()
}

/// The first candidate whose flag is set.
pub open spec fn first_flagged(cands: Seq<Seq<char>>, flags: Seq<bool>) -> Option<Seq<char>>
    decreases cands.len(),
{
    if cands.len() == 0 || flags.len() == 0 {
        None
    } else if flags[0] {
        Some(cands[0])
    } else {
        first_flagged(cands.skip(1), flags.skip(1))
    }
}

/// The texts of a sequence of strings.
pub open spec fn string_texts(v: Seq<String>) -> Seq<Seq<char>> {
    v.map_values(|s: String| s@)
}

/// The first candidate whose flag is set (the flags tell which exist).
pub fn first_existing(cands: &Vec<String>, exists: &Vec<bool>) -> (r: Option<String>)
    ensures
        match r {
            Some(p) => first_flagged(string_texts(cands@), exists@) == Some(p@),
            None => first_flagged(string_texts(cands@), exists@) is None,
        },
{
    let ghost cs = string_texts(cands@);
    let mut i: usize = 0;
    assert(cs.skip(0) =~= cs);
    assert(exists@.skip(0) =~= exists@);
    while i < cands.len() && i < exists.len()
        invariant
            i <= cands@.len(),
            i <= exists@.len(),
            cs == string_texts(cands@),
            first_flagged(cs, exists@) == first_flagged(cs.skip(i as int), exists@.skip(i as int)),
        decreases cands@.len() - i,
    {
        if exists[i] {
            assert(cs.skip(i as int)[0] == cands@[i as int]@);
            return Some(cands[i].clone());
        }
        assert(cs.skip(i as int).skip(1) =~= cs.skip(i + 1));
        assert(exists@.skip(i as int).skip(1) =~= exists@.skip(i + 1));
        i = i + 1;
    }
    None
}

// ---------------------------------------------------------------------------
// Steam installation
// ---------------------------------------------------------------------------

/// The folders where Steam is usually installed, in the order they are tried.
pub open spec fn default_steam_dirs_of() -> Seq<Seq<char>> {
    seq![
        "C:\\Program Files (x86)\\Steam"@,
        "C:\\Program Files\\Steam"@,
        "D:\\Steam"@,
        "E:\\Steam"@,
    ]
}

/// The folders where Steam is usually installed.
pub fn default_steam_dirs() -> (r: Vec<String>)
    ensures
        string_texts(r@) == default_steam_dirs_of(),
{
    let r = vec![
        "C:\\Program Files (x86)\\Steam".to_owned(),
        "C:\\Program Files\\Steam".to_owned(),
        "D:\\Steam".to_owned(),
        "E:\\Steam".to_owned(),
    ];
    assert(string_texts(r@) =~= default_steam_dirs_of());
    r
}

/// The `steamapps` folder of the folder `dir`.
pub fn steamapps_dir(dir: &str) -> (r: String)
    ensures
        ends_with_seq(r@, "steamapps"@),
        plain_base(dir@) ==> joined(dir@, "steamapps"@, r@),
{
    proof {
        lemma_plain_literals();
    }
    path_join(dir, "steamapps")
}

/// Whether the folder `dir` holds a `steamapps` folder: whether
/// `steamapps_dir(dir)` exists on disk (nothing is stated of the answer).
pub fn has_steamapps(dir: &str) -> bool {
    let p = steamapps_dir(dir);
    path_exists(p.as_str())
}

/// The first of the folders `dirs` that holds a `steamapps` folder. Which
/// folders exist is the disk's matter: the result is one of `dirs`.
pub fn first_with_steamapps(dirs: &Vec<String>) -> (r: Option<String>)
    ensures
        r matches Some(d) ==> string_texts(dirs@).contains(d@),
{
    let mut flags: Vec<bool> = Vec::new();
    let mut i: usize = 0;
    while i < dirs.len()
        invariant
            i <= dirs@.len(),
            flags@.len() == i,
        decreases dirs@.len() - i,
    {
        flags.push(has_steamapps(dirs[i].as_str()));
        i = i + 1;
    }
    let r = first_existing(dirs, &flags);
    proof {
        lemma_first_flagged_member(string_texts(dirs@), flags@);
    }
    r
}

/// Where the search for the Steam folder stands after the usual folders
/// were tried.
#[derive(Debug)]
pub enum SteamSearch {
    /// A usual folder holds `steamapps`: this is the Steam folder.
    Found(String),
    /// None does: the registry is to be asked (`reg query` for `SteamPath`).
    AskRegistry,
}

/// The first step of finding Steam: the first of the usual folders
/// (`default_steam_dirs`) that holds `steamapps`, else ask the registry.
pub fn find_steam_start() -> (r: SteamSearch)
    ensures
        r matches SteamSearch::Found(d) ==> default_steam_dirs_of().contains(d@),
{
    let dirs = default_steam_dirs();
    match first_with_steamapps(&dirs) {
        Some(d) => SteamSearch::Found(d),
        None => SteamSearch::AskRegistry,
    }
}

/// The last step of finding Steam: of the folders the registry names in
/// `reg_stdout` (the output of the `reg query`, `None` when it could not
/// run), the first that holds `steamapps`.
pub fn find_steam_in_registry(reg_stdout: Option<&[u8]>) -> (r: Option<String>)
    ensures
        reg_stdout is None ==> r is None,
        r matches Some(d) ==> (reg_stdout matches Some(b) && reg_steam_paths_of(
            utf8_lossy(b@),
        ).contains(d@)),
{
    match reg_stdout {
        None => None,
        Some(b) => {
            let paths = reg_steam_paths(b);
            first_with_steamapps(&paths)
        },
    }
}

/// What `first_flagged` picks is one of the candidates.
pub proof fn lemma_first_flagged_member(cands: Seq<Seq<char>>, flags: Seq<bool>)
    ensures
        first_flagged(cands, flags) matches Some(p) ==> cands.contains(p),
    decreases cands.len(),
{
    if cands.len() > 0 && flags.len() > 0 {
        if flags[0] {
            assert(cands[0] == cands[0]);
        } else {
            lemma_first_flagged_member(cands.skip(1), flags.skip(1));
            if let Some(p) = first_flagged(cands.skip(1), flags.skip(1)) {
                let k = choose|k: int| 0 <= k < cands.skip(1).len() && cands.skip(1)[k] == p;
                assert(cands[k + 1] == p);
            }
        }
    }
}

/// What `String::from_utf8_lossy` makes of some bytes.
pub uninterp spec fn utf8_lossy(bytes: Seq<u8>) -> Seq<char>;

/// `String::from_utf8_lossy`: the text of some bytes, invalid sequences
/// replaced. Its result is named `utf8_lossy`; for valid UTF-8 it is the
/// decoded text, as the documentation says.
#[verifier::external_body]
fn lossy_text(bytes: &[u8]) -> (r: String)
    ensures
        r@ == utf8_lossy(bytes@),
        valid_utf8(bytes@) ==> r@ == decode_utf8(bytes@),
{
    String::from_utf8_lossy(bytes).into_owned()
}

/// The text after the last separator `pat`, the separators found left to
/// right without overlap (`s.split(pat).last()`).
pub open spec fn last_piece(s: Seq<char>, pat: Seq<char>) -> Seq<char>
    decreases s.len(),
{
    match find_seq(s, pat) {
        Some(i) => {
            if pat.len() > 0 && 0 <= i && i + pat.len() <= s.len() {
                last_piece(s.skip(i + pat.len()), pat)
            } else {
                s
            }
        },
        None => s,
    }
}

/// `s` with each `/` made a `\` (`s.replace("/", "\\")`).
pub open spec fn backslashed(s: Seq<char>) -> Seq<char> {
    s.map_values(
        |c: char|
            if c == '/' {
                '\\'
            } else {
                c
            },
    )
}

/// The separator of the columns of `reg query`'s output.
pub open spec fn reg_separator() -> Seq<char> {
    "    "@
}

/// The Steam folders named in the output of
/// `reg query HKCU\Software\Valve\Steam /v SteamPath`: on each line that
/// mentions `steampath` (in any case), the last column, trimmed, with `\`
/// for `/`.
pub open spec fn reg_steam_paths_of(text: Seq<char>) -> Seq<Seq<char>> {
    reg_lines_paths(lines_seq(text))
}

pub open spec fn reg_lines_paths(ls: Seq<Seq<char>>) -> Seq<Seq<char>>
    decreases ls.len(),
{
    if ls.len() == 0 {
        seq![]
    } else {
        let rest = reg_lines_paths(ls.drop_last());
        let l = ls.last();
        if contains_seq(lowercase(l), "steampath"@) {
            rest.push(backslashed(trim_seq(last_piece(l, reg_separator()))))
        } else {
            rest
        }
    }
}

/// `s.split(pat).last()` (see `last_piece`).
fn last_piece_of(s: &Vec<char>, pat: &Vec<char>) -> (r: Vec<char>)
    requires
        pat@.len() > 0,
    ensures
        r@ == last_piece(s@, pat@),
{
    let mut cur = sub_chars(s.as_slice(), 0, s.len());
    assert(cur@ =~= s@);
    loop
        invariant
            pat@.len() > 0,
            last_piece(s@, pat@) == last_piece(cur@, pat@),
        decreases cur@.len(),
    {
        match find(cur.as_slice(), pat.as_slice()) {
            None => {
                return cur;
            },
            Some(i) => {
                proof {
                    lemma_find_seq(cur@, pat@);
                }
                assert(occurs_at(cur@, pat@, i as int));
                let plen = pat.len();
                assert(i + plen <= cur.len());
                let next = sub_chars(cur.as_slice(), i + plen, cur.len());
                assert(next@ =~= cur@.skip(i + pat@.len()));
                cur = next;
            },
        }
    }
}

/// `s` with each `/` made a `\`.
fn backslash(s: &Vec<char>) -> (r: Vec<char>)
    ensures
        r@ == backslashed(s@),
{
    let mut r: Vec<char> = Vec::new();
    let mut i: usize = 0;
    while i < s.len()
        invariant
            i <= s@.len(),
            r@ == backslashed(s@.take(i as int)),
        decreases s@.len() - i,
    {
        let c = s[i];
        r.push(if c == '/' {
            '\\'
        } else {
            c
        });
        assert(backslashed(s@.take(i + 1)) =~= backslashed(s@.take(i as int)).push(
            if c == '/' {
                '\\'
            } else {
                c
            },
        ));
        i = i + 1;
    }
    assert(s@.take(i as int) =~= s@);
    r
}

/// The Steam folders named in the output of the `reg query` for `SteamPath`
/// (see `reg_steam_paths_of`).
pub fn reg_steam_paths(stdout: &[u8]) -> (r: Vec<String>)
    ensures
        string_texts(r@) == reg_steam_paths_of(utf8_lossy(stdout@)),
{
    let text = lossy_text(stdout);
    let tc = chars_of(text.as_str());
    let ls = lines(tc.as_slice());
    let ghost lsv = lines_seq(text@);
    let key = chars_of("steampath");
    let sep = chars_of("    ");
    proof {
        reveal_strlit("    ");
    }
    let mut r: Vec<String> = Vec::new();
    let mut i: usize = 0;
    assert(lsv.take(0) =~= Seq::<Seq<char>>::empty());
    assert(string_texts(r@) =~= Seq::<Seq<char>>::empty());
    while i < ls.len()
        invariant
            ls@.len() == lsv.len(),
            forall|k: int| 0 <= k < ls@.len() ==> (#[trigger] ls@[k])@ == lsv[k],
            key@ == "steampath"@,
            sep@ == reg_separator(),
            sep@.len() > 0,
            i <= ls@.len(),
            string_texts(r@) == reg_lines_paths(lsv.take(i as int)),
        decreases ls@.len() - i,
    {
        assert(lsv.take(i + 1).drop_last() =~= lsv.take(i as int));
        assert(lsv.take(i + 1).last() == lsv[i as int]);
        let low = to_lowercase(ls[i].as_slice());
        if contains(low.as_slice(), key.as_slice()) {
            let piece = last_piece_of(&ls[i], &sep);
            let t = trim(piece.as_slice());
            let b = backslash(&t);
            let p = string_of(b.as_slice());
            let ghost before = r@;
            r.push(p);
            assert(string_texts(r@) =~= string_texts(before).push(p@));
        }
        i = i + 1;
    }
    assert(lsv.take(i as int) =~= lsv);
    r
}

// ---------------------------------------------------------------------------
// steamcmd
// ---------------------------------------------------------------------------

/// Where steamcmd is looked for when it is not in the Steam folder.
pub open spec fn fallback_steamcmd() -> Seq<char> {
    "C:\\steamcmd\\steamcmd.exe"@
}

/// steamcmd's executable name.
pub open spec fn steamcmd_exe() -> Seq<char> {
    "steamcmd.exe"@
}

proof fn lemma_plain_literals()
    ensures
        !"steamapps"@.contains('?'),
        plain_component("steamcmd.exe"@),
        plain_component("steamapps"@),
        plain_component("common"@),
        ends_with_seq(fallback_steamcmd(), steamcmd_exe()),
{
    reveal_strlit("steamcmd.exe");
    reveal_strlit("steamapps");
    reveal_strlit("common");
    reveal_strlit("C:\\steamcmd\\steamcmd.exe");
    assert("steamapps"@.len() == 9);
    assert forall|i: int| 0 <= i < "steamapps"@.len() implies "steamapps"@[i] != '?' by {}
    assert("steamapps"@ != seq!['.']);
    assert("steamapps"@ != seq!['.', '.']);
    assert("common"@.len() == 6);
    assert("common"@ != seq!['.']);
    assert("common"@ != seq!['.', '.']);
    assert(fallback_steamcmd().skip(fallback_steamcmd().len() - steamcmd_exe().len())
        =~= steamcmd_exe());
}

/// A base without `?` joined with a name without `?` has no `?`.
proof fn lemma_join_plain(base: Seq<char>, mid: Seq<char>, name: Seq<char>)
    requires
        plain_base(base),
        join_gap(mid),
        !name.contains('?'),
    ensures
        plain_base(base + mid + name),
{
    let s = base + mid + name;
    if s.contains('?') {
        let i = choose|i: int| 0 <= i < s.len() && s[i] == '?';
        if i < base.len() {
            assert(base[i] == '?');
        } else if i < base.len() + mid.len() {
            assert(mid[i - base.len()] == '?');
        } else {
            assert(name[i - base.len() - mid.len()] == '?');
        }
    }
}

/// Where steamcmd may be, in the order it is looked for: `steamcmd.exe` in
/// the Steam folder `steam_path`, then `C:\steamcmd\steamcmd.exe`.
pub fn steamcmd_candidates(steam_path: &str) -> (r: Vec<String>)
    ensures
        r@.len() == 2,
        ends_with_seq(r@[0]@, steamcmd_exe()),
        plain_base(steam_path@) ==> joined(steam_path@, steamcmd_exe(), r@[0]@),
        r@[1]@ == fallback_steamcmd(),
{
    proof {
        lemma_plain_literals();
    }
    let first = path_join(steam_path, "steamcmd.exe");
    let second = "C:\\steamcmd\\steamcmd.exe".to_owned();
    vec![first, second]
}

/// Where steamcmd is installed, if it is in one of its usual places. Which
/// places hold it is the disk's matter: the result is one of
/// `steamcmd_candidates`, the first that exists (the one in the Steam folder
/// is tried first).
pub fn find_steamcmd(steam_path: &str) -> (r: Option<String>)
    ensures
        r matches Some(p) ==> ends_with_seq(p@, steamcmd_exe()) && (p@ == fallback_steamcmd() || (
        plain_base(steam_path@) ==> joined(steam_path@, steamcmd_exe(), p@))),
{
    proof {
        lemma_plain_literals();
    }
    let cands = steamcmd_candidates(steam_path);
    let mut flags: Vec<bool> = Vec::new();
    flags.push(path_exists(cands[0].as_str()));
    flags.push(path_exists(cands[1].as_str()));
    let r = first_existing(&cands, &flags);
    proof {
        lemma_first_flagged_member(string_texts(cands@), flags@);
        assert(string_texts(cands@)[0] == cands@[0]@);
        assert(string_texts(cands@)[1] == cands@[1]@);
        assert(string_texts(cands@).len() == 2);
    }
    r
}

/// `dir` is the folder `steamapps/common` of the Steam folder `steam`: the
/// names joined to it with at most one separator before each.
pub open spec fn is_common_dir(steam: Seq<char>, dir: Seq<char>) -> bool {
    exists|a: Seq<char>, b: Seq<char>|
        join_gap(a) && join_gap(b) && dir == steam + a + "steamapps"@ + b + "common"@
}

/// The folder steamcmd installs games into: `steamapps/common` in the
/// Steam folder.
pub fn steamcmd_install_dir(steam_path: &str) -> (r: String)
    ensures
        ends_with_seq(r@, "common"@),
        plain_base(steam_path@) ==> is_common_dir(steam_path@, r@),
{
    proof {
        lemma_plain_literals();
    }
    let apps = steamapps_dir(steam_path);
    let r = path_join(apps.as_str(), "common");
    proof {
        if plain_base(steam_path@) {
            let a = choose|a: Seq<char>| join_gap(a) && apps@ == steam_path@ + a + "steamapps"@;
            lemma_join_plain(steam_path@, a, "steamapps"@);
            let b = choose|b: Seq<char>| join_gap(b) && r@ == apps@ + b + "common"@;
            assert(r@ == steam_path@ + a + "steamapps"@ + b + "common"@);
        }
    }
    r
}

/// The steamcmd command line that logs in, installs `appid` into
/// `install_dir`, checks it and quits; the Steam Guard code goes after the
/// password when there is one.
pub open spec fn steamcmd_args_of(
    user: Seq<char>,
    pass: Seq<char>,
    guard: Seq<char>,
    install_dir: Seq<char>,
    appid: u64,
) -> Seq<Seq<char>> {
    seq!["+login"@, user, pass] + (if guard.len() > 0 {
        seq![guard]
    } else {
        seq![]
    }) + seq![
        "+force_install_dir"@,
        install_dir,
        "+app_update"@,
        decimal(appid as nat),
        "validate"@,
        "+quit"@,
    ]
}

/// The steamcmd arguments (see `steamcmd_args_of`).
pub fn steamcmd_args(
    user: &str,
    pass: &str,
    guard: &str,
    install_dir: &str,
    appid: u64,
) -> (r: Vec<String>)
    ensures
        string_texts(r@) == steamcmd_args_of(user@, pass@, guard@, install_dir@, appid),
{
    let mut r: Vec<String> = Vec::new();
    r.push("+login".to_owned());
    r.push(user.to_owned());
    r.push(pass.to_owned());
    if !guard.is_empty() {
        r.push(guard.to_owned());
    }
    r.push("+force_install_dir".to_owned());
    r.push(install_dir.to_owned());
    r.push("+app_update".to_owned());
    r.push(to_decimal(appid));
    r.push("validate".to_owned());
    r.push("+quit".to_owned());
    assert(string_texts(r@) =~= steamcmd_args_of(user@, pass@, guard@, install_dir@, appid));
    r
}

/// How a steamcmd run ended, as the client reports it.
#[derive(Debug, Clone, Copy, PartialEq, Eq, Structural)]
pub enum DownloadOutcome {
    Completed,
    NeedsGuardCode,
    WrongPassword,
    /// steamcmd could not do it: the Steam client is asked instead.
    HandedToSteam,
}

/// The outcome of a steamcmd run from its output: `Success` means done,
/// else `guard` means a Steam Guard code is wanted, else `Invalid` means a
/// wrong password; anything else, or a run that could not start, hands the
/// install to the Steam client.
pub open spec fn outcome_of(output: Option<Seq<char>>) -> DownloadOutcome {
    match output {
        None => DownloadOutcome::HandedToSteam,
        Some(t) => if contains_seq(t, "Success"@) {
            DownloadOutcome::Completed
        } else if contains_seq(t, "guard"@) {
            DownloadOutcome::NeedsGuardCode
        } else if contains_seq(t, "Invalid"@) {
            DownloadOutcome::WrongPassword
        } else {
            DownloadOutcome::HandedToSteam
        },
    }
}

/// The outcome of a steamcmd run from its standard output (`None` when it
/// could not be run).
pub fn download_outcome(stdout: Option<&[u8]>) -> (r: DownloadOutcome)
    ensures
        r == outcome_of(
            match stdout {
                Some(b) => Some(utf8_lossy(b@)),
                None => None,
            },
        ),
{
    match stdout {
        None => DownloadOutcome::HandedToSteam,
        Some(b) => {
            let text = lossy_text(b);
            let t = chars_of(text.as_str());
            let success = chars_of("Success");
            let guard = chars_of("guard");
            let invalid = chars_of("Invalid");
            if contains(t.as_slice(), success.as_slice()) {
                DownloadOutcome::Completed
            } else if contains(t.as_slice(), guard.as_slice()) {
                DownloadOutcome::NeedsGuardCode
            } else if contains(t.as_slice(), invalid.as_slice()) {
                DownloadOutcome::WrongPassword
            } else {
                DownloadOutcome::HandedToSteam
            }
        },
    }
}

/// The status line shown for an outcome.
pub open spec fn outcome_status_of(o: DownloadOutcome) -> Seq<char> {
    match o {
        DownloadOutcome::Completed => "¡Descarga completada!"@,
        DownloadOutcome::NeedsGuardCode => "Introduce el código Steam Guard en Ajustes."@,
        DownloadOutcome::WrongPassword => "Contraseña incorrecta."@,
        DownloadOutcome::HandedToSteam => "Abriendo Steam..."@,
    }
}

impl DownloadOutcome {
    /// The status line shown for the outcome.
    pub fn status(&self) -> (r: String)
        ensures
            r@ == outcome_status_of(*self),
    {
        match self {
            DownloadOutcome::Completed => "¡Descarga completada!".to_owned(),
            DownloadOutcome::NeedsGuardCode => "Introduce el código Steam Guard en Ajustes.".to_owned(),
            DownloadOutcome::WrongPassword => "Contraseña incorrecta.".to_owned(),
            DownloadOutcome::HandedToSteam => "Abriendo Steam...".to_owned(),
        }
    }

    /// Whether the Steam client is asked to install the game.
    pub fn hands_to_steam(&self) -> (r: bool)
        ensures
            r == (*self == DownloadOutcome::HandedToSteam),
    {
        match self {
            DownloadOutcome::HandedToSteam => true,
            _ => false,
        }
    }
}

/// The status shown while steamcmd connects.
pub open spec fn connecting_status_of() -> Seq<char> {
    "Conectando con Steam..."@
}

/// The status shown when there is no steamcmd and the Steam client installs.
pub open spec fn no_steamcmd_status_of() -> Seq<char> {
    "Abriendo Steam para instalar..."@
}

/// The status shown while steamcmd connects.
pub fn connecting_status() -> (r: String)
    ensures
        r@ == connecting_status_of(),
{
    "Conectando con Steam...".to_owned()
}

/// How a download is carried out.
#[derive(Debug)]
pub enum DownloadPlan {
    /// No steamcmd: the Steam client is asked to install (`url`), and the
    /// status says so.
    ThroughSteam { url: String, status: String },
    /// Run `program` with `args`.
    RunSteamCmd { program: String, args: Vec<String> },
}

/// The plan for downloading `appid`, given where steamcmd is (if anywhere)
/// and the folder to install into.
pub fn plan_with(
    steamcmd: Option<String>,
    install_dir: &str,
    user: &str,
    pass: &str,
    guard: &str,
    appid: u64,
) -> (r: DownloadPlan)
    ensures
        match steamcmd {
            None => r matches DownloadPlan::ThroughSteam { url, status } && url@ == install_url_of(
                appid,
            ) && status@ == no_steamcmd_status_of(),
            Some(cmd) => r matches DownloadPlan::RunSteamCmd { program, args } && program@ == cmd@
                && string_texts(args@) == steamcmd_args_of(
                user@,
                pass@,
                guard@,
                install_dir@,
                appid,
            ),
        },
{
    match steamcmd {
        None => DownloadPlan::ThroughSteam {
            url: install_url(appid),
            status: "Abriendo Steam para instalar...".to_owned(),
        },
        Some(cmd) => DownloadPlan::RunSteamCmd {
            program: cmd,
            args: steamcmd_args(user, pass, guard, install_dir, appid),
        },
    }
}

/// The plan for downloading `appid` into the Steam folder `steam_path`:
/// steamcmd where `find_steamcmd` finds it, the Steam client otherwise.
/// steamcmd installs into `steamcmd_install_dir(steam_path)`.
pub fn plan_download(
    steam_path: &str,
    user: &str,
    pass: &str,
    guard: &str,
    appid: u64,
) -> (r: DownloadPlan)
    ensures
        match r {
            DownloadPlan::ThroughSteam { url, status } => url@ == install_url_of(appid) && status@
                == no_steamcmd_status_of(),
            DownloadPlan::RunSteamCmd { program, args } => {
                &&& ends_with_seq(program@, steamcmd_exe())
                &&& (program@ == fallback_steamcmd() || (plain_base(steam_path@) ==> joined(
                    steam_path@,
                    steamcmd_exe(),
                    program@,
                )))
                &&& exists|dir: Seq<char>|
                    #![trigger steamcmd_args_of(user@, pass@, guard@, dir, appid)]
                    ends_with_seq(dir, "common"@) && (plain_base(steam_path@) ==> is_common_dir(
                        steam_path@,
                        dir,
                    )) && string_texts(args@) == steamcmd_args_of(
                        user@,
                        pass@,
                        guard@,
                        dir,
                        appid,
                    )
            },
        },
{
    let cmd = find_steamcmd(steam_path);
    let dir = steamcmd_install_dir(steam_path);
    plan_with(cmd, dir.as_str(), user, pass, guard, appid)
}

} // verus!
