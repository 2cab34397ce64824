//! Where SteamVR is installed: the registry fallback order, the path of
//! `vrstartup.exe` below a Steam folder, and the depth-first search for
//! `vrstartup.exe` below a folder the user picked.
//!
//! Registry reads and file-system probes are made by the caller; the
//! functions here decide what to ask next and what the answers mean.
use vstd::prelude::*;
use crate::text::same_text;
use crate::windows_path::{
    body_start, file_name, is_body_sep, is_component, is_plain_folder, is_plain_name, is_verbatim,
    last_component, lemma_parent_of_folder_and_name,
    lemma_prefix_len_le, lemma_seg_start_after, parent, path_file_name, path_parent,
};

verus! {

/// The SteamVR installation that was found.
#[derive(Debug, Clone)]
pub struct SteamPaths {
    /// The SteamVR installation folder.
    pub steamvr_path: String,
    /// The full path of the SteamVR launcher.
    pub steamvr_exe: String,
}

/// Why the Steam folder could not be found.
#[derive(Debug)]
pub enum SteamPathError {
    /// A registry read failed, with the reason.
    RegistryError(String),
    /// The registry holds no Steam folder.
    SteamNotFound,
}

/// The launcher's path relative to the Steam folder.
pub const STEAMVR_EXE_REL: &'static str = "steamapps\\common\\SteamVR\\bin\\win64\\vrstartup.exe";

/// The launcher's file name.
pub const VRSTARTUP_EXE: &'static str = "vrstartup.exe";

/// The path of the SteamVR launcher below the Steam folder `steam_path`.
pub open spec fn steamvr_exe_of(steam_path: Seq<char>) -> Seq<char> {
    steam_path + "\\"@ + STEAMVR_EXE_REL@
}

/// The Steam folder from the first registry read that succeeded, tried in
/// the order `HKEY_CURRENT_USER\Software\Valve\Steam\SteamPath`,
/// `HKEY_LOCAL_MACHINE\SOFTWARE\WOW6432Node\Valve\SteamInstall\InstallPath`,
/// `HKEY_LOCAL_MACHINE\SOFTWARE\Valve\SteamInstall\InstallPath`; where all
/// three failed, the error of the last.
pub open spec fn first_found(
    hkcu: Result<String, SteamPathError>,
    hklm_wow64: Result<String, SteamPathError>,
    hklm: Result<String, SteamPathError>,
) -> Result<String, SteamPathError> {
    if hkcu is Ok {
        hkcu
    } else if hklm_wow64 is Ok {
        hklm_wow64
    } else {
        hklm
    }
}

impl SteamPathError {
    /// The text of the error, as it is shown to the user.
    pub fn message(&self) -> (r: String)
        ensures
            match self {
                SteamPathError::RegistryError(msg) => r@ == "注册表读取失败: "@ + msg@,
                SteamPathError::SteamNotFound => r@ == "未在注册表中找到 Steam 安装路径"@,
            },
    {
        match self {
            SteamPathError::RegistryError(msg) => {
                let mut r = "注册表读取失败: ".to_owned();
                r.append(msg.as_str());
                r
            },
            SteamPathError::SteamNotFound => "未在注册表中找到 Steam 安装路径".to_owned(),
        }
    }
}

/// The launcher's path below any Steam folder has `vrstartup.exe` as its
/// file name.
pub proof fn lemma_steamvr_exe_file_name(steam_path: Seq<char>)
    ensures
        file_name(steamvr_exe_of(steam_path)) == Some(VRSTARTUP_EXE@),
{
    reveal_strlit("\\");
    reveal_strlit("steamapps\\common\\SteamVR\\bin\\win64\\vrstartup.exe");
    reveal_strlit("vrstartup.exe");
    let full = steamvr_exe_of(steam_path);
    let n = steam_path.len() as int;
    assert(full.len() == n + 49);
    assert(full[n + 10] == '\\');
    assert(full[n + 17] == '\\');
    assert(full[n + 35] == '\\');
    lemma_prefix_len_le(full, n + 10, n + 17);
    assert(body_start(full) <= n + 19);
    let vb = is_verbatim(full);
    assert forall|m: int| n + 36 <= m < n + 49 implies !is_body_sep(vb, #[trigger] full[m]) by {
        assert(full[m] == VRSTARTUP_EXE@[m - n - 36]);
    }
    lemma_seg_start_after(full, vb, body_start(full), n + 49, n + 36);
    let name = full.subrange(n + 36, n + 49);
    assert(name =~= VRSTARTUP_EXE@);
    assert(is_component(name, vb)) by {
        assert(name.len() != seq!['.'].len());
    }
    assert(last_component(full, vb, body_start(full), n + 49) == Some((n + 36, n + 49)));
    assert(name != seq!['.']) by {
        assert(name.len() != seq!['.'].len());
    }
    assert(name != seq!['.', '.']) by {
        assert(name.len() != seq!['.', '.'].len());
    }
}

/// The launcher's path is the Steam folder itself, then `\\`, then the
/// launcher's path relative to it; so it lies below the Steam folder.
pub proof fn lemma_steamvr_exe_below(steam_path: Seq<char>)
    ensures
        steamvr_exe_of(steam_path).len() == steam_path.len() + 1 + STEAMVR_EXE_REL@.len(),
        steamvr_exe_of(steam_path).subrange(0, steam_path.len() as int) == steam_path,
        steamvr_exe_of(steam_path)[steam_path.len() as int] == '\\',
        steamvr_exe_of(steam_path).subrange(
            steam_path.len() + 1int,
            steamvr_exe_of(steam_path).len() as int,
        ) == STEAMVR_EXE_REL@,
        is_below(steamvr_exe_of(steam_path), steam_path),
{
    reveal_strlit("\\");
    let full = steamvr_exe_of(steam_path);
    let n = steam_path.len() as int;
    assert(full.subrange(0, n) =~= steam_path);
    assert(full.subrange(n + 1, full.len() as int) =~= STEAMVR_EXE_REL@);
}

/// The Steam folder, from the three registry reads in their order of
/// preference.
pub fn detect_steam_install_path(
    hkcu: Result<String, SteamPathError>,
    hklm_wow64: Result<String, SteamPathError>,
    hklm: Result<String, SteamPathError>,
) -> (r: Result<String, SteamPathError>)
    ensures
        r == first_found(hkcu, hklm_wow64, hklm),
{
    match hkcu {
        Ok(p) => Ok(p),
        Err(_) => match hklm_wow64 {
            Ok(p) => Ok(p),
            Err(_) => hklm,
        },
    }
}

/// The path of the SteamVR launcher below the Steam folder `steam_path`.
pub fn steamvr_exe_path(steam_path: &str) -> (r: String)
    ensures
        r@ == steamvr_exe_of(steam_path@),
{
    let mut r = steam_path.to_owned();
    r.append("\\");
    r.append(STEAMVR_EXE_REL);
    r
}

/// SteamVR as found from the registry: the Steam folder and the launcher
/// below it, where the registry gave a folder that is not empty and the
/// launcher exists there (`exe_exists`, as the caller found for
/// `steamvr_exe_path` of that folder).
pub fn detect_steam_path(install: Result<String, SteamPathError>, exe_exists: bool) -> (r: Option<
    SteamPaths,
>)
    ensures
        r is Some <==> (install is Ok && install->Ok_0@.len() > 0 && exe_exists),
        match r {
            Some(p) => p.steamvr_path@ == install->Ok_0@ && p.steamvr_path@.len() > 0
                && p.steamvr_exe@ == steamvr_exe_of(install->Ok_0@) && file_name(p.steamvr_exe@)
                == Some(VRSTARTUP_EXE@),
            None => true,
        },
{
    match install {
        Ok(steam_path) => {
            if steam_path.as_str().is_empty() {
                return None;
            }
            let steamvr_exe = steamvr_exe_path(steam_path.as_str());
            proof {
                lemma_steamvr_exe_file_name(steam_path@);
            }
            if !exe_exists {
                return None;
            }
            Some(SteamPaths { steamvr_path: steam_path, steamvr_exe })
        },
        Err(_) => None,
    }
}

/// A registry value that may hold the Steam folder.
#[derive(Debug, Clone, Copy)]
pub enum InstallKey {
    /// `HKEY_CURRENT_USER\Software\Valve\Steam\SteamPath`.
    CurrentUser,
    /// `HKEY_LOCAL_MACHINE\SOFTWARE\WOW6432Node\Valve\SteamInstall\InstallPath`.
    LocalMachineWow64,
    /// `HKEY_LOCAL_MACHINE\SOFTWARE\Valve\SteamInstall\InstallPath`.
    LocalMachine,
}

/// What to do after a registry read: read the next value, or stop with the
/// Steam folder or the last error.
#[derive(Debug)]
pub enum InstallLookup {
    /// Read this value next.
    Read(InstallKey),
    /// The lookup is over.
    Done(Result<String, SteamPathError>),
}

/// The step after reading `key` with `result`: a successful read ends the
/// lookup; a failed one moves on to the next value in order, and the last
/// failed one ends it with its error.
pub open spec fn install_step(key: InstallKey, result: Result<String, SteamPathError>) -> InstallLookup {
    if result is Ok {
        InstallLookup::Done(result)
    } else {
        match key {
            InstallKey::CurrentUser => InstallLookup::Read(InstallKey::LocalMachineWow64),
            InstallKey::LocalMachineWow64 => InstallLookup::Read(InstallKey::LocalMachine),
            InstallKey::LocalMachine => InstallLookup::Done(result),
        }
    }
}

/// The registry value to read first.
pub fn first_install_key() -> (k: InstallKey)
    ensures
        k is CurrentUser,
{
    InstallKey::CurrentUser
}

/// Decides what follows the read of `key`, which gave `result`.
pub fn next_install_lookup(key: InstallKey, result: Result<String, SteamPathError>) -> (r:
    InstallLookup)
    ensures
        r == install_step(key, result),
{
    match result {
        Ok(p) => InstallLookup::Done(Ok(p)),
        Err(e) => match key {
            InstallKey::CurrentUser => InstallLookup::Read(InstallKey::LocalMachineWow64),
            InstallKey::LocalMachineWow64 => InstallLookup::Read(InstallKey::LocalMachine),
            InstallKey::LocalMachine => InstallLookup::Done(Err(e)),
        },
    }
}

/// Following the steps from the first key reads the WOW6432Node value only
/// after the current user's read failed, the plain machine value only after
/// both failed, and ends with the same Steam folder or error as
/// `detect_steam_install_path`.
pub proof fn lemma_install_lookup_order(
    r1: Result<String, SteamPathError>,
    r2: Result<String, SteamPathError>,
    r3: Result<String, SteamPathError>,
)
    ensures
        r1 is Ok ==> install_step(InstallKey::CurrentUser, r1) == InstallLookup::Done(
            first_found(r1, r2, r3),
        ),
        r1 is Err ==> install_step(InstallKey::CurrentUser, r1) == InstallLookup::Read(
            InstallKey::LocalMachineWow64,
        ),
        r1 is Err && r2 is Ok ==> install_step(InstallKey::LocalMachineWow64, r2)
            == InstallLookup::Done(first_found(r1, r2, r3)),
        r1 is Err && r2 is Err ==> install_step(InstallKey::LocalMachineWow64, r2)
            == InstallLookup::Read(InstallKey::LocalMachine),
        r1 is Err && r2 is Err ==> install_step(InstallKey::LocalMachine, r3) == InstallLookup::Done(
            first_found(r1, r2, r3),
        ),
{
}

/// One entry of a folder listing, as the caller read it.
#[derive(Debug)]
pub enum ListedEntry {
    /// A file, with its full path.
    File(String),
    /// A folder, with its full path.
    Dir(String),
    /// Something that is neither a file nor a folder.
    Other,
    /// An entry that could not be read.
    Unreadable,
}

/// A listing entry seen as plain values.
pub enum EntryView {
    /// A file, with its full path.
    File(Seq<char>),
    /// A folder, with its full path.
    Dir(Seq<char>),
    /// Something that is neither a file nor a folder.
    Other,
    /// An entry that could not be read.
    Unreadable,
}

impl View for ListedEntry {
    type V = EntryView;

    open spec fn view(&self) -> EntryView {
        match self {
            ListedEntry::File(p) => EntryView::File(p@),
            ListedEntry::Dir(p) => EntryView::Dir(p@),
            ListedEntry::Other => EntryView::Other,
            ListedEntry::Unreadable => EntryView::Unreadable,
        }
    }
}

/// A file system as the search sees it: for each folder, its entries in
/// listing order, or `None` where the folder cannot be listed.
pub type FileSystem = spec_fn(Seq<char>) -> Option<Seq<EntryView>>;

/// A launcher that was found: its folder and its own path.
pub type Hit = (Seq<char>, Seq<char>);

/// The outcome of a search: `None` where it went deeper than it was allowed
/// to, `Some(None)` where it found nothing, `Some(Some(hit))` where it found
/// `hit`.
pub type Outcome = Option<Option<Hit>>;

/// The file at `p` is the launcher (named `vrstartup.exe`); the hit is its
/// folder and `p`.
pub open spec fn hit_at(p: Seq<char>) -> Option<Hit> {
    if file_name(p) == Some(VRSTARTUP_EXE@) {
        match parent(p) {
            Some(d) => Some((d, p)),
            None => None,
        }
    } else {
        None
    }
}

/// Any file named `vrstartup.exe` that has a parent folder is the
/// launcher, found in that folder; and only such files are.
pub proof fn lemma_hit_at_exact(p: Seq<char>)
    ensures
        forall|d: Seq<char>|
            file_name(p) == Some(VRSTARTUP_EXE@) && #[trigger] parent(p) == Some(d) ==> hit_at(p)
                == Some((d, p)),
        hit_at(p) matches Some(h) ==> h.1 == p && file_name(p) == Some(VRSTARTUP_EXE@) && parent(p)
            == Some(h.0),
{
}

/// A folder listing whose first entry is a file named `vrstartup.exe`
/// with a parent folder ends the search with that file, whatever follows.
pub proof fn lemma_scan_takes_first_launcher(
    fs: FileSystem,
    es: Seq<EntryView>,
    depth: nat,
    p: Seq<char>,
    d: Seq<char>,
)
    requires
        es.len() > 0,
        es[0] == EntryView::File(p),
        file_name(p) == Some(VRSTARTUP_EXE@),
        parent(p) == Some(d),
    ensures
        scan(fs, es, depth) == Some(Some((d, p))),
{
    lemma_hit_at_exact(p);
}

/// The launcher at a plain folder, `\\` and `vrstartup.exe` is found, in
/// that folder.
pub proof fn lemma_launcher_in_plain_folder(d: Seq<char>)
    requires
        is_plain_folder(d),
    ensures
        hit_at(d + seq!['\\'] + VRSTARTUP_EXE@) == Some((d, d + seq!['\\'] + VRSTARTUP_EXE@)),
{
    reveal_strlit("vrstartup.exe");
    let f = VRSTARTUP_EXE@;
    assert(is_plain_name(f)) by {
        assert(f.len() != seq!['.'].len());
        assert(f.len() != seq!['.', '.'].len());
    }
    lemma_parent_of_folder_and_name(d, f);
    lemma_hit_at_exact(d + seq!['\\'] + f);
}

/// Every launcher a search finds is a file named `vrstartup.exe`, given
/// with the folder it is in.
pub proof fn lemma_search_hits_are_launchers(fs: FileSystem, d: Seq<char>, depth: nat)
    ensures
        search_dir(fs, d, depth) matches Some(Some(h)) ==> file_name(h.1) == Some(VRSTARTUP_EXE@)
            && parent(h.1) == Some(h.0),
    decreases depth, 0nat,
{
    if depth > 0 {
        match fs(d) {
            None => {},
            Some(es) => {
                lemma_scan_hits_are_launchers(fs, es, (depth - 1) as nat);
            },
        }
    }
}

/// As `lemma_search_hits_are_launchers`, for the entries of one folder.
pub proof fn lemma_scan_hits_are_launchers(fs: FileSystem, es: Seq<EntryView>, depth: nat)
    ensures
        scan(fs, es, depth) matches Some(Some(h)) ==> file_name(h.1) == Some(VRSTARTUP_EXE@)
            && parent(h.1) == Some(h.0),
    decreases depth, es.len(),
{
    if es.len() > 0 {
        match es[0] {
            EntryView::Unreadable => {},
            EntryView::File(p) => {
                lemma_scan_hits_are_launchers(fs, es.drop_first(), depth);
            },
            EntryView::Dir(p) => {
                lemma_search_hits_are_launchers(fs, p, depth);
                lemma_scan_hits_are_launchers(fs, es.drop_first(), depth);
            },
            EntryView::Other => {
                lemma_scan_hits_are_launchers(fs, es.drop_first(), depth);
            },
        }
    }
}

/// `first`, unless it found nothing, in which case `rest`.
pub open spec fn or_else(first: Outcome, rest: Outcome) -> Outcome {
    match first {
        Some(None) => rest,
        _ => first,
    }
}

/// Depth-first search through the entries `es` of one folder, in order,
/// with `depth` more levels of folders allowed: a file that is the launcher
/// ends the search; a folder is searched before the entries after it; an
/// unreadable entry ends the search of this folder with nothing found.
pub open spec fn scan(fs: FileSystem, es: Seq<EntryView>, depth: nat) -> Outcome
    decreases depth, es.len(),
{
    if es.len() == 0 {
        Some(None)
    } else {
        match es[0] {
            EntryView::Unreadable => Some(None),
            EntryView::File(p) => match hit_at(p) {
                Some(h) => Some(Some(h)),
                None => scan(fs, es.drop_first(), depth),
            },
            EntryView::Dir(p) => or_else(search_dir(fs, p, depth), scan(fs, es.drop_first(), depth)),
            EntryView::Other => scan(fs, es.drop_first(), depth),
        }
    }
}

/// Depth-first search of the folder `d` for the launcher, with `depth`
/// levels of folders allowed; a folder that cannot be listed holds nothing.
pub open spec fn search_dir(fs: FileSystem, d: Seq<char>, depth: nat) -> Outcome
    decreases depth, 0nat,
{
    if depth == 0 {
        None
    } else {
        match fs(d) {
            None => Some(None),
            Some(es) => scan(fs, es, (depth - 1) as nat),
        }
    }
}

/// `fs` gives every listing in `answers` for its folder.
pub open spec fn agrees(fs: FileSystem, answers: Seq<(Seq<char>, Option<Seq<EntryView>>)>) -> bool {
    forall|i: int| 0 <= i < answers.len() ==> fs(#[trigger] answers[i].0) == answers[i].1
}

/// On every file system that gives the listings in `answers`, the search
/// of `root` with at least `bound` levels allowed has `outcome`.
pub open spec fn settled(
    root: Seq<char>,
    answers: Seq<(Seq<char>, Option<Seq<EntryView>>)>,
    bound: nat,
    outcome: Option<Hit>,
) -> bool {
    forall|fs: FileSystem, depth: nat|
        agrees(fs, answers) && depth >= bound ==> #[trigger] search_dir(fs, root, depth) == Some(
            outcome,
        )
}

/// The outcome of searching the pending entries of each open folder, the
/// innermost (last) first; `frames[i]` is `frames.len() - i` levels above
/// the allowed `depth`.
pub open spec fn frames_outcome(fs: FileSystem, frames: Seq<Seq<EntryView>>, depth: nat) -> Outcome
    decreases frames.len(),
{
    if frames.len() == 0 {
        Some(None)
    } else {
        or_else(
            scan(fs, frames.last(), (depth - frames.len()) as nat),
            frames_outcome(fs, frames.drop_last(), depth),
        )
    }
}

/// `p` lies below the folder `dir`: it is longer and starts with it.
pub open spec fn is_below(p: Seq<char>, dir: Seq<char>) -> bool {
    p.len() > dir.len() && p.subrange(0, dir.len() as int) == dir
}

/// A file or folder entry lies below `dir`.
pub open spec fn entry_below(e: EntryView, dir: Seq<char>) -> bool {
    match e {
        EntryView::File(p) => is_below(p, dir),
        EntryView::Dir(p) => is_below(p, dir),
        _ => true,
    }
}

/// Every file and folder in `listing` lies below `dir`.
pub open spec fn listing_below(listing: Option<Seq<EntryView>>, dir: Seq<char>) -> bool {
    match listing {
        Some(es) => forall|i: int| 0 <= i < es.len() ==> entry_below(#[trigger] es[i], dir),
        None => true,
    }
}

/// An entry of a listing that lies below `dir` lies below `dir`.
proof fn lemma_listed_entry_below(
    listing: Option<Seq<EntryView>>,
    dir: Seq<char>,
    es: Seq<EntryView>,
    j: int,
)
    requires
        listing_below(listing, dir),
        listing == Some(es),
        0 <= j < es.len(),
    ensures
        entry_below(es[j], dir),
{
    let ls = listing->0;
    assert(ls == es);
    assert(entry_below(ls[j], dir));
}

/// A file or folder entry has a path of at least `n` characters.
pub open spec fn entry_len_at_least(e: EntryView, n: int) -> bool {
    match e {
        EntryView::File(p) => p.len() >= n,
        EntryView::Dir(p) => p.len() >= n,
        _ => true,
    }
}

/// Every folder asked for in `answers` is at most `extra` characters longer
/// than `root`.
pub open spec fn asked_within(
    answers: Seq<(Seq<char>, Option<Seq<EntryView>>)>,
    root: Seq<char>,
    extra: nat,
) -> bool {
    forall|i: int| 0 <= i < answers.len() ==> (#[trigger] answers[i]).0.len() <= root.len() + extra
}

/// Lying below a folder that lies below `root` is lying below `root`.
pub proof fn lemma_below_trans(p: Seq<char>, q: Seq<char>, root: Seq<char>)
    requires
        is_below(p, q),
        is_below(q, root),
    ensures
        is_below(p, root),
{
    assert(p.subrange(0, root.len() as int) =~= p.subrange(0, q.len() as int).subrange(
        0,
        root.len() as int,
    ));
}

/// How many entries a search through `es` (with `depth` more levels of
/// folders allowed) may look at: each entry, and the entries below each
/// folder.
pub open spec fn entries_work(fs: FileSystem, es: Seq<EntryView>, depth: nat) -> nat
    decreases depth, es.len(),
{
    if es.len() == 0 {
        0
    } else {
        1 + match es[0] {
            EntryView::Dir(p) => dir_work(fs, p, depth),
            _ => 0,
        } + entries_work(fs, es.drop_first(), depth)
    }
}

/// How many entries a search of the folder `d` may look at.
pub open spec fn dir_work(fs: FileSystem, d: Seq<char>, depth: nat) -> nat
    decreases depth, 0nat,
{
    if depth == 0 {
        0
    } else {
        match fs(d) {
            None => 0,
            Some(es) => entries_work(fs, es, (depth - 1) as nat),
        }
    }
}

/// How many entries the pending entries of the open folders may still
/// lead the search to look at.
pub open spec fn frames_work(fs: FileSystem, frames: Seq<Seq<EntryView>>, depth: nat) -> nat
    decreases frames.len(),
{
    if frames.len() == 0 {
        0
    } else {
        entries_work(fs, frames.last(), (depth - frames.len()) as nat) + frames_work(
            fs,
            frames.drop_last(),
            depth,
        )
    }
}

pub proof fn lemma_or_else_assoc(a: Outcome, b: Outcome, c: Outcome)
    ensures
        or_else(or_else(a, b), c) == or_else(a, or_else(b, c)),
{
}

/// Once a search has an outcome with some depth allowed, allowing more
/// depth does not change it.
pub proof fn lemma_search_dir_depth(fs: FileSystem, d: Seq<char>, depth: nat, more: nat)
    requires
        depth <= more,
        search_dir(fs, d, depth) is Some,
    ensures
        search_dir(fs, d, more) == search_dir(fs, d, depth),
    decreases depth, 0nat,
{
    match fs(d) {
        None => {},
        Some(es) => {
            lemma_scan_depth(fs, es, (depth - 1) as nat, (more - 1) as nat);
        },
    }
}

/// As `lemma_search_dir_depth`, for the entries of one folder.
pub proof fn lemma_scan_depth(fs: FileSystem, es: Seq<EntryView>, depth: nat, more: nat)
    requires
        depth <= more,
        scan(fs, es, depth) is Some,
    ensures
        scan(fs, es, more) == scan(fs, es, depth),
    decreases depth, es.len(),
{
    if es.len() > 0 {
        match es[0] {
            EntryView::Unreadable => {},
            EntryView::File(p) => {
                if hit_at(p) is None {
                    lemma_scan_depth(fs, es.drop_first(), depth, more);
                }
            },
            EntryView::Dir(p) => {
                lemma_search_dir_depth(fs, p, depth, more);
                if search_dir(fs, p, depth) == Some(None::<Hit>) {
                    lemma_scan_depth(fs, es.drop_first(), depth, more);
                }
            },
            EntryView::Other => {
                lemma_scan_depth(fs, es.drop_first(), depth, more);
            },
        }
    }
}


/// The launcher found at the file `p`, if `p` is named `vrstartup.exe`.
fn hit_of(p: &String) -> (r: Option<SteamPaths>)
    ensures
        match r {
            Some(sp) => hit_at(p@) == Some((sp.steamvr_path@, sp.steamvr_exe@)),
            None => hit_at(p@) is None,
        },
{
    match path_file_name(p.as_str()) {
        Some(n) => {
            if same_text(n.as_str(), VRSTARTUP_EXE) {
                match path_parent(p.as_str()) {
                    Some(d) => Some(SteamPaths { steamvr_path: d, steamvr_exe: p.clone() }),
                    None => None,
                }
            } else {
                None
            }
        },
        None => None,
    }
}

/// A folder whose listing is being searched: its entries and the index of
/// the next one to look at.
struct Frame {
    entries: Vec<ListedEntry>,
    next: usize,
}

/// The entries of `f` still to look at.
spec fn frame_view(f: Frame) -> Seq<EntryView> {
    f.entries@.subrange(f.next as int, f.entries@.len() as int).map_values(|e: ListedEntry| e@)
}

/// All the entries of `f`, looked at or not.
spec fn full_view(f: Frame) -> Seq<EntryView> {
    f.entries@.map_values(|e: ListedEntry| e@)
}

/// The `j`-th entry of the `a`-th listing in `answers` is the folder `p`.
pub open spec fn names_dir(
    answers: Seq<(Seq<char>, Option<Seq<EntryView>>)>,
    a: int,
    j: int,
    p: Seq<char>,
) -> bool {
    &&& 0 <= a < answers.len()
    &&& answers[a].1 matches Some(es)
    &&& 0 <= j < es.len()
    &&& es[j] == EntryView::Dir(p)
}

/// As in a tree: each folder is named by at most one entry of the listings
/// in `answers`, and `root` by none.
pub open spec fn names_each_once(
    answers: Seq<(Seq<char>, Option<Seq<EntryView>>)>,
    root: Seq<char>,
) -> bool {
    &&& forall|a1: int, j1: int, a2: int, j2: int, p: Seq<char>|
        #![trigger names_dir(answers, a1, j1, p), names_dir(answers, a2, j2, p)]
        names_dir(answers, a1, j1, p) && names_dir(answers, a2, j2, p) ==> a1 == a2 && j1 == j2
    &&& forall|a: int, j: int| !(#[trigger] names_dir(answers, a, j, root))
}

/// On the file system `fs`, the folders below `d` nest at most `h` deep:
/// every folder in the listing of `d` nests at most `h - 1` deep.
pub open spec fn height_within(fs: FileSystem, d: Seq<char>, h: nat) -> bool
    decreases h,
{
    match fs(d) {
        None => true,
        Some(es) => forall|j: int|
            0 <= j < es.len() ==> match #[trigger] es[j] {
                EntryView::Dir(p) => h > 0 && height_within(fs, p, (h - 1) as nat),
                _ => true,
            },
    }
}

/// No folder was asked for twice in `answers`.
pub open spec fn asked_once(answers: Seq<(Seq<char>, Option<Seq<EntryView>>)>) -> bool {
    forall|i: int, k: int|
        0 <= i < k < answers.len() ==> (#[trigger] answers[i]).0 != (#[trigger] answers[k]).0
}

/// A listing as plain values.
pub open spec fn listing_view(listing: Option<Vec<ListedEntry>>) -> Option<Seq<EntryView>> {
    match listing {
        Some(v) => Some(v@.map_values(|e: ListedEntry| e@)),
        None => None,
    }
}

/// What the search needs next, or its result.
#[derive(Debug)]
pub enum SearchStep {
    /// The listing of this folder is needed; pass it to `VrSearch::resume`.
    List(String),
    /// The launcher was found.
    Found(SteamPaths),
    /// The folder holds no launcher.
    NotFound,
}

/// A depth-first search for `vrstartup.exe` below a folder, driven by the
/// folder listings that the caller reads when asked.
pub struct VrSearch {
    frames: Vec<Frame>,
    awaiting: Option<String>,
    root: Ghost<Seq<char>>,
    answers: Ghost<Seq<(Seq<char>, Option<Seq<EntryView>>)>>,
    bound: Ghost<nat>,
    sources: Ghost<Seq<(int, int)>>,
    listed_by: Ghost<Seq<int>>,
}

/// Each open folder below the first (`frames`, whose listings are those
/// at `listed` in the answers) was named by the entry just looked at in the
/// folder above it (`sources`), and the first is the first asked for.
spec fn links(sources: Seq<(int, int)>, frames: Seq<Frame>, listed: Seq<int>) -> bool {
    &&& frames.len() > 0 ==> listed[0] == 0
    &&& forall|i: int| 0 <= i < frames.len() - 1 ==> (#[trigger] frames[i]).next >= 1
    &&& forall|i: int|
        1 <= i < frames.len() ==> #[trigger] sources[listed[i]] == (
            listed[i - 1],
            frames[i - 1].next - 1,
        )
}

/// Dropping open folders, or looking further in the innermost, keeps the
/// links.
proof fn lemma_links_kept(
    sources: Seq<(int, int)>,
    frames0: Seq<Frame>,
    listed0: Seq<int>,
    frames: Seq<Frame>,
    listed: Seq<int>,
)
    requires
        links(sources, frames0, listed0),
        listed0.len() == frames0.len(),
        frames.len() <= frames0.len(),
        listed.len() == frames.len(),
        forall|i: int| 0 <= i < frames.len() ==> #[trigger] listed[i] == listed0[i],
        forall|i: int| 0 <= i < frames.len() - 1 ==> #[trigger] frames[i] == frames0[i],
    ensures
        links(sources, frames, listed),
{
    if frames.len() > 0 {
        assert(listed[0] == listed0[0]);
    }
    assert forall|i: int| 0 <= i < frames.len() - 1 implies (#[trigger] frames[i]).next >= 1 by {
        assert(frames[i] == frames0[i]);
        assert(frames0[i].next >= 1);
    }
    assert forall|i: int| 1 <= i < frames.len() implies #[trigger] sources[listed[i]] == (
        listed[i - 1],
        frames[i - 1].next - 1,
    ) by {
        assert(listed[i] == listed0[i]);
        assert(listed[i - 1] == listed0[i - 1]);
        assert(frames[i - 1] == frames0[i - 1]);
        assert(sources[listed0[i]] == (listed0[i - 1], frames0[i - 1].next - 1));
    }
}

impl VrSearch {
    /// The folder the search started from.
    pub closed spec fn root(&self) -> Seq<char> {
        self.root@
    }

    /// Every listing the caller gave, with the folder it was asked for, in order.
    pub closed spec fn answers(&self) -> Seq<(Seq<char>, Option<Seq<EntryView>>)> {
        self.answers@
    }

    /// A depth that the search has not gone beyond.
    pub closed spec fn bound(&self) -> nat {
        self.bound@
    }

    /// How many folders are open: the folder the search started from and
    /// the folders below it that it is in the middle of.
    pub closed spec fn nesting(&self) -> nat {
        self.frames@.len()
    }

    /// The folder whose listing the search waits for.
    pub closed spec fn awaiting(&self) -> Option<Seq<char>> {
        match self.awaiting {
            Some(q) => Some(q@),
            None => None,
        }
    }

    closed spec fn frames_view(&self) -> Seq<Seq<EntryView>> {
        self.frames@.map_values(|f: Frame| frame_view(f))
    }

    closed spec fn frames_ok(&self) -> bool {
        &&& forall|i: int|
            0 <= i < self.frames@.len() ==> #[trigger] self.frames@[i].next
                <= self.frames@[i].entries@.len()
        &&& self.bound@ >= self.frames@.len() + 1
    }

    /// The outcome of the whole search equals that of the open folders.
    closed spec fn tracks(&self) -> bool {
        forall|fs: FileSystem, depth: nat|
            agrees(fs, self.answers@) && depth >= self.bound@ ==> #[trigger] search_dir(
                fs,
                self.root@,
                depth,
            ) == frames_outcome(fs, self.frames_view(), depth)
    }

    /// Every pending file and folder lies below the folder the search started from.
    closed spec fn below_root(&self) -> bool {
        forall|i: int, j: int|
            0 <= i < self.frames_view().len() && 0 <= j < self.frames_view()[i].len()
                ==> entry_below(#[trigger] self.frames_view()[i][j], self.root@)
    }

    /// The entries pending `i` folders down have paths at least `i + 1`
    /// characters longer than the root.
    closed spec fn deep(&self) -> bool {
        forall|i: int, j: int|
            0 <= i < self.frames_view().len() && 0 <= j < self.frames_view()[i].len()
                ==> entry_len_at_least(
                #[trigger] self.frames_view()[i][j],
                self.root@.len() + i + 1,
            )
    }

    /// The depth the search has reached is bounded by how much longer than
    /// the root the folders asked for are.
    closed spec fn bounded(&self) -> bool {
        forall|extra: nat|
            #[trigger] asked_within(self.answers@, self.root@, extra) ==> self.bound@ <= extra + 2
    }

    /// Where the answers grew by the listing of `q`, a folder at most `more`
    /// characters longer than the root, and the bound by at most to `more + 2`,
    /// the bound still follows from the folders asked for.
    proof fn lemma_bounded_after(
        &self,
        old_answers: Seq<(Seq<char>, Option<Seq<EntryView>>)>,
        old_bound: nat,
        more: int,
    )
        requires
            forall|extra: nat|
                #[trigger] asked_within(old_answers, self.root@, extra) ==> old_bound <= extra + 2,
            self.answers@.len() == old_answers.len() + 1,
            forall|i: int| 0 <= i < old_answers.len() ==> self.answers@[i] == old_answers[i],
            self.answers@.last().0.len() >= self.root@.len() + more,
            self.bound@ == old_bound || self.bound@ <= more + 2,
        ensures
            self.bounded(),
    {
        assert forall|extra: nat| #[trigger] asked_within(self.answers@, self.root@, extra) implies self.bound@
            <= extra + 2 by {
            assert forall|i: int| 0 <= i < old_answers.len() implies (
            #[trigger] old_answers[i]).0.len() <= self.root@.len() + extra by {
                assert(self.answers@[i] == old_answers[i]);
            }
            assert(asked_within(old_answers, self.root@, extra));
            let k = old_answers.len() as int;
            assert(self.answers@[k] == self.answers@.last());
        }
    }

    /// Each folder asked for after the first was named by an entry of an
    /// earlier listing (`sources`), no entry twice; each open folder's
    /// entries are those of a listing (`listed_by`), and the entries of it
    /// not yet looked at have named no folder asked for.
    closed spec fn sourced(&self) -> bool {
        let ans = self.answers@;
        &&& self.sources@.len() == ans.len()
        &&& ans.len() > 0 ==> ans[0].0 == self.root@
        &&& forall|k: int|
            1 <= k < ans.len() ==> (#[trigger] self.sources@[k]).0 < k && names_dir(
                ans,
                self.sources@[k].0,
                self.sources@[k].1,
                ans[k].0,
            )
        &&& forall|k1: int, k2: int|
            1 <= k1 < k2 < ans.len() ==> #[trigger] self.sources@[k1] != #[trigger] self.sources@[k2]
        &&& self.listed_by@.len() == self.frames@.len()
        &&& forall|i: int|
            0 <= i < self.frames@.len() ==> 0 <= #[trigger] self.listed_by@[i] < ans.len()
                && ans[self.listed_by@[i]].1 == Some(full_view(self.frames@[i]))
        &&& forall|i1: int, i2: int|
            0 <= i1 < i2 < self.frames@.len() ==> #[trigger] self.listed_by@[i1]
                < #[trigger] self.listed_by@[i2]
        &&& forall|k: int, i: int|
            1 <= k < ans.len() && 0 <= i < self.frames@.len() && (#[trigger] self.sources@[k]).0
                == #[trigger] self.listed_by@[i] ==> self.sources@[k].1 < self.frames@[i].next
    }

    /// Each open folder below the first was named by the entry just looked
    /// at in the folder above it.
    closed spec fn linked(&self) -> bool {
        links(self.sources@, self.frames@, self.listed_by@)
    }

    /// The depth bound is at most two more than how deep the folders nest
    /// on any file system that gives the listings handed so far.
    closed spec fn tall(&self) -> bool {
        forall|fs: FileSystem, h: nat|
            agrees(fs, self.answers@) && #[trigger] height_within(fs, self.root@, h)
                ==> self.bound@ <= h + 2
    }

    /// The `i`-th open folder nests at most `h - i` deep where the first
    /// nests at most `h` deep.
    proof fn lemma_open_folder_height(&self, fs: FileSystem, h: nat, i: int)
        requires
            self.sourced(),
            self.linked(),
            agrees(fs, self.answers@),
            height_within(fs, self.root@, h),
            0 <= i < self.frames@.len(),
        ensures
            i <= h,
            height_within(fs, self.answers@[self.listed_by@[i]].0, (h - i) as nat),
        decreases i,
    {
        let ans = self.answers@;
        if i == 0 {
            assert(self.listed_by@[0] == 0);
            assert(ans.len() > 0);
        } else {
            self.lemma_open_folder_height(fs, h, i - 1);
            let a = self.listed_by@[i - 1];
            let b = self.listed_by@[i];
            let t = self.frames@[i - 1].next - 1;
            assert(self.sources@[self.listed_by@[i]] == (a, t));
            assert(self.listed_by@[0] < b);
            assert(1 <= b < ans.len());
            assert(names_dir(ans, a, t, ans[b].0));
            let es = ans[a].1->0;
            assert(fs(ans[a].0) == ans[a].1);
            assert(es[t] == EntryView::Dir(ans[b].0));
        }
    }

    /// Where the answers grew by one listing, and the bound is unchanged,
    /// at most 2, or at most one more than the folders now open, the bound is
    /// still at most two more than how deep the folders nest.
    proof fn lemma_tall_after(
        &self,
        old_answers: Seq<(Seq<char>, Option<Seq<EntryView>>)>,
        old_bound: nat,
    )
        requires
            forall|fs: FileSystem, h: nat|
                agrees(fs, old_answers) && #[trigger] height_within(fs, self.root@, h) ==> old_bound
                    <= h + 2,
            self.answers@.len() == old_answers.len() + 1,
            forall|i: int| 0 <= i < old_answers.len() ==> self.answers@[i] == old_answers[i],
            self.bound@ == old_bound || self.bound@ <= 2 || (self.bound@ <= self.frames@.len() + 1
                && self.sourced() && self.linked()),
        ensures
            self.tall(),
    {
        assert forall|fs: FileSystem, h: nat|
            agrees(fs, self.answers@) && #[trigger] height_within(fs, self.root@, h) implies self.bound@
            <= h + 2 by {
            assert forall|i: int| 0 <= i < old_answers.len() implies fs(#[trigger] old_answers[i].0)
                == old_answers[i].1 by {
                assert(self.answers@[i] == old_answers[i]);
                assert(fs(self.answers@[i].0) == self.answers@[i].1);
            }
            if self.bound@ != old_bound && self.bound@ > 2 {
                self.lemma_open_folder_height(fs, h, self.frames@.len() - 1);
            }
        }
    }

    /// Where each folder is named once, as in a tree, no folder was asked
    /// for twice.
    proof fn lemma_asked_once(&self)
        requires
            self.sourced(),
        ensures
            names_each_once(self.answers@, self.root@) ==> asked_once(self.answers@),
    {
        let ans = self.answers@;
        if names_each_once(ans, self.root@) {
            assert forall|i: int, k: int| 0 <= i < k < ans.len() implies (#[trigger] ans[i]).0
                != (#[trigger] ans[k]).0 by {
                let (a2, j2) = self.sources@[k];
                assert(names_dir(ans, a2, j2, ans[k].0));
                if ans[i].0 == ans[k].0 {
                    if i == 0 {
                        assert(names_dir(ans, a2, j2, self.root@));
                    } else {
                        let (a1, j1) = self.sources@[i];
                        assert(names_dir(ans, a1, j1, ans[i].0));
                        assert(self.sources@[i] != self.sources@[k]);
                    }
                }
            }
        }
    }

    /// How many entries the search may still look at on the file system
    /// `fs`, with `depth` levels of folders allowed.
    pub closed spec fn remaining(&self, fs: FileSystem, depth: nat) -> nat {
        if self.frames@.len() == 0 {
            1 + dir_work(fs, self.root@, depth)
        } else {
            frames_work(fs, self.frames_view(), depth)
        }
    }

    /// The search waits for the listing of a folder, and its state is sound.
    pub closed spec fn wf(&self) -> bool {
        &&& self.frames_ok()
        &&& self.below_root()
        &&& self.deep()
        &&& self.bounded()
        &&& self.sourced()
        &&& self.linked()
        &&& self.tall()
        &&& self.frames@.len() == 0 ==> self.answers@.len() == 0
        &&& self.awaiting is Some
        &&& self.frames@.len() == 0 ==> self.awaiting() == Some(self.root@)
        &&& self.frames@.len() > 0 ==> {
            &&& self.frames_view().last().len() > 0
            &&& self.frames_view().last()[0] == EntryView::Dir(self.awaiting()->0)
            &&& self.tracks()
        }
    }

    /// Hands the search the listing of the folder it asked for (`None`
    /// where that folder could not be listed), whose files and folders lie
    /// below that folder, and goes on to its next step.  A folder it asks
    /// for next lies below the folder the search started from, and the
    /// entries it may still look at (`remaining`, on any file system that
    /// gives the listings handed so far, with at least `bound` levels
    /// allowed) have become fewer.  The open folders (`nesting`) stay below
    /// `bound`, and `bound` is at most two more than how deep the folders
    /// nest below the starting folder on any such file system
    /// (`height_within`), and than how much longer than the starting folder
    /// the folders asked for are.  So on a file system whose folders nest at
    /// most `h` deep, `remaining(fs, h + 2)` falls with every listing and
    /// the search ends, at most `h + 1` folders deep.  Where, as in a tree,
    /// each folder is named by one entry of the listings at most and the
    /// starting folder by none, no folder has been asked for twice.  A
    /// launcher it finds lies below the folder it started from.
    pub fn resume(&mut self, listing: Option<Vec<ListedEntry>>) -> (step: SearchStep)
        requires
            old(self).wf(),
            listing_below(listing_view(listing), old(self).awaiting()->0),
        ensures
            final(self).root() == old(self).root(),
            final(self).answers() == old(self).answers().push(
                (old(self).awaiting()->0, listing_view(listing)),
            ),
            old(self).bound() <= final(self).bound(),
            final(self).nesting() < final(self).bound(),
            forall|fs: FileSystem, h: nat|
                agrees(fs, final(self).answers()) && #[trigger] height_within(fs, final(self).root(), h)
                    ==> final(self).bound() <= h + 2,
            forall|extra: nat|
                #[trigger] asked_within(final(self).answers(), final(self).root(), extra)
                    ==> final(self).bound() <= extra + 2,
            step matches SearchStep::List(q) ==> is_below(q@, final(self).root()),
            names_each_once(final(self).answers(), final(self).root()) ==> asked_once(
                final(self).answers(),
            ),
            step is List ==> forall|fs: FileSystem, depth: nat|
                agrees(fs, final(self).answers()) && depth >= final(self).bound() ==> #[trigger] final(self).remaining(fs, depth)
                    < old(self).remaining(fs, depth),
            match step {
                SearchStep::List(q) => final(self).wf() && final(self).awaiting() == Some(q@),
                SearchStep::Found(p) => {
                    &&& settled(
                        final(self).root(),
                        final(self).answers(),
                        final(self).bound(),
                        Some((p.steamvr_path@, p.steamvr_exe@)),
                    )
                    &&& file_name(p.steamvr_exe@) == Some(VRSTARTUP_EXE@)
                    &&& parent(p.steamvr_exe@) == Some(p.steamvr_path@)
                    &&& is_below(p.steamvr_exe@, final(self).root())
                },
                SearchStep::NotFound => settled(
                    final(self).root(),
                    final(self).answers(),
                    final(self).bound(),
                    None,
                ),
            },
    {
        let ghost q = self.awaiting()->0;
        let ghost lv = listing_view(listing);
        let ghost old_view = self.frames_view();
        let ghost n = self.frames@.len();
        let ghost old_answers = self.answers@;
        let ghost old_sources = self.sources@;
        let ghost old_listed = self.listed_by@;
        self.awaiting = None;
        self.answers = Ghost(self.answers@.push((q, lv)));
        assert forall|fs: FileSystem| #[trigger] agrees(fs, self.answers@) implies agrees(
            fs,
            old_answers,
        ) && fs(q) == lv by {
            assert(self.answers@[old_answers.len() as int] == (q, lv));
            assert(fs(self.answers@[old_answers.len() as int].0) == self.answers@[old_answers.len() as int].1);
            assert forall|i: int| 0 <= i < old_answers.len() implies fs(
                #[trigger] old_answers[i].0,
            ) == old_answers[i].1 by {
                assert(self.answers@[i] == old_answers[i]);
                assert(fs(self.answers@[i].0) == self.answers@[i].1);
            }
        }
        if self.frames.len() == 0 {
            assert(old_answers.len() == 0);
            self.sources = Ghost(Seq::empty().push((0int, 0int)));
            match listing {
                None => {
                    assert forall|fs: FileSystem, depth: nat|
                        agrees(fs, self.answers@) && depth >= self.bound@ implies #[trigger] search_dir(
                        fs,
                        self.root@,
                        depth,
                    ) == Some(None::<Hit>) by {}
                    proof {
                        self.lemma_bounded_after(old_answers, old(self).bound@, 0);
                        self.lemma_tall_after(old_answers, old(self).bound@);
                        self.lemma_asked_once();
                    }
                    return SearchStep::NotFound;
                },
                Some(es) => {
                    let ghost es_view = es@.map_values(|e: ListedEntry| e@);
                    let frame = Frame { entries: es, next: 0 };
                    assert(frame_view(frame) =~= es_view);
                    self.frames.push(frame);
                    self.listed_by = Ghost(Seq::empty().push(0int));
                    self.bound = Ghost(if self.bound@ < 2 { 2nat } else { self.bound@ });
                    assert(self.frames_view() =~= seq![es_view]);
                    assert forall|fs: FileSystem, depth: nat|
                        agrees(fs, self.answers@) && depth >= self.bound@ implies #[trigger] search_dir(
                        fs,
                        self.root@,
                        depth,
                    ) == frames_outcome(fs, self.frames_view(), depth) by {
                        assert(fs(q) == lv);
                        assert(q == self.root@);
                        assert(self.frames_view().drop_last() =~= Seq::<Seq<EntryView>>::empty());
                        assert(self.frames_view().last() == es_view);
                        assert(search_dir(fs, self.root@, depth) == scan(fs, es_view, (depth - 1) as nat));
                        assert(frames_outcome(fs, self.frames_view().drop_last(), depth) == Some(None::<Hit>));
                    }
                    assert forall|i: int, j: int|
                        0 <= i < self.frames_view().len() && 0 <= j < self.frames_view()[i].len()
                            implies entry_below(#[trigger] self.frames_view()[i][j], self.root@) by {
                        assert(self.frames_view()[i] == es_view);
                        lemma_listed_entry_below(lv, q, es_view, j);
                    }
                    assert forall|i: int, j: int|
                        0 <= i < self.frames_view().len() && 0 <= j < self.frames_view()[i].len()
                            implies entry_len_at_least(
                            #[trigger] self.frames_view()[i][j],
                            self.root@.len() + i + 1,
                        ) by {
                        assert(self.frames_view()[i] == es_view);
                        lemma_listed_entry_below(lv, q, es_view, j);
                    }
                    proof {
                        self.lemma_bounded_after(old_answers, old(self).bound@, 0);
                        self.lemma_tall_after(old_answers, old(self).bound@);
                    }
                    assert forall|fs: FileSystem, depth: nat|
                        agrees(fs, self.answers@) && depth >= self.bound@ implies #[trigger] frames_work(
                        fs,
                        self.frames_view(),
                        depth,
                    ) + 1 == old(self).remaining(fs, depth) by {
                        assert(fs(q) == lv);
                        assert(self.frames_view().drop_last() =~= Seq::<Seq<EntryView>>::empty());
                        assert(self.frames_view().last() == es_view);
                        assert(dir_work(fs, self.root@, depth) == entries_work(fs, es_view, (depth - 1) as nat));
                        assert(old(self).frames@.len() == 0);
                        assert(old(self).remaining(fs, depth) == 1 + dir_work(fs, self.root@, depth));
                        assert(self.frames_view().len() == 1);
                        assert(frames_work(fs, Seq::<Seq<EntryView>>::empty(), depth) == 0);
                        assert(frames_work(fs, self.frames_view(), depth) == entries_work(fs, es_view, (depth - 1) as nat));
                    }
                },
            }
        } else {
            let ghost old_frames = self.frames@;
            let ghost t = old_frames[n - 1].next as int;
            let ghost a = self.listed_by@[n - 1];
            proof {
                assert(frame_view(old_frames[n - 1])[0] == full_view(old_frames[n - 1])[t]);
                assert(names_dir(self.answers@, a, t, q));
                assert forall|k: int| 1 <= k < old_answers.len() implies #[trigger] self.sources@[k] != (a, t) by {
                    if self.sources@[k].0 == self.listed_by@[n - 1] {
                        assert(self.sources@[k].1 < old_frames[n - 1].next);
                    }
                }
            }
            self.sources = Ghost(self.sources@.push((a, t)));
            assert(old_frames[n - 1].next <= old_frames[n - 1].entries@.len());
            let mut top = self.frames.pop().unwrap();
            assert(top == old_frames[n - 1]);
            assert(self.frames_view() =~= old_view.drop_last());
            assert(old_view.last() == frame_view(top));
            let ghost top_view = frame_view(top);
            assert(top_view.len() == top.entries@.len() - top.next);
            assert(old_view.last().len() > 0);
            let count = top.entries.len();
            assert(top.next < count);
            top.next = top.next + 1;
            assert(frame_view(top) =~= top_view.drop_first());
            self.frames.push(top);
            let ghost mid_view = self.frames_view();
            let ghost mid_frames = self.frames@;
            assert(mid_view =~= old_view.drop_last().push(top_view.drop_first()));
            assert(mid_view.drop_last() =~= old_view.drop_last());
            assert forall|i: int, j: int|
                0 <= i < mid_view.len() && 0 <= j < mid_view[i].len() implies entry_below(
                #[trigger] mid_view[i][j],
                self.root@,
            ) by {
                if i == n - 1 {
                    assert(mid_view[i] == top_view.drop_first());
                    assert(mid_view[i][j] == old_view[n - 1][j + 1]);
                } else {
                    assert(mid_view[i] == old_view[i]);
                }
            }
            assert forall|i: int, j: int|
                0 <= i < mid_view.len() && 0 <= j < mid_view[i].len() implies entry_len_at_least(
                #[trigger] mid_view[i][j],
                self.root@.len() + i + 1,
            ) by {
                if i == n - 1 {
                    assert(mid_view[i] == top_view.drop_first());
                    assert(mid_view[i][j] == old_view[n - 1][j + 1]);
                } else {
                    assert(mid_view[i] == old_view[i]);
                }
            }
            assert forall|k: int, i: int|
                1 <= k < self.answers@.len() && 0 <= i < self.frames@.len() && (
                #[trigger] self.sources@[k]).0 == #[trigger] self.listed_by@[i] implies self.sources@[k].1
                < self.frames@[i].next by {
                assert(self.listed_by@[i] == old_listed[i]);
                if k < old_answers.len() {
                    assert(self.sources@[k] == old_sources[k]);
                    assert(old_sources[k].0 == old_listed[i] ==> old_sources[k].1 < old_frames[i].next);
                    assert(old_frames[i].next <= self.frames@[i].next);
                } else if i < n - 1 {
                    assert(old_listed[i] < old_listed[n - 1]);
                }
            }
            assert(q.len() >= self.root@.len() + n) by {
                assert(old_view[n - 1][0] == EntryView::Dir(q));
                assert(entry_len_at_least(old_view[n - 1][0], self.root@.len() + (n - 1) + 1));
            }
            match listing {
                None => {
                    assert forall|fs: FileSystem, depth: nat|
                        agrees(fs, self.answers@) && depth >= self.bound@ implies #[trigger] search_dir(
                        fs,
                        self.root@,
                        depth,
                    ) == frames_outcome(fs, self.frames_view(), depth) by {
                        let g = (depth - n) as nat;
                        assert(search_dir(fs, q, g) == Some(None::<Hit>));
                        assert(scan(fs, top_view, g) == scan(fs, top_view.drop_first(), g));
                    }
                    assert forall|fs: FileSystem, depth: nat|
                        agrees(fs, self.answers@) && depth >= self.bound@ implies #[trigger] frames_work(
                        fs,
                        self.frames_view(),
                        depth,
                    ) + 1 == old(self).remaining(fs, depth) by {
                        let g = (depth - n) as nat;
                        assert(fs(q) == lv);
                        assert(dir_work(fs, q, g) == 0);
                        assert(mid_view.last() == top_view.drop_first());
                        assert(frames_work(fs, old_view, depth) == entries_work(fs, top_view, g)
                            + frames_work(fs, old_view.drop_last(), depth));
                        assert(frames_work(fs, mid_view, depth) == entries_work(fs, top_view.drop_first(), g)
                            + frames_work(fs, old_view.drop_last(), depth));
                    }
                    proof {
                        self.lemma_bounded_after(old_answers, old(self).bound@, 0);
                        self.lemma_tall_after(old_answers, old(self).bound@);
                    }
                },
                Some(es) => {
                    let ghost es_view = es@.map_values(|e: ListedEntry| e@);
                    let frame = Frame { entries: es, next: 0 };
                    assert(frame_view(frame) =~= es_view);
                    self.frames.push(frame);
                    self.listed_by = Ghost(self.listed_by@.push(old_answers.len() as int));
                    assert forall|k: int, i: int|
                        1 <= k < self.answers@.len() && 0 <= i < self.frames@.len() && (
                        #[trigger] self.sources@[k]).0 == #[trigger] self.listed_by@[i] implies self.sources@[k].1
                        < self.frames@[i].next by {
                        if i == n {
                            assert(self.sources@[k].0 < k);
                        } else {
                            assert(self.frames@[i] == mid_frames[i]);
                            assert(self.listed_by@[i] == old_listed[i]);
                        }
                    }
                    self.bound = Ghost(
                        if self.bound@ < n + 2 {
                            (n + 2) as nat
                        } else {
                            self.bound@
                        },
                    );
                    assert(self.frames_view() =~= mid_view.push(es_view));
                    assert(self.frames_view().drop_last() =~= mid_view);
                    assert forall|fs: FileSystem, depth: nat|
                        agrees(fs, self.answers@) && depth >= self.bound@ implies #[trigger] search_dir(
                        fs,
                        self.root@,
                        depth,
                    ) == frames_outcome(fs, self.frames_view(), depth) by {
                        let g = (depth - n) as nat;
                        assert(fs(q) == lv);
                        assert(g >= 1);
                        assert(search_dir(fs, self.root@, depth) == frames_outcome(fs, old_view, depth));
                        assert(search_dir(fs, q, g) == scan(fs, es_view, (g - 1) as nat));
                        assert(frames_outcome(fs, old_view, depth) == or_else(scan(fs, top_view, g), frames_outcome(fs, old_view.drop_last(), depth)));
                        assert(self.frames_view().last() == es_view);
                        assert(frames_outcome(fs, self.frames_view(), depth) == or_else(scan(fs, es_view, (g - 1) as nat), frames_outcome(fs, mid_view, depth)));
                        assert(frames_outcome(fs, mid_view, depth) == or_else(scan(fs, top_view.drop_first(), g), frames_outcome(fs, old_view.drop_last(), depth)));
                        assert(scan(fs, top_view, g) == or_else(
                            scan(fs, es_view, (g - 1) as nat),
                            scan(fs, top_view.drop_first(), g),
                        ));
                        lemma_or_else_assoc(
                            scan(fs, es_view, (g - 1) as nat),
                            scan(fs, top_view.drop_first(), g),
                            frames_outcome(fs, old_view.drop_last(), depth),
                        );
                    }
                    assert forall|i: int, j: int|
                        0 <= i < self.frames_view().len() && 0 <= j < self.frames_view()[i].len()
                            implies entry_below(#[trigger] self.frames_view()[i][j], self.root@) by {
                        if i == n {
                            assert(self.frames_view()[i] == es_view);
                            lemma_listed_entry_below(lv, q, es_view, j);
                            assert(entry_below(old_view[n - 1][0], self.root@));
                            match es_view[j] {
                                EntryView::File(p) => lemma_below_trans(p, q, self.root@),
                                EntryView::Dir(p) => lemma_below_trans(p, q, self.root@),
                                _ => {},
                            }
                        } else if i == n - 1 {
                            assert(self.frames_view()[i] == top_view.drop_first());
                            assert(self.frames_view()[i][j] == old_view[n - 1][j + 1]);
                        } else {
                            assert(self.frames_view()[i] == old_view[i]);
                        }
                    }
                    assert forall|i: int, j: int|
                        0 <= i < self.frames_view().len() && 0 <= j < self.frames_view()[i].len()
                            implies entry_len_at_least(
                            #[trigger] self.frames_view()[i][j],
                            self.root@.len() + i + 1,
                        ) by {
                        if i == n {
                            assert(self.frames_view()[i] == es_view);
                            lemma_listed_entry_below(lv, q, es_view, j);
                        } else if i == n - 1 {
                            assert(self.frames_view()[i] == top_view.drop_first());
                            assert(self.frames_view()[i][j] == mid_view[n - 1][j]);
                        } else {
                            assert(self.frames_view()[i] == mid_view[i]);
                        }
                    }
                    proof {
                        self.lemma_bounded_after(old_answers, old(self).bound@, n as int);
                        self.lemma_tall_after(old_answers, old(self).bound@);
                    }
                    assert forall|fs: FileSystem, depth: nat|
                        agrees(fs, self.answers@) && depth >= self.bound@ implies #[trigger] frames_work(
                        fs,
                        self.frames_view(),
                        depth,
                    ) + 1 == old(self).remaining(fs, depth) by {
                        let g = (depth - n) as nat;
                        assert(fs(q) == lv);
                        assert(dir_work(fs, q, g) == entries_work(fs, es_view, (g - 1) as nat));
                        assert(mid_view.last() == top_view.drop_first());
                        assert(frames_work(fs, old_view, depth) == entries_work(fs, top_view, g)
                            + frames_work(fs, old_view.drop_last(), depth));
                        assert(frames_work(fs, mid_view, depth) == entries_work(fs, top_view.drop_first(), g)
                            + frames_work(fs, old_view.drop_last(), depth));
                        assert(frames_work(fs, self.frames_view(), depth) == entries_work(fs, es_view, (g - 1) as nat)
                            + frames_work(fs, mid_view, depth));
                    }
                },
            }
        }
        let ghost pre_view = self.frames_view();
        let step = self.run();
        proof {
            self.lemma_asked_once();
            if step is List {
                assert forall|fs: FileSystem, depth: nat|
                    agrees(fs, self.answers@) && depth >= self.bound@ implies #[trigger] self.remaining(
                    fs,
                    depth,
                ) < old(self).remaining(fs, depth) by {
                    assert(frames_work(fs, self.frames_view(), depth) <= frames_work(fs, pre_view, depth));
                }
            }
        }
        step
    }

    /// Looks at the pending entries until a folder listing is needed or the
    /// search ends.
    fn run(&mut self) -> (step: SearchStep)
        requires
            old(self).frames_ok(),
            old(self).tracks(),
            old(self).below_root(),
            old(self).deep(),
            old(self).bounded(),
            old(self).sourced(),
            old(self).linked(),
            old(self).tall(),
        ensures
            final(self).root() == old(self).root(),
            final(self).answers() == old(self).answers(),
            final(self).bound() == old(self).bound(),
            final(self).bounded(),
            final(self).sourced(),
            final(self).linked(),
            final(self).tall(),
            final(self).frames_ok(),
            step is List ==> final(self).frames@.len() > 0,
            step is List ==> forall|fs: FileSystem, depth: nat|
                depth >= final(self).bound() ==> #[trigger] frames_work(
                    fs,
                    final(self).frames_view(),
                    depth,
                ) <= frames_work(fs, old(self).frames_view(), depth),
            match step {
                SearchStep::List(q) => final(self).wf() && final(self).awaiting() == Some(q@),
                SearchStep::Found(p) => {
                    &&& settled(
                        final(self).root(),
                        final(self).answers(),
                        final(self).bound(),
                        Some((p.steamvr_path@, p.steamvr_exe@)),
                    )
                    &&& file_name(p.steamvr_exe@) == Some(VRSTARTUP_EXE@)
                    &&& parent(p.steamvr_exe@) == Some(p.steamvr_path@)
                    &&& is_below(p.steamvr_exe@, final(self).root())
                },
                SearchStep::NotFound => settled(
                    final(self).root(),
                    final(self).answers(),
                    final(self).bound(),
                    None,
                ),
            },
    {
        loop
            invariant
                self.frames_ok(),
                self.tracks(),
                self.below_root(),
                self.deep(),
                self.bounded(),
                self.sourced(),
                self.linked(),
                self.tall(),
                forall|fs: FileSystem, depth: nat|
                    depth >= self.bound@ ==> #[trigger] frames_work(fs, self.frames_view(), depth)
                        <= frames_work(fs, old(self).frames_view(), depth),
                self.root@ == old(self).root@,
                self.answers@ == old(self).answers@,
                self.bound@ == old(self).bound@,
            decreases self.frames@.len(), if self.frames@.len() > 0 {
                self.frames@.last().entries@.len() - self.frames@.last().next
            } else {
                0
            },
        {
            let ghost old_view = self.frames_view();
            let ghost n = self.frames@.len();
            if self.frames.len() == 0 {
                assert forall|fs: FileSystem, depth: nat|
                    agrees(fs, self.answers@) && depth >= self.bound@ implies #[trigger] search_dir(
                    fs,
                    self.root@,
                    depth,
                ) == Some(None::<Hit>) by {
                    assert(self.frames_view().len() == 0);
                }
                return SearchStep::NotFound;
            }
            let ghost loop_frames = self.frames@;
            let mut top = self.frames.pop().unwrap();
            let ghost old_listed = self.listed_by@;
            self.listed_by = Ghost(self.listed_by@.drop_last());
            assert(self.frames@ =~= loop_frames.drop_last());
            proof {
                lemma_links_kept(self.sources@, loop_frames, old_listed, self.frames@, self.listed_by@);
            }
            assert(self.frames_view() =~= old_view.drop_last());
            assert(old_view.last() == frame_view(top));
            let idx = top.next;
            if idx >= top.entries.len() {
                assert forall|fs: FileSystem, depth: nat|
                    agrees(fs, self.answers@) && depth >= self.bound@ implies #[trigger] search_dir(
                    fs,
                    self.root@,
                    depth,
                ) == frames_outcome(fs, self.frames_view(), depth) by {
                    assert(frame_view(top).len() == 0);
                }
                assert forall|fs: FileSystem, depth: nat| depth >= self.bound@ implies #[trigger] frames_work(
                    fs,
                    self.frames_view(),
                    depth,
                ) <= frames_work(fs, old(self).frames_view(), depth) by {
                    assert(frames_work(fs, old_view, depth) == entries_work(
                        fs,
                        old_view.last(),
                        (depth - n) as nat,
                    ) + frames_work(fs, old_view.drop_last(), depth));
                }
                continue ;
            }
            assert(frame_view(top)[0] == top.entries@[idx as int]@);
            assert(frame_view(top).drop_first() =~= frame_view(Frame { entries: top.entries, next: (idx + 1) as usize }));
            match &top.entries[idx] {
                ListedEntry::Unreadable => {
                    assert forall|fs: FileSystem, depth: nat|
                        agrees(fs, self.answers@) && depth >= self.bound@ implies #[trigger] search_dir(
                        fs,
                        self.root@,
                        depth,
                    ) == frames_outcome(fs, self.frames_view(), depth) by {
                        assert(scan(fs, frame_view(top), (depth - n) as nat) == Some(None::<Hit>));
                    }
                    assert forall|fs: FileSystem, depth: nat| depth >= self.bound@ implies #[trigger] frames_work(
                        fs,
                        self.frames_view(),
                        depth,
                    ) <= frames_work(fs, old(self).frames_view(), depth) by {
                        assert(frames_work(fs, old_view, depth) == entries_work(
                            fs,
                            old_view.last(),
                            (depth - n) as nat,
                        ) + frames_work(fs, old_view.drop_last(), depth));
                    }
                    continue ;
                },
                ListedEntry::Other => {
                    top.next = idx + 1;
                },
                ListedEntry::File(p) => {
                    match hit_of(p) {
                        Some(sp) => {
                            let ghost h = (sp.steamvr_path@, sp.steamvr_exe@);
                            assert forall|fs: FileSystem, depth: nat|
                                agrees(fs, self.answers@) && depth >= self.bound@ implies #[trigger] search_dir(
                                fs,
                                self.root@,
                                depth,
                            ) == Some(Some(h)) by {
                                assert(scan(fs, frame_view(top), (depth - n) as nat) == Some(Some(h)));
                            }
                            return SearchStep::Found(sp);
                        },
                        None => {
                            top.next = idx + 1;
                        },
                    }
                },
                ListedEntry::Dir(p) => {
                    let q = p.clone();
                    self.awaiting = Some(q.clone());
                    self.frames.push(top);
                    self.listed_by = Ghost(old_listed);
                    assert(self.frames@ =~= loop_frames.drop_last().push(top));
                    proof {
                        lemma_links_kept(self.sources@, loop_frames, old_listed, self.frames@, self.listed_by@);
                    }
                    assert(self.frames_view() =~= old_view);
                    return SearchStep::List(q);
                },
            }
            let ghost top_view = frame_view(top);
            self.frames.push(top);
            self.listed_by = Ghost(old_listed);
            assert(self.frames@ =~= loop_frames.drop_last().push(top));
            proof {
                lemma_links_kept(self.sources@, loop_frames, old_listed, self.frames@, self.listed_by@);
            }
            assert(self.frames_view() =~= old_view.drop_last().push(top_view));
            assert forall|fs: FileSystem, depth: nat|
                agrees(fs, self.answers@) && depth >= self.bound@ implies #[trigger] search_dir(
                fs,
                self.root@,
                depth,
            ) == frames_outcome(fs, self.frames_view(), depth) by {
                assert(scan(fs, old_view.last(), (depth - n) as nat) == scan(fs, top_view, (depth - n) as nat));
                assert(self.frames_view().drop_last() =~= old_view.drop_last());
            }
            assert forall|fs: FileSystem, depth: nat| depth >= self.bound@ implies #[trigger] frames_work(
                fs,
                self.frames_view(),
                depth,
            ) <= frames_work(fs, old(self).frames_view(), depth) by {
                let g = (depth - n) as nat;
                assert(self.frames_view().drop_last() =~= old_view.drop_last());
                assert(self.frames_view().last() == top_view);
                assert(top_view == old_view.last().drop_first());
                assert(frames_work(fs, old_view, depth) == entries_work(fs, old_view.last(), g)
                    + frames_work(fs, old_view.drop_last(), depth));
                assert(entries_work(fs, old_view.last(), g) >= entries_work(fs, top_view, g));
            }
        }
    }
}


/// Starts the search for `vrstartup.exe` below the folder `dir`, of which
/// the caller found whether it is a folder (`dir_is_dir`).  Where it is
/// not, nothing is found; else the search asks for the listing of `dir`.
pub fn find_vrstartup_in_dir(dir: &str, dir_is_dir: bool) -> (r: (VrSearch, SearchStep))
    ensures
        !dir_is_dir ==> r.1 is NotFound,
        dir_is_dir ==> {
            &&& r.1 matches SearchStep::List(q) && q@ == dir@
            &&& r.0.wf()
            &&& r.0.awaiting() == Some(dir@)
            &&& r.0.root() == dir@
            &&& r.0.answers() == Seq::<(Seq<char>, Option<Seq<EntryView>>)>::empty()
            &&& forall|fs: FileSystem, depth: nat|
                #[trigger] r.0.remaining(fs, depth) == 1 + dir_work(fs, dir@, depth)
        },
{
    let frames: Vec<Frame> = Vec::new();
    if !dir_is_dir {
        let search = VrSearch {
            frames,
            awaiting: None,
            root: Ghost(dir@),
            answers: Ghost(Seq::empty()),
            bound: Ghost(1),
            sources: Ghost(Seq::empty()),
            listed_by: Ghost(Seq::empty()),
        };
        return (search, SearchStep::NotFound);
    }
    let search = VrSearch {
        frames,
        awaiting: Some(dir.to_owned()),
        root: Ghost(dir@),
        answers: Ghost(Seq::empty()),
        bound: Ghost(1),
        sources: Ghost(Seq::empty()),
        listed_by: Ghost(Seq::empty()),
    };
    (search, SearchStep::List(dir.to_owned()))
}

} // verus!
