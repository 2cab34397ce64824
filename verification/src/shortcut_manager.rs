//! The desktop shortcut to SteamVR: the working folder of the launcher, the
//! desktop folder, where the shortcut and its icon are kept, and the errors
//! of making it.
use vstd::prelude::*;
use crate::io_error_text;
use crate::unix_path::{path_join_unix, unix_join};
use crate::windows_path::{
    has_physical_root, is_bare, is_plain_component, is_plain_folder, is_plain_name, is_sep, join,
    lemma_no_parent_iff_bare, lemma_parent_is_shorter_prefix, lemma_parent_of_folder_and_name,
    lemma_prefix_and_root_have_no_parent, parent, path_join, path_parent, prefix_len,
};

verus! {

/// Why the shortcut could not be made.
#[derive(Debug)]
pub enum ShortcutError {
    /// No desktop folder could be found.
    DesktopPathNotFound,
    /// A file operation failed.
    IoError(std::io::Error),
    /// The shortcut could not be written, with the reason.
    ShortcutCreateError(String),
}

impl ShortcutError {
    /// The text of the error, as it is shown to the user.
    pub fn message(&self) -> (r: String)
        ensures
            match self {
                ShortcutError::DesktopPathNotFound => r@ == "无法找到桌面路径"@,
                ShortcutError::IoError(_) => exists|t: Seq<char>| r@ == "I/O 错误: "@ + t,
                ShortcutError::ShortcutCreateError(msg) => r@ == "创建快捷方式失败: "@ + msg@,
            },
    {
        match self {
            ShortcutError::DesktopPathNotFound => "无法找到桌面路径".to_owned(),
            ShortcutError::IoError(e) => {
                let mut r = "I/O 错误: ".to_owned();
                let t = io_error_text(e);
                r.append(t.as_str());
                r
            },
            ShortcutError::ShortcutCreateError(msg) => {
                let mut r = "创建快捷方式失败: ".to_owned();
                r.append(msg.as_str());
                r
            },
        }
    }
}

impl vstd::std_specs::convert::FromSpecImpl<std::io::Error> for ShortcutError {
    open spec fn obeys_from_spec() -> bool {
        true
    }

    open spec fn from_spec(e: std::io::Error) -> Self {
        ShortcutError::IoError(e)
    }
}

impl From<std::io::Error> for ShortcutError {
    fn from(e: std::io::Error) -> Self {
        ShortcutError::IoError(e)
    }
}

/// The folder a launcher at `exe_path` runs in: the parent of `exe_path`,
/// or `exe_path` itself where it has none.
pub open spec fn working_dir_of(exe_path: Seq<char>) -> Seq<char> {
    match parent(exe_path) {
        Some(p) => p,
        None => exe_path,
    }
}

/// The folder a launcher runs in is the beginning of its path: all of it
/// exactly where the path has no parent, that is where the path is bare
/// (empty, or a prefix and root such as `C:`, `C:\` or `\`, followed by
/// nothing but separators and lone `.` pieces), else a shorter part.
pub proof fn lemma_working_dir_is_prefix(exe_path: Seq<char>)
    ensures
        exe_path.subrange(0, working_dir_of(exe_path).len() as int) == working_dir_of(exe_path),
        (working_dir_of(exe_path) == exe_path) <==> parent(exe_path) is None,
        (working_dir_of(exe_path) == exe_path) <==> is_bare(exe_path),
        exe_path.len() == prefix_len(exe_path) + (if has_physical_root(exe_path) {
            1int
        } else {
            0int
        }) ==> working_dir_of(exe_path) == exe_path,
        parent(exe_path) is Some ==> working_dir_of(exe_path).len() < exe_path.len(),
{
    lemma_parent_is_shorter_prefix(exe_path);
    lemma_no_parent_iff_bare(exe_path);
    if exe_path.len() == prefix_len(exe_path) + (if has_physical_root(exe_path) {
        1int
    } else {
        0int
    }) {
        lemma_prefix_and_root_have_no_parent(exe_path);
    }
    if parent(exe_path) is None {
        assert(exe_path.subrange(0, exe_path.len() as int) =~= exe_path);
    }
}

/// A launcher at a plain folder, `\` and a file name runs in that folder.
pub proof fn lemma_working_dir_of_folder_and_name(folder: Seq<char>, name: Seq<char>)
    requires
        is_plain_folder(folder),
        is_plain_name(name),
    ensures
        working_dir_of(folder + seq!['\\'] + name) == folder,
{
    lemma_parent_of_folder_and_name(folder, name);
}

/// The folder that the executable `exe_path` is in, to run it from.
pub fn get_working_dir_from_exe(exe_path: &str) -> (r: String)
    ensures
        r@ == working_dir_of(exe_path@),
{
    match path_parent(exe_path) {
        Some(parent) => parent,
        None => exe_path.to_owned(),
    }
}


/// The file name of the icon kept for the shortcut.
pub const ICON_FILENAME: &'static str = "SteamVRIcon.ico";

/// The folder, below the configuration folder, that holds the icon.
pub const ICON_DIR_NAME: &'static str = "SteamVRLauncher";

/// The file name of the shortcut on the desktop.
pub const SHORTCUT_FILENAME: &'static str = "SteamVR.lnk";

/// The desktop folder: the system's desktop folder where it names one, else
/// `Desktop` below the home folder, else none.
pub fn desktop_path_from(desktop: Option<String>, home: Option<String>) -> (r: Result<
    String,
    ShortcutError,
>)
    ensures
        match desktop {
            Some(d) => r matches Ok(p) && p@ == d@,
            None => match home {
                Some(h) => r matches Ok(p) && p@ == join(h@, "Desktop"@),
                None => r matches Err(ShortcutError::DesktopPathNotFound),
            },
        },
{
    match desktop {
        Some(d) => Ok(d),
        None => match home {
            Some(h) => {
                proof {
                    reveal_strlit("Desktop");
                }
                Ok(path_join(h.as_str(), "Desktop"))
            },
            None => Err(ShortcutError::DesktopPathNotFound),
        },
    }
}

/// Where the shortcut goes in the desktop folder `desktop`.
pub fn shortcut_lnk_path(desktop: &str) -> (r: String)
    ensures
        r@ == join(desktop@, SHORTCUT_FILENAME@),
{
    proof {
        reveal_strlit("SteamVR.lnk");
    }
    path_join(desktop, SHORTCUT_FILENAME)
}

/// `base` joined with the relative component `name` as paths are joined
/// on Windows (`on_windows`) or elsewhere.
pub open spec fn join_on(on_windows: bool, base: Seq<char>, name: Seq<char>) -> Seq<char> {
    if on_windows {
        join(base, name)
    } else {
        unix_join(base, name)
    }
}

/// The folder that holds the icon and the icon's path, below `base`.
pub open spec fn icon_paths_below(base: Seq<char>, on_windows: bool) -> (Seq<char>, Seq<char>) {
    let dir = join_on(on_windows, base, ICON_DIR_NAME@);
    (dir, join_on(on_windows, dir, ICON_FILENAME@))
}

/// `base` joined with the relative component `name` as paths are joined
/// on Windows (`on_windows`) or elsewhere.
fn path_join_on(on_windows: bool, base: &str, name: &str) -> (r: String)
    requires
        is_plain_component(name@),
    ensures
        r@ == join_on(on_windows, base@, name@),
{
    if on_windows {
        path_join(base, name)
    } else {
        assert forall|i: int| 0 <= i < name@.len() implies #[trigger] name@[i] != '/' by {
            assert(!is_sep(name@[i]));
        }
        path_join_unix(base, name)
    }
}

/// The error when no configuration folder is known.
pub open spec fn no_config_dir_message() -> Seq<char> {
    "无法获取配置目录"@
}

/// The folder below which the icon is kept when `APPDATA` is not set: on
/// Windows `Microsoft` in the system's configuration folder `config`,
/// elsewhere `config` itself.
pub open spec fn config_base(config: Seq<char>, on_windows: bool) -> Seq<char> {
    if on_windows {
        join(config, "Microsoft"@)
    } else {
        config
    }
}

/// Where the icon is kept: below the `APPDATA` folder where that is set,
/// else below the configuration folder (`Microsoft` in it on Windows), else
/// nowhere; `on_windows` tells whether this runs on Windows, which decides
/// that and how paths are joined.
pub fn icon_paths_from(appdata: Option<String>, config: Option<String>, on_windows: bool) -> (r: Result<
    (String, String),
    ShortcutError,
>)
    ensures
        match appdata {
            Some(a) => r matches Ok(paths) && (paths.0@, paths.1@) == icon_paths_below(
                a@,
                on_windows,
            ),
            None => match config {
                Some(c) => r matches Ok(paths) && (paths.0@, paths.1@) == icon_paths_below(
                    config_base(c@, on_windows),
                    on_windows,
                ),
                None => r matches Err(ShortcutError::ShortcutCreateError(msg)) && msg@
                    == no_config_dir_message(),
            },
        },
{
    proof {
        reveal_strlit("Microsoft");
        reveal_strlit("SteamVRLauncher");
        reveal_strlit("SteamVRIcon.ico");
    }
    let base = match appdata {
        Some(a) => a,
        None => match config {
            Some(c) => {
                if on_windows {
                    path_join(c.as_str(), "Microsoft")
                } else {
                    c
                }
            },
            None => {
                return Err(ShortcutError::ShortcutCreateError("无法获取配置目录".to_owned()));
            },
        },
    };
    let icon_dir = path_join_on(on_windows, base.as_str(), ICON_DIR_NAME);
    let icon_path = path_join_on(on_windows, icon_dir.as_str(), ICON_FILENAME);
    Ok((icon_dir, icon_path))
}

/// Is the icon file already what it should be: does `existing` (its
/// contents, where it exists and could be read) equal `embedded`?
pub fn icon_is_current(existing: &Option<Vec<u8>>, embedded: &[u8]) -> (r: bool)
    ensures
        r == (existing matches Some(v) && v@ == embedded@),
{
    match existing {
        None => false,
        Some(v) => {
            if v.len() != embedded.len() {
                return false;
            }
            let mut i: usize = 0;
            while i < v.len()
                invariant
                    existing matches Some(w) && w@ == v@,
                    v@.len() == embedded@.len(),
                    i <= v@.len(),
                    forall|k: int| 0 <= k < i ==> v@[k] == embedded@[k],
                decreases v@.len() - i,
            {
                if v[i] != embedded[i] {
                    assert(v@[i as int] != embedded@[i as int]);
                    return false;
                }
                i = i + 1;
            }
            assert(v@ =~= embedded@);
            true
        },
    }
}

} // verus!
