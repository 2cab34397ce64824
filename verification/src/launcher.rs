//! The launcher's decisions: what it shows, what it remembers and what it
//! asks the system to do, for each thing the user does.  The caller makes
//! the registry, file and process calls and hands back their results.
use vstd::prelude::*;
use crate::io_error_text;
use crate::shortcut_manager::{get_working_dir_from_exe, working_dir_of, ShortcutError};
use crate::steam_language::{
    default_language, language_index, language_position, language_value, language_value_at,
    lemma_language_position_of_value, LanguageError, LANGUAGES,
};
use crate::steam_path::{
    lemma_steamvr_exe_file_name, steamvr_exe_of, steamvr_exe_path, SteamPaths, VRSTARTUP_EXE,
};
use crate::windows_path::{file_name, is_absolute, path_is_absolute};

verus! {

/// A message for the user, marked as a success or a failure.
#[derive(Debug)]
pub struct Toast {
    /// The text shown.
    pub message: String,
    /// Whether it reports a success.
    pub success: bool,
}

/// `t` shows `message` and is marked `success`.
pub open spec fn toast_is(t: Toast, message: Seq<char>, success: bool) -> bool {
    t.message@ == message && t.success == success
}

/// A toast showing `message`.
fn toast(message: &str, success: bool) -> (r: Toast)
    ensures
        toast_is(r, message@, success),
{
    Toast { message: message.to_owned(), success }
}

/// What the launcher knows: the SteamVR installation, Steam's language and
/// the language selected in the list.
pub struct LauncherState {
    steam_paths: Option<SteamPaths>,
    current_language: String,
    selected_language: usize,
}

impl LauncherState {
    /// The SteamVR installation in use, if any.
    pub closed spec fn paths(&self) -> Option<(Seq<char>, Seq<char>)> {
        match self.steam_paths {
            Some(p) => Some((p.steamvr_path@, p.steamvr_exe@)),
            None => None,
        }
    }

    /// Steam's language, as its registry value.
    pub closed spec fn language(&self) -> Seq<char> {
        self.current_language@
    }

    /// The index of the language selected in the list.
    pub closed spec fn selected(&self) -> int {
        self.selected_language as int
    }

    #[verifier::type_invariant]
    closed spec fn selection_in_range(&self) -> bool {
        self.selected_language < LANGUAGES@.len()
    }

    /// The state at start-up, from the SteamVR installation that detection
    /// found and Steam's language as read from the registry (English where
    /// that failed); the list selects that language, or English where it is
    /// not in the list.
    pub fn new(steam_paths: Option<SteamPaths>, language: Result<String, LanguageError>) -> (r:
        Self)
        ensures
            r.paths() == match steam_paths {
                Some(p) => Some((p.steamvr_path@, p.steamvr_exe@)),
                None => None,
            },
            r.language() == match language {
                Ok(v) => v@,
                Err(_) => default_language(),
            },
            r.selected() == match language_position(r.language()) {
                Some(i) => i,
                None => 0,
            },
    {
        let current_language = match language {
            Ok(v) => v,
            Err(_) => "english".to_owned(),
        };
        let selected_language = language_index(current_language.as_str());
        LauncherState { steam_paths, current_language, selected_language }
    }

    /// The SteamVR installation in use.
    pub fn steam_paths(&self) -> (r: &Option<SteamPaths>)
        ensures
            self.paths() == match *r {
                Some(p) => Some((p.steamvr_path@, p.steamvr_exe@)),
                None => None,
            },
    {
        &self.steam_paths
    }

    /// Steam's language, as its registry value.
    pub fn current_language(&self) -> (r: &str)
        ensures
            r@ == self.language(),
    {
        self.current_language.as_str()
    }

    /// The index of the language selected in the list.
    pub fn selected_language(&self) -> (r: usize)
        ensures
            r == self.selected(),
            r < LANGUAGES@.len(),
    {
        proof {
            use_type_invariant(self);
        }
        self.selected_language
    }

    /// Selects the language at `index` in the list.
    pub fn select_language(&mut self, index: usize)
        requires
            index < LANGUAGES@.len(),
        ensures
            final(self).selected() == index,
            final(self).paths() == old(self).paths(),
            final(self).language() == old(self).language(),
    {
        proof {
            use_type_invariant(&*self);
        }
        self.selected_language = index;
    }

    /// Takes the result of detecting SteamVR from the registry.
    pub fn on_steam_detected(&mut self, found: Option<SteamPaths>) -> (t: Toast)
        ensures
            final(self).paths() == match found {
                Some(p) => Some((p.steamvr_path@, p.steamvr_exe@)),
                None => None,
            },
            final(self).language() == old(self).language(),
            final(self).selected() == old(self).selected(),
            if found is Some {
                toast_is(t, "✅ 检测到 SteamVR 路径"@, true)
            } else {
                toast_is(t, "❌ 未检测到 SteamVR，请手动指定路径"@, false)
            },
    {
        proof {
            use_type_invariant(&*self);
        }
        let ok = found.is_some();
        self.steam_paths = found;
        if ok {
            toast("✅ 检测到 SteamVR 路径", true)
        } else {
            toast("❌ 未检测到 SteamVR，请手动指定路径", false)
        }
    }

    /// Takes the result of probing the candidate from `check_manual_path`:
    /// where its launcher exists it becomes the installation in use and the
    /// result is the toast to show; else nothing changes and the folder is
    /// to be searched (`None`).
    pub fn on_manual_path_checked(&mut self, candidate: SteamPaths, exe_exists: bool) -> (t:
        Option<Toast>)
        ensures
            exe_exists ==> final(self).paths() == Some(
                (candidate.steamvr_path@, candidate.steamvr_exe@),
            ),
            exe_exists ==> (t matches Some(t) && toast_is(t, "✅ 路径验证成功"@, true)),
            !exe_exists ==> final(self).paths() == old(self).paths() && t is None,
            final(self).language() == old(self).language(),
            final(self).selected() == old(self).selected(),
    {
        proof {
            use_type_invariant(&*self);
        }
        if exe_exists {
            self.steam_paths = Some(candidate);
            Some(toast("✅ 路径验证成功", true))
        } else {
            None
        }
    }

    /// Takes the result of searching the picked folder for the launcher.
    pub fn on_manual_search_done(&mut self, found: Option<SteamPaths>) -> (t: Toast)
        ensures
            match found {
                Some(p) => final(self).paths() == Some((p.steamvr_path@, p.steamvr_exe@))
                    && toast_is(t, "✅ 在子目录中找到 SteamVR"@, true),
                None => final(self).paths() == old(self).paths() && toast_is(
                    t,
                    "❌ 未找到 SteamVR，请确认目录正确"@,
                    false,
                ),
            },
            final(self).language() == old(self).language(),
            final(self).selected() == old(self).selected(),
    {
        proof {
            use_type_invariant(&*self);
        }
        match found {
            Some(p) => {
                self.steam_paths = Some(p);
                toast("✅ 在子目录中找到 SteamVR", true)
            },
            None => toast("❌ 未找到 SteamVR，请确认目录正确", false),
        }
    }

    /// What a desktop shortcut is made of: the launcher and the folder it
    /// runs in; nothing where no installation is known.
    pub fn shortcut_request(&self) -> (r: Option<(String, String)>)
        ensures
            match self.paths() {
                Some((_, exe)) => r matches Some(req) && req.0@ == exe && req.1@ == working_dir_of(
                    exe,
                ),
                None => r is None,
            },
    {
        match &self.steam_paths {
            Some(p) => {
                let working_dir = get_working_dir_from_exe(p.steamvr_exe.as_str());
                Some((p.steamvr_exe.clone(), working_dir))
            },
            None => None,
        }
    }

    /// The registry value of the language selected in the list, to write.
    pub fn selected_language_value(&self) -> (r: &'static str)
        ensures
            r@ == language_value_at(self.selected()),
    {
        proof {
            use_type_invariant(self);
        }
        language_value(self.selected_language)
    }

    /// Takes the result of writing the selected language to the registry:
    /// where it was written it becomes Steam's language, and the list still
    /// selects it.
    pub fn on_language_written(&mut self, result: Result<(), LanguageError>) -> (t: Toast)
        ensures
            final(self).selected() == old(self).selected(),
            final(self).paths() == old(self).paths(),
            match result {
                Ok(_) => {
                    &&& final(self).language() == language_value_at(old(self).selected())
                    &&& language_position(final(self).language()) == Some(final(self).selected())
                    &&& toast_is(t, "✅ 语言已更改，需重启 Steam 生效"@, true)
                },
                Err(e) => {
                    &&& final(self).language() == old(self).language()
                    &&& t.message@ == "❌ 写入语言失败: "@ + match e {
                        LanguageError::RegistryRead(msg) => "读取注册表失败: "@ + msg@,
                        LanguageError::RegistryWrite(msg) => "写入注册表失败: "@ + msg@,
                    }
                    &&& !t.success
                },
            },
    {
        proof {
            use_type_invariant(&*self);
        }
        match result {
            Ok(()) => {
                let value = language_value(self.selected_language);
                self.current_language = value.to_owned();
                proof {
                    lemma_language_position_of_value(self.selected_language as int);
                }
                toast("✅ 语言已更改，需重启 Steam 生效", true)
            },
            Err(e) => {
                let mut message = "❌ 写入语言失败: ".to_owned();
                let text = e.message();
                message.append(text.as_str());
                Toast { message, success: false }
            },
        }
    }

    /// The launcher to start: `None` where no installation is known; an
    /// error toast where its path is not absolute (it is then not
    /// started).
    pub fn launch_target(&self) -> (r: Option<Result<String, Toast>>)
        ensures
            match self.paths() {
                None => r is None,
                Some((_, exe)) => if is_absolute(exe) {
                    r matches Some(Ok(p)) && p@ == exe
                } else {
                    r matches Some(Err(t)) && toast_is(t, "❌ 路径不安全，拒绝启动"@, false)
                },
            },
    {
        match &self.steam_paths {
            None => None,
            Some(p) => {
                if !path_is_absolute(p.steamvr_exe.as_str()) {
                    Some(Err(toast("❌ 路径不安全，拒绝启动", false)))
                } else {
                    Some(Ok(p.steamvr_exe.clone()))
                }
            },
        }
    }
}

/// The candidate installation in a folder the user picked: the folder and
/// the launcher's place below it where the folder path is absolute; else
/// the error toast to show.
pub fn check_manual_path(path: &str) -> (r: Result<SteamPaths, Toast>)
    ensures
        is_absolute(path@) ==> (r matches Ok(p) && p.steamvr_path@ == path@ && p.steamvr_exe@
            == steamvr_exe_of(path@) && file_name(p.steamvr_exe@) == Some(VRSTARTUP_EXE@)),
        !is_absolute(path@) ==> (r matches Err(t) && toast_is(t, "❌ 请选择有效的目录"@, false)),
{
    if !path_is_absolute(path) {
        return Err(toast("❌ 请选择有效的目录", false));
    }
    proof {
        lemma_steamvr_exe_file_name(path@);
    }
    Ok(SteamPaths { steamvr_path: path.to_owned(), steamvr_exe: steamvr_exe_path(path) })
}

/// The toast for the result of writing the desktop shortcut.
pub fn shortcut_toast(result: Result<(), ShortcutError>) -> (t: Toast)
    ensures
        result is Ok ==> toast_is(t, "✅ 桌面快捷方式创建成功"@, true),
        result is Err ==> !t.success,
        result matches Err(ShortcutError::DesktopPathNotFound) ==> t.message@ == "❌ 创建快捷方式失败: "@
            + "无法找到桌面路径"@,
        result matches Err(ShortcutError::IoError(_)) ==> exists|x: Seq<char>|
            t.message@ == "❌ 创建快捷方式失败: "@ + "I/O 错误: "@ + x,
        result matches Err(ShortcutError::ShortcutCreateError(msg)) ==> t.message@
            == "❌ 创建快捷方式失败: "@ + "创建快捷方式失败: "@ + msg@,
{
    match result {
        Ok(()) => toast("✅ 桌面快捷方式创建成功", true),
        Err(e) => {
            let mut message = "❌ 创建快捷方式失败: ".to_owned();
            let text = e.message();
            message.append(text.as_str());
            proof {
                let head = "❌ 创建快捷方式失败: "@;
                match e {
                    ShortcutError::IoError(_) => {
                        let x = choose|x: Seq<char>| text@ == "I/O 错误: "@ + x;
                        assert(message@ =~= head + "I/O 错误: "@ + x);
                    },
                    ShortcutError::DesktopPathNotFound => {
                        assert(message@ =~= head + "无法找到桌面路径"@);
                    },
                    ShortcutError::ShortcutCreateError(msg) => {
                        assert(message@ =~= head + "创建快捷方式失败: "@ + msg@);
                    },
                }
            }
            Toast { message, success: false }
        },
    }
}

/// The toast for the result of starting the launcher.
pub fn launch_toast(result: Result<(), std::io::Error>) -> (t: Toast)
    ensures
        match result {
            Ok(_) => toast_is(t, "✅ SteamVR 启动中..."@, true),
            Err(_) => !t.success && exists|x: Seq<char>| t.message@ == "❌ 启动失败: "@ + x,
        },
{
    match result {
        Ok(()) => toast("✅ SteamVR 启动中...", true),
        Err(e) => {
            let mut message = "❌ 启动失败: ".to_owned();
            let text = io_error_text(&e);
            message.append(text.as_str());
            Toast { message, success: false }
        },
    }
}

} // verus!
