use std::io;
use steamvr_launcher::launcher::{check_manual_path, launch_toast, shortcut_toast, LauncherState};
use steamvr_launcher::shortcut_manager::ShortcutError;
use steamvr_launcher::steam_language::{LanguageError, LANGUAGES};
use steamvr_launcher::steam_path::SteamPaths;

fn paths(dir: &str, exe: &str) -> SteamPaths {
    SteamPaths { steamvr_path: dir.to_string(), steamvr_exe: exe.to_string() }
}

#[test]
fn start_selects_current_language() {
    let s = LauncherState::new(None, Ok("japanese".to_string()));
    assert_eq!(s.current_language(), "japanese");
    assert_eq!(s.selected_language(), 3);
    assert!(s.steam_paths().is_none());
}

#[test]
fn start_with_unknown_language_selects_english() {
    let s = LauncherState::new(None, Ok("latin".to_string()));
    assert_eq!(s.current_language(), "latin");
    assert_eq!(s.selected_language(), 0);
}

#[test]
fn start_with_failed_read_is_english() {
    let s = LauncherState::new(None, Err(LanguageError::RegistryRead("x".to_string())));
    assert_eq!(s.current_language(), "english");
    assert_eq!(s.selected_language(), 0);
}

#[test]
fn detection_toasts() {
    let mut s = LauncherState::new(None, Ok("english".to_string()));
    let t = s.on_steam_detected(Some(paths("C:\\S", "C:\\S\\x\\vrstartup.exe")));
    assert!(t.success);
    assert_eq!(t.message, "✅ 检测到 SteamVR 路径");
    assert!(s.steam_paths().is_some());
    let t = s.on_steam_detected(None);
    assert!(!t.success);
    assert_eq!(t.message, "❌ 未检测到 SteamVR，请手动指定路径");
    assert!(s.steam_paths().is_none());
}

#[test]
fn manual_path_must_be_absolute() {
    match check_manual_path("Steam") {
        Err(t) => {
            assert!(!t.success);
            assert_eq!(t.message, "❌ 请选择有效的目录");
        }
        Ok(_) => panic!("a relative folder must be refused"),
    }
}

#[test]
fn manual_path_direct_hit() {
    let mut s = LauncherState::new(None, Ok("english".to_string()));
    let candidate = check_manual_path("E:\\Steam").ok().unwrap();
    assert_eq!(candidate.steamvr_exe, "E:\\Steam\\steamapps\\common\\SteamVR\\bin\\win64\\vrstartup.exe");
    let t = s.on_manual_path_checked(candidate, true).unwrap();
    assert_eq!(t.message, "✅ 路径验证成功");
    assert_eq!(s.steam_paths().as_ref().unwrap().steamvr_path, "E:\\Steam");
}

#[test]
fn manual_path_needs_search() {
    let mut s = LauncherState::new(None, Ok("english".to_string()));
    let candidate = check_manual_path("E:\\VR").ok().unwrap();
    assert!(s.on_manual_path_checked(candidate, false).is_none());
    assert!(s.steam_paths().is_none());
    let t = s.on_manual_search_done(None);
    assert!(!t.success);
    assert_eq!(t.message, "❌ 未找到 SteamVR，请确认目录正确");
    let t = s.on_manual_search_done(Some(paths("E:\\VR\\bin", "E:\\VR\\bin\\vrstartup.exe")));
    assert!(t.success);
    assert_eq!(t.message, "✅ 在子目录中找到 SteamVR");
    assert_eq!(s.steam_paths().as_ref().unwrap().steamvr_exe, "E:\\VR\\bin\\vrstartup.exe");
}

#[test]
fn shortcut_request_uses_working_dir() {
    let s = LauncherState::new(Some(paths("C:\\S", "C:\\S\\bin\\vrstartup.exe")), Ok("english".to_string()));
    let (target, wd) = s.shortcut_request().unwrap();
    assert_eq!(target, "C:\\S\\bin\\vrstartup.exe");
    assert_eq!(wd, "C:\\S\\bin");
    let none = LauncherState::new(None, Ok("english".to_string()));
    assert!(none.shortcut_request().is_none());
}

#[test]
fn shortcut_toasts() {
    let t = shortcut_toast(Ok(()));
    assert!(t.success);
    assert_eq!(t.message, "✅ 桌面快捷方式创建成功");
    let t = shortcut_toast(Err(ShortcutError::DesktopPathNotFound));
    assert!(!t.success);
    assert_eq!(t.message, "❌ 创建快捷方式失败: 无法找到桌面路径");
    let t = shortcut_toast(Err(ShortcutError::IoError(io::Error::new(io::ErrorKind::Other, "disk"))));
    assert_eq!(t.message, "❌ 创建快捷方式失败: I/O 错误: disk");
}

#[test]
fn language_write_round_trip() {
    let mut s = LauncherState::new(None, Ok("english".to_string()));
    s.select_language(5);
    assert_eq!(s.selected_language_value(), "russian");
    let t = s.on_language_written(Ok(()));
    assert!(t.success);
    assert_eq!(t.message, "✅ 语言已更改，需重启 Steam 生效");
    assert_eq!(s.current_language(), "russian");
    let restarted = LauncherState::new(None, Ok(s.current_language().to_string()));
    assert_eq!(restarted.selected_language(), 5);
    assert_eq!(LANGUAGES[restarted.selected_language()].0, "Русский");
}

#[test]
fn language_write_failure_keeps_language() {
    let mut s = LauncherState::new(None, Ok("german".to_string()));
    s.select_language(1);
    let t = s.on_language_written(Err(LanguageError::RegistryWrite("denied".to_string())));
    assert!(!t.success);
    assert_eq!(t.message, "❌ 写入语言失败: 写入注册表失败: denied");
    assert_eq!(s.current_language(), "german");
    assert_eq!(s.selected_language(), 1);
}

#[test]
fn launch_requires_absolute_launcher() {
    let s = LauncherState::new(Some(paths("S", "S\\vrstartup.exe")), Ok("english".to_string()));
    match s.launch_target() {
        Some(Err(t)) => assert_eq!(t.message, "❌ 路径不安全，拒绝启动"),
        _ => panic!("a relative launcher must not start"),
    }
    let s = LauncherState::new(Some(paths("C:\\S", "C:\\S\\vrstartup.exe")), Ok("english".to_string()));
    match s.launch_target() {
        Some(Ok(exe)) => assert_eq!(exe, "C:\\S\\vrstartup.exe"),
        _ => panic!("an absolute launcher starts"),
    }
    let s = LauncherState::new(None, Ok("english".to_string()));
    assert!(s.launch_target().is_none());
}

#[test]
fn launch_toasts() {
    let t = launch_toast(Ok(()));
    assert!(t.success);
    assert_eq!(t.message, "✅ SteamVR 启动中...");
    let t = launch_toast(Err(io::Error::new(io::ErrorKind::NotFound, "gone")));
    assert!(!t.success);
    assert_eq!(t.message, "❌ 启动失败: gone");
}
