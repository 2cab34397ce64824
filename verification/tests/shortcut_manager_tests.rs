use std::io;
use steamvr_launcher::shortcut_manager::{
    desktop_path_from, get_working_dir_from_exe, icon_is_current,
    icon_paths_from, shortcut_lnk_path, ShortcutError,
};

#[test]
fn test_get_working_dir_from_exe() {
    let dir = get_working_dir_from_exe("C:\\Steam\\steamapps\\common\\SteamVR\\bin\\win64\\vrstartup.exe");
    assert_eq!(dir, "C:\\Steam\\steamapps\\common\\SteamVR\\bin\\win64");
}

#[test]
fn test_get_working_dir_from_exe_no_parent() {
    let dir = get_working_dir_from_exe("vrstartup.exe");
    // Path::new("file.exe").parent() returns Some("") on Windows
    assert!(dir.is_empty() || dir == "vrstartup.exe");
}

#[test]
fn test_get_working_dir_from_exe_empty_parent() {
    let dir = get_working_dir_from_exe("\\");
    assert!(dir.is_empty() || dir == "\\");
}

#[test]
fn test_shortcut_error_display() {
    let err = ShortcutError::DesktopPathNotFound;
    assert!(!err.message().is_empty());

    let io_err = ShortcutError::IoError(io::Error::new(io::ErrorKind::NotFound, "文件未找到"));
    assert!(io_err.message().contains("I/O 错误"));

    let create_err = ShortcutError::ShortcutCreateError("测试错误".to_string());
    assert!(create_err.message().contains("测试错误"));
}

#[test]
fn working_dir_exact_values() {
    assert_eq!(get_working_dir_from_exe("vrstartup.exe"), "");
    assert_eq!(get_working_dir_from_exe("\\"), "\\");
    assert_eq!(get_working_dir_from_exe("C:\\"), "C:\\");
    assert_eq!(get_working_dir_from_exe("C:\\vrstartup.exe"), "C:\\");
    assert_eq!(get_working_dir_from_exe("D:/Games/SteamVR/vrstartup.exe"), "D:/Games/SteamVR");
    assert_eq!(get_working_dir_from_exe("C:\\a\\\\b\\"), "C:\\a");
    assert_eq!(get_working_dir_from_exe("\\\\server\\share\\vr.exe"), "\\\\server\\share\\");
    assert_eq!(get_working_dir_from_exe("\\\\server\\share"), "\\\\server\\share");
    assert_eq!(get_working_dir_from_exe(""), "");
}

#[test]
fn working_dir_of_bare_paths_is_the_path() {
    for bare in ["", "C:", "C:\\", "c:/", "\\", "/", "C:\\\\", "C:\\.\\", "\\\\server\\share\\", "\\\\?\\C:\\", "\\\\.\\COM1"] {
        assert_eq!(get_working_dir_from_exe(bare), bare);
    }
    assert_eq!(get_working_dir_from_exe("C:a"), "C:");
    assert_eq!(get_working_dir_from_exe("."), "");
}

#[test]
fn shortcut_error_messages_exact() {
    assert_eq!(ShortcutError::DesktopPathNotFound.message(), "无法找到桌面路径");
    assert_eq!(
        ShortcutError::ShortcutCreateError("x".to_string()).message(),
        "创建快捷方式失败: x"
    );
    let io_err = ShortcutError::IoError(io::Error::new(io::ErrorKind::NotFound, "文件未找到"));
    assert_eq!(io_err.message(), "I/O 错误: 文件未找到");
}

#[test]
fn shortcut_error_from_io_error() {
    let e: ShortcutError = io::Error::new(io::ErrorKind::Other, "boom").into();
    match e {
        ShortcutError::IoError(inner) => assert_eq!(inner.to_string(), "boom"),
        _ => panic!("expected an I/O error"),
    }
}

#[test]
fn desktop_path_prefers_system_desktop() {
    let r = desktop_path_from(Some("C:\\Users\\A\\OneDrive\\Desktop".to_string()), Some("C:\\Users\\A".to_string()));
    assert_eq!(r.unwrap(), "C:\\Users\\A\\OneDrive\\Desktop");
}

#[test]
fn desktop_path_falls_back_to_home() {
    let r = desktop_path_from(None, Some("C:\\Users\\A".to_string()));
    assert_eq!(r.unwrap(), "C:\\Users\\A\\Desktop");
    let r = desktop_path_from(None, Some("C:\\Users\\A\\".to_string()));
    assert_eq!(r.unwrap(), "C:\\Users\\A\\Desktop");
}

#[test]
fn desktop_path_missing() {
    let r = desktop_path_from(None, None);
    assert!(matches!(r, Err(ShortcutError::DesktopPathNotFound)));
}

#[test]
fn shortcut_goes_on_the_desktop() {
    assert_eq!(shortcut_lnk_path("C:\\Users\\A\\Desktop"), "C:\\Users\\A\\Desktop\\SteamVR.lnk");
    assert_eq!(shortcut_lnk_path("C:"), "C:SteamVR.lnk");
}

#[test]
fn icon_paths_below_appdata() {
    let (dir, icon) = icon_paths_from(Some("C:\\Users\\A\\AppData\\Roaming".to_string()), None, true).unwrap();
    assert_eq!(dir, "C:\\Users\\A\\AppData\\Roaming\\SteamVRLauncher");
    assert_eq!(icon, "C:\\Users\\A\\AppData\\Roaming\\SteamVRLauncher\\SteamVRIcon.ico");
    let (dir, icon) = icon_paths_from(Some("E:\\data".to_string()), Some("F:\\x".to_string()), true).unwrap();
    assert_eq!(dir, "E:\\data\\SteamVRLauncher");
    assert_eq!(icon, "E:\\data\\SteamVRLauncher\\SteamVRIcon.ico");
}

#[test]
fn icon_paths_below_config_dir() {
    let (dir, icon) = icon_paths_from(None, Some("C:\\Users\\A\\AppData\\Roaming".to_string()), true).unwrap();
    assert_eq!(dir, "C:\\Users\\A\\AppData\\Roaming\\Microsoft\\SteamVRLauncher");
    assert_eq!(icon, "C:\\Users\\A\\AppData\\Roaming\\Microsoft\\SteamVRLauncher\\SteamVRIcon.ico");
}

#[test]
fn icon_paths_below_config_dir_off_windows() {
    let (dir, icon) = icon_paths_from(None, Some("/home/u/.config".to_string()), false).unwrap();
    assert_eq!(dir, "/home/u/.config/SteamVRLauncher");
    assert_eq!(icon, "/home/u/.config/SteamVRLauncher/SteamVRIcon.ico");
    let (dir, icon) = icon_paths_from(Some("/data/".to_string()), None, false).unwrap();
    assert_eq!(dir, "/data/SteamVRLauncher");
    assert_eq!(icon, "/data/SteamVRLauncher/SteamVRIcon.ico");
}

#[test]
fn icon_paths_without_any_folder() {
    match icon_paths_from(None, None, true) {
        Err(ShortcutError::ShortcutCreateError(msg)) => assert_eq!(msg, "无法获取配置目录"),
        _ => panic!("expected an error"),
    }
}

#[test]
fn icon_current_only_when_identical() {
    let data = [0u8, 0, 1, 0, 9];
    assert!(icon_is_current(&Some(vec![0, 0, 1, 0, 9]), &data));
    assert!(!icon_is_current(&Some(vec![0, 0, 1, 0]), &data));
    assert!(!icon_is_current(&Some(vec![0, 0, 1, 0, 8]), &data));
    assert!(!icon_is_current(&None, &data));
}
