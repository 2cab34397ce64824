use steamvr_launcher::steam_path::{
    detect_steam_install_path, detect_steam_path, find_vrstartup_in_dir, first_install_key,
    next_install_lookup, steamvr_exe_path, InstallKey, InstallLookup, ListedEntry, SearchStep,
    SteamPathError, SteamPaths, VrSearch,
};

#[test]
fn test_detect_steam_path_returns_correct_type() {
    let install = detect_steam_install_path(
        Ok("C:\\Program Files (x86)\\Steam".to_string()),
        Err(SteamPathError::SteamNotFound),
        Err(SteamPathError::SteamNotFound),
    );
    let result = detect_steam_path(install, true);
    match result {
        Some(paths) => {
            assert!(!paths.steamvr_path.is_empty());
            assert!(paths.steamvr_exe.contains("vrstartup.exe"));
        }
        None => {
            panic!("a launcher that exists must be detected");
        }
    }
}

#[test]
fn install_path_prefers_current_user() {
    let r = detect_steam_install_path(
        Ok("C:\\A".to_string()),
        Ok("C:\\B".to_string()),
        Ok("C:\\C".to_string()),
    );
    assert_eq!(r.unwrap(), "C:\\A");
}

#[test]
fn install_path_falls_back_in_order() {
    let r = detect_steam_install_path(
        Err(SteamPathError::RegistryError("hkcu".to_string())),
        Ok("C:\\B".to_string()),
        Ok("C:\\C".to_string()),
    );
    assert_eq!(r.unwrap(), "C:\\B");
    let r = detect_steam_install_path(
        Err(SteamPathError::RegistryError("hkcu".to_string())),
        Err(SteamPathError::RegistryError("wow".to_string())),
        Ok("C:\\C".to_string()),
    );
    assert_eq!(r.unwrap(), "C:\\C");
}

#[test]
fn install_path_all_failed_keeps_last_error() {
    let r = detect_steam_install_path(
        Err(SteamPathError::RegistryError("hkcu".to_string())),
        Err(SteamPathError::RegistryError("wow".to_string())),
        Err(SteamPathError::RegistryError("hklm".to_string())),
    );
    match r {
        Err(SteamPathError::RegistryError(msg)) => assert_eq!(msg, "hklm"),
        _ => panic!("expected the last error"),
    }
}

#[test]
fn steamvr_exe_below_steam_folder() {
    assert_eq!(
        steamvr_exe_path("C:\\Steam"),
        "C:\\Steam\\steamapps\\common\\SteamVR\\bin\\win64\\vrstartup.exe"
    );
}

#[test]
fn detect_needs_folder_and_launcher() {
    let p = detect_steam_path(Ok("D:\\Steam".to_string()), true).unwrap();
    assert_eq!(p.steamvr_path, "D:\\Steam");
    assert_eq!(p.steamvr_exe, "D:\\Steam\\steamapps\\common\\SteamVR\\bin\\win64\\vrstartup.exe");
    assert!(detect_steam_path(Ok("D:\\Steam".to_string()), false).is_none());
    assert!(detect_steam_path(Err(SteamPathError::SteamNotFound), true).is_none());
}

#[test]
fn steam_path_error_messages() {
    assert_eq!(SteamPathError::SteamNotFound.message(), "未在注册表中找到 Steam 安装路径");
    assert_eq!(
        SteamPathError::RegistryError("e".to_string()).message(),
        "注册表读取失败: e"
    );
}

/// Runs a search against a fixed tree; returns the result and the folders
/// listed, in order.
fn run_search(
    root: &str,
    is_dir: bool,
    tree: &dyn Fn(&str) -> Option<Vec<ListedEntry>>,
) -> (Option<SteamPaths>, Vec<String>) {
    let (mut search, mut step): (VrSearch, SearchStep) = find_vrstartup_in_dir(root, is_dir);
    let mut listed = Vec::new();
    loop {
        match step {
            SearchStep::List(dir) => {
                let listing = tree(&dir);
                listed.push(dir);
                step = search.resume(listing);
            }
            SearchStep::Found(p) => return (Some(p), listed),
            SearchStep::NotFound => return (None, listed),
        }
    }
}

fn sample_tree(dir: &str) -> Option<Vec<ListedEntry>> {
    match dir {
        "C:\\Games" => Some(vec![
            ListedEntry::File("C:\\Games\\readme.txt".to_string()),
            ListedEntry::Dir("C:\\Games\\Empty".to_string()),
            ListedEntry::Dir("C:\\Games\\Steam".to_string()),
            ListedEntry::File("C:\\Games\\vrstartup.exe".to_string()),
        ]),
        "C:\\Games\\Empty" => Some(vec![]),
        "C:\\Games\\Steam" => Some(vec![
            ListedEntry::Other,
            ListedEntry::Dir("C:\\Games\\Steam\\bin".to_string()),
        ]),
        "C:\\Games\\Steam\\bin" => Some(vec![ListedEntry::File(
            "C:\\Games\\Steam\\bin\\vrstartup.exe".to_string(),
        )]),
        _ => None,
    }
}

#[test]
fn search_is_depth_first_in_listing_order() {
    let (found, listed) = run_search("C:\\Games", true, &sample_tree);
    let p = found.unwrap();
    assert_eq!(p.steamvr_exe, "C:\\Games\\Steam\\bin\\vrstartup.exe");
    assert_eq!(p.steamvr_path, "C:\\Games\\Steam\\bin");
    assert_eq!(listed, vec!["C:\\Games", "C:\\Games\\Empty", "C:\\Games\\Steam", "C:\\Games\\Steam\\bin"]);
}

#[test]
fn search_of_a_non_folder_finds_nothing() {
    let (found, listed) = run_search("C:\\Games", false, &sample_tree);
    assert!(found.is_none());
    assert!(listed.is_empty());
}

#[test]
fn search_unlistable_root_finds_nothing() {
    let (found, listed) = run_search("C:\\Nowhere", true, &sample_tree);
    assert!(found.is_none());
    assert_eq!(listed, vec!["C:\\Nowhere"]);
}

#[test]
fn search_skips_unlistable_subfolder() {
    let tree = |dir: &str| -> Option<Vec<ListedEntry>> {
        match dir {
            "C:\\R" => Some(vec![
                ListedEntry::Dir("C:\\R\\locked".to_string()),
                ListedEntry::File("C:\\R\\vrstartup.exe".to_string()),
            ]),
            _ => None,
        }
    };
    let (found, _) = run_search("C:\\R", true, &tree);
    assert_eq!(found.unwrap().steamvr_path, "C:\\R");
}

#[test]
fn search_stops_folder_at_unreadable_entry() {
    let tree = |dir: &str| -> Option<Vec<ListedEntry>> {
        match dir {
            "C:\\R" => Some(vec![
                ListedEntry::Dir("C:\\R\\a".to_string()),
                ListedEntry::File("C:\\R\\vrstartup.exe".to_string()),
            ]),
            "C:\\R\\a" => Some(vec![
                ListedEntry::Unreadable,
                ListedEntry::File("C:\\R\\a\\vrstartup.exe".to_string()),
            ]),
            _ => None,
        }
    };
    let (found, _) = run_search("C:\\R", true, &tree);
    assert_eq!(found.unwrap().steamvr_exe, "C:\\R\\vrstartup.exe");
}

#[test]
fn search_ignores_other_names_and_folders_named_like_the_launcher() {
    let tree = |dir: &str| -> Option<Vec<ListedEntry>> {
        match dir {
            "C:\\R" => Some(vec![
                ListedEntry::File("C:\\R\\vrstartup.exe.bak".to_string()),
                ListedEntry::File("C:\\R\\VRSTARTUP.EXE".to_string()),
                ListedEntry::Dir("C:\\R\\vrstartup.exe".to_string()),
            ]),
            "C:\\R\\vrstartup.exe" => Some(vec![]),
            _ => None,
        }
    };
    let (found, listed) = run_search("C:\\R", true, &tree);
    assert!(found.is_none());
    assert_eq!(listed, vec!["C:\\R", "C:\\R\\vrstartup.exe"]);
}

#[test]
fn detect_refuses_empty_steam_folder() {
    assert!(detect_steam_path(Ok(String::new()), true).is_none());
}

#[test]
fn install_lookup_reads_in_order() {
    assert!(matches!(first_install_key(), InstallKey::CurrentUser));
    match next_install_lookup(InstallKey::CurrentUser, Ok("C:\\A".to_string())) {
        InstallLookup::Done(Ok(p)) => assert_eq!(p, "C:\\A"),
        _ => panic!("a successful read ends the lookup"),
    }
    assert!(matches!(
        next_install_lookup(InstallKey::CurrentUser, Err(SteamPathError::SteamNotFound)),
        InstallLookup::Read(InstallKey::LocalMachineWow64)
    ));
    assert!(matches!(
        next_install_lookup(InstallKey::LocalMachineWow64, Err(SteamPathError::SteamNotFound)),
        InstallLookup::Read(InstallKey::LocalMachine)
    ));
    match next_install_lookup(InstallKey::LocalMachine, Err(SteamPathError::RegistryError("x".to_string()))) {
        InstallLookup::Done(Err(SteamPathError::RegistryError(m))) => assert_eq!(m, "x"),
        _ => panic!("the last failed read ends the lookup with its error"),
    }
}

#[test]
fn search_found_launcher_lies_below_root() {
    let (found, _) = run_search("C:\\Games", true, &sample_tree);
    let p = found.unwrap();
    assert!(p.steamvr_exe.starts_with("C:\\Games") && p.steamvr_exe.len() > "C:\\Games".len());
}
