use steamvr_launcher::fonts::with_cjk_fallbacks;

fn names(v: &[&str]) -> Vec<String> {
    v.iter().map(|s| s.to_string()).collect()
}

#[test]
fn nothing_loaded_leaves_family_unchanged() {
    assert_eq!(with_cjk_fallbacks(None, "Hack", &Vec::new()), None);
    assert_eq!(
        with_cjk_fallbacks(Some(names(&["A"])), "Hack", &Vec::new()),
        Some(names(&["A"]))
    );
}

#[test]
fn loaded_fonts_follow_existing_ones() {
    assert_eq!(
        with_cjk_fallbacks(Some(names(&["A", "B"])), "Hack", &names(&["SimHei", "SimSun"])),
        Some(names(&["A", "B", "SimHei", "SimSun"]))
    );
}

#[test]
fn loaded_fonts_follow_the_default_for_a_new_family() {
    assert_eq!(
        with_cjk_fallbacks(None, "Ubuntu-Light", &names(&["Noto Sans SC"])),
        Some(names(&["Ubuntu-Light", "Noto Sans SC"]))
    );
}
