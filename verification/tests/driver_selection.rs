use nvbind::gpu::{driver_modules, select_preferred_driver};

#[test]
fn prefers_nvidia_over_nouveau() {
    let modules = vec![
        "nouveau".to_string(),
        "nvidia_drm".to_string(),
        "nvidia".to_string(),
    ];
    assert_eq!(
        select_preferred_driver(&modules),
        Some("nvidia".to_string())
    );
}

#[test]
fn falls_back_to_nouveau_if_nvidia_missing() {
    let modules = vec!["nouveau".to_string(), "nvidia_drm".to_string()];
    assert_eq!(
        select_preferred_driver(&modules),
        Some("nouveau".to_string())
    );
}

#[test]
fn keeps_first_when_no_preference_defined() {
    let modules = vec!["foo".to_string(), "bar".to_string()];
    assert_eq!(select_preferred_driver(&modules), Some("foo".to_string()));
}

#[test]
fn no_module_means_no_driver() {
    let modules: Vec<String> = vec![];
    assert_eq!(select_preferred_driver(&modules), None);
}

#[test]
fn picked_driver_is_one_of_the_modules() {
    let modules = vec!["snd_hda_intel".to_string(), "nouveau".to_string()];
    let picked = select_preferred_driver(&modules).unwrap();
    assert!(modules.contains(&picked));
    assert_eq!(picked, "nouveau");
}

#[test]
fn module_names_are_trimmed_nonblank_lines() {
    assert_eq!(
        driver_modules("nouveau\n  nvidia_drm \r\n\n nvidia\n"),
        vec!["nouveau".to_string(), "nvidia_drm".to_string(), "nvidia".to_string()]
    );
}

#[test]
fn module_names_of_blank_output() {
    assert_eq!(driver_modules(""), Vec::<String>::new());
    assert_eq!(driver_modules("\n \n\t\n"), Vec::<String>::new());
}

#[test]
fn module_names_without_final_line_feed() {
    assert_eq!(driver_modules("snd_hda_intel"), vec!["snd_hda_intel".to_string()]);
}

fn names(xs: &[&str]) -> Vec<String> {
    xs.iter().map(|x| x.to_string()).collect()
}

#[test]
fn reordering_keeps_the_preferred_driver() {
    let modules = names(&["nouveau", "nvidia_drm", "nvidia"]);
    let reordered = names(&["nvidia", "nouveau", "nvidia_drm"]);
    assert_eq!(select_preferred_driver(&modules), select_preferred_driver(&reordered));
    let only_nouveau = names(&["snd", "nouveau"]);
    assert_eq!(select_preferred_driver(&only_nouveau), Some("nouveau".to_string()));
    assert_eq!(select_preferred_driver(&names(&["nouveau", "snd"])), Some("nouveau".to_string()));
    // Without a preferred name the first module wins, so order matters.
    assert_ne!(
        select_preferred_driver(&names(&["foo", "bar"])),
        select_preferred_driver(&names(&["bar", "foo"]))
    );
}

#[test]
fn appending_keeps_the_preferred_driver() {
    let mut modules = names(&["nvidia_drm", "nvidia"]);
    modules.extend(names(&["nouveau", "zzz"]));
    assert_eq!(select_preferred_driver(&modules), Some("nvidia".to_string()));
    let mut modules = names(&["nouveau"]);
    modules.extend(names(&["zzz"]));
    assert_eq!(select_preferred_driver(&modules), Some("nouveau".to_string()));
    // Appending nvidia after nouveau does change the pick.
    modules.push("nvidia".to_string());
    assert_eq!(select_preferred_driver(&modules), Some("nvidia".to_string()));
}
