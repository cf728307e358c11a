use steamlite::steam::{
    connecting_status, default_steam_dirs, download_outcome, find_steam_in_registry, find_steam_start,
    find_steamcmd, first_existing, first_with_steamapps, has_steamapps, plan_download, plan_with,
    reg_steam_paths, steamapps_dir, steamcmd_args, steamcmd_candidates, steamcmd_install_dir,
    DownloadOutcome, DownloadPlan, SteamSearch,
};

#[test]
fn default_dirs_in_order() {
    assert_eq!(
        default_steam_dirs(),
        vec!["C:\\Program Files (x86)\\Steam", "C:\\Program Files\\Steam", "D:\\Steam", "E:\\Steam"]
    );
}

#[test]
fn reg_output_gives_the_steam_path() {
    let out = b"\r\nHKEY_CURRENT_USER\\Software\\Valve\\Steam\r\n    SteamPath    REG_SZ    c:/program files (x86)/steam\r\n\r\n";
    assert_eq!(reg_steam_paths(out), vec!["c:\\program files (x86)\\steam".to_string()]);
    assert!(reg_steam_paths(b"ERROR: nothing").is_empty());
}

#[test]
fn reg_output_last_column_after_non_overlapping_separators() {
    // Six spaces: one separator, then two spaces kept and trimmed.
    assert_eq!(reg_steam_paths(b"SteamPath      d:/x"), vec!["d:\\x".to_string()]);
    // No separator at all: the whole line.
    assert_eq!(reg_steam_paths(b"steampath=e:/y "), vec!["steampath=e:\\y".to_string()]);
}

#[test]
fn first_existing_picks_the_first_flagged() {
    let c = vec!["a".to_string(), "b".to_string(), "c".to_string()];
    assert_eq!(first_existing(&c, &vec![false, true, true]), Some("b".to_string()));
    assert_eq!(first_existing(&c, &vec![false, false, false]), None);
    assert_eq!(first_existing(&c, &vec![true]), Some("a".to_string()));
}

#[test]
fn nothing_found_where_nothing_is() {
    assert!(!has_steamapps("/nonexistent/steamlite/test/dir"));
    assert_eq!(first_with_steamapps(&vec!["/nonexistent/steamlite/a".to_string()]), None);
    assert_eq!(find_steamcmd("/nonexistent/steamlite/b"), None);
}

#[test]
fn steamcmd_candidates_in_order() {
    let c = steamcmd_candidates("/steam");
    assert_eq!(c.len(), 2);
    assert!(c[0].starts_with("/steam") && c[0].ends_with("steamcmd.exe"));
    assert_eq!(c[1], "C:\\steamcmd\\steamcmd.exe");
    let sep = std::path::MAIN_SEPARATOR;
    assert_eq!(c[0], format!("/steam{}steamcmd.exe", sep));
    // A folder that already ends in a separator gets no second one.
    assert_eq!(steamcmd_candidates("/steam/")[0], "/steam/steamcmd.exe");
}

#[test]
fn steam_folders_and_install_folder() {
    let sep = std::path::MAIN_SEPARATOR;
    assert_eq!(steamapps_dir("/steam"), format!("/steam{}steamapps", sep));
    assert_eq!(steamapps_dir(""), "steamapps");
    assert_eq!(steamcmd_install_dir("/steam"), format!("/steam{}steamapps{}common", sep, sep));
    assert_eq!(steamcmd_install_dir("/steam/"), format!("/steam/steamapps{}common", sep));
}

#[test]
fn finding_steam_without_it() {
    // None of the usual Windows folders exists here: the registry is asked.
    assert!(matches!(find_steam_start(), SteamSearch::AskRegistry));
    assert_eq!(find_steam_in_registry(None), None);
    let out = b"    SteamPath    REG_SZ    /nonexistent/steamlite/steam\r\n";
    assert_eq!(find_steam_in_registry(Some(out)), None);
}

#[test]
fn download_without_steamcmd_goes_through_steam() {
    match plan_download("/nonexistent/steamlite/steam", "u", "p", "", 730) {
        DownloadPlan::ThroughSteam { url, status } => {
            assert_eq!(url, "steam://install/730");
            assert_eq!(status, "Abriendo Steam para instalar...");
        }
        other => panic!("unexpected plan {:?}", other),
    }
}

#[test]
fn steamcmd_arguments() {
    assert_eq!(
        steamcmd_args("u", "p", "", "/d", 570),
        vec!["+login", "u", "p", "+force_install_dir", "/d", "+app_update", "570", "validate", "+quit"]
    );
    assert_eq!(
        steamcmd_args("u", "p", "G1", "/d", 570),
        vec!["+login", "u", "p", "G1", "+force_install_dir", "/d", "+app_update", "570", "validate", "+quit"]
    );
}

#[test]
fn download_outcomes() {
    assert_eq!(download_outcome(Some(b"... Success! App '570' fully installed.")), DownloadOutcome::Completed);
    assert_eq!(download_outcome(Some(b"This account is protected by Steam guard")), DownloadOutcome::NeedsGuardCode);
    assert_eq!(download_outcome(Some(b"FAILED login with result code Invalid Password")), DownloadOutcome::WrongPassword);
    assert_eq!(download_outcome(Some(b"Success but Invalid")), DownloadOutcome::Completed);
    assert_eq!(download_outcome(Some(b"Steam Guard")), DownloadOutcome::HandedToSteam);
    assert_eq!(download_outcome(Some(b"")), DownloadOutcome::HandedToSteam);
    assert_eq!(download_outcome(None), DownloadOutcome::HandedToSteam);
}

#[test]
fn download_status_lines() {
    assert_eq!(DownloadOutcome::Completed.status(), "¡Descarga completada!");
    assert_eq!(DownloadOutcome::NeedsGuardCode.status(), "Introduce el código Steam Guard en Ajustes.");
    assert_eq!(DownloadOutcome::WrongPassword.status(), "Contraseña incorrecta.");
    assert_eq!(DownloadOutcome::HandedToSteam.status(), "Abriendo Steam...");
    assert!(DownloadOutcome::HandedToSteam.hands_to_steam());
    assert!(!DownloadOutcome::Completed.hands_to_steam());
    assert_eq!(connecting_status(), "Conectando con Steam...");
}

#[test]
fn download_plans() {
    match plan_with(None, "/d", "u", "p", "", 10) {
        DownloadPlan::ThroughSteam { url, status } => {
            assert_eq!(url, "steam://install/10");
            assert_eq!(status, "Abriendo Steam para instalar...");
        }
        other => panic!("unexpected plan {:?}", other),
    }
    match plan_with(Some("/s/steamcmd.exe".to_string()), "/d", "u", "p", "", 10) {
        DownloadPlan::RunSteamCmd { program, args } => {
            assert_eq!(program, "/s/steamcmd.exe");
            assert_eq!(args[6], "10");
        }
        other => panic!("unexpected plan {:?}", other),
    }
}
