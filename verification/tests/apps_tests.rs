use batcave::apps::{
    acf_val, app_entry, brightness_command, enum_apps, enum_obsidian, enum_steam, is_app_manifest,
    is_hidden, library_paths, note_entry, run_app, run_shell, set_brightness, split_extension,
    steam_candidates, steam_game, steam_libraries, steam_root, vault_paths, walk_md_allowed,
};

fn s(x: &str) -> String {
    x.to_string()
}

fn p(a: &str, b: &str) -> (String, String) {
    (s(a), s(b))
}

#[test]
fn apps_acf_value_from_second_quoted_field() {
    let txt = "\"AppState\"\n{\n\t\"appid\"\t\t\"570\"\n\t\"name\"\t\t\"Dota 2\"\n}";
    assert_eq!(acf_val(txt, "appid"), Some(s("570")));
    assert_eq!(acf_val(txt, "name"), Some(s("Dota 2")));
    assert_eq!(acf_val(txt, "missing"), None);
    assert_eq!(acf_val("\"name\"", "name"), None);
}

#[test]
fn apps_steam_game_needs_both_fields() {
    assert_eq!(steam_game("\"appid\" \"10\"\n\"name\" \"CS\""), Some(p("10", "CS")));
    assert_eq!(steam_game("\"appid\" \"10\""), None);
}

#[test]
fn apps_steam_library_paths_unescape_backslashes() {
    let vdf = "\"libraryfolders\"\n{\n\t\"0\"\n\t{\n\t\t\"path\"\t\t\"C:\\\\Program Files (x86)\\\\Steam\"\n\t}\n\t\"1\"\n\t{\n\t\t\"path\"\t\t\"D:\\\\Games\"\n\t}\n}";
    assert_eq!(library_paths(vdf), vec![s("C:\\Program Files (x86)\\Steam"), s("D:\\Games")]);
}

#[test]
fn apps_manifest_names() {
    assert!(is_app_manifest("appmanifest_570.acf"));
    assert!(!is_app_manifest("appmanifest_570.acf.tmp"));
    assert!(!is_app_manifest("libraryfolders.vdf"));
}

#[test]
fn apps_steam_root_first_existing() {
    assert_eq!(steam_candidates().len(), 4);
    assert_eq!(steam_root(&[false, true, true]), Some(s("C:\\Program Files\\Steam")));
    assert_eq!(steam_root(&[false, false]), None);
    assert_eq!(steam_root(&[]), None);
}

#[test]
fn apps_sorted_by_lowercase_name_one_per_name() {
    let found = vec![p("zoom", "z1"), p("Chrome", "c1"), p("chrome", "c2"), p("Apple", "a")];
    assert_eq!(enum_apps(found), vec![p("Apple", "a"), p("Chrome", "c1"), p("zoom", "z1")]);
}

#[test]
fn apps_steam_sorted_by_name_same_appid_dropped() {
    let games = vec![p("2", "beta"), p("1", "Alpha"), p("2", "Beta")];
    assert_eq!(enum_steam(games), vec![p("1", "Alpha"), p("2", "beta")]);
}

#[test]
fn apps_obsidian_sorted_and_capped() {
    let notes = vec![p("b", "/v/b.md"), p("A", "/v/a.md"), p("a", "/v/a.md")];
    assert_eq!(enum_obsidian(notes), vec![p("A", "/v/a.md"), p("b", "/v/b.md")]);
    let many: Vec<(String, String)> = (0..2100).map(|i| p(&format!("n{i:04}"), &format!("/v/{i}.md"))).collect();
    assert_eq!(enum_obsidian(many).len(), 2000);
}

#[test]
fn apps_file_names_split_like_path() {
    assert_eq!(split_extension("Word.lnk"), (s("Word"), Some(s("lnk"))));
    assert_eq!(split_extension("a.b.md"), (s("a.b"), Some(s("md"))));
    assert_eq!(split_extension(".hidden"), (s(".hidden"), None));
    assert_eq!(split_extension("plain"), (s("plain"), None));
    assert_eq!(app_entry("Word.LNK", "C:\\sm\\Word.LNK"), Some(p("Word", "C:\\sm\\Word.LNK")));
    assert_eq!(app_entry("readme.txt", "x"), None);
    assert_eq!(note_entry("Ideas.md", "/v/Ideas.md"), Some(p("Ideas", "/v/Ideas.md")));
    assert_eq!(note_entry("Ideas.MD", "/v/Ideas.MD"), None);
}

#[test]
fn apps_note_walk_limits() {
    assert!(walk_md_allowed(0, 0));
    assert!(walk_md_allowed(8, 2000));
    assert!(!walk_md_allowed(9, 0));
    assert!(!walk_md_allowed(0, 2001));
    assert!(is_hidden(".obsidian"));
    assert!(!is_hidden("notes"));
}

#[test]
fn apps_obsidian_vaults() {
    let cfg = br#"{"vaults":{"a1":{"path":"C:\\Notes","ts":1},"b2":{"open":true},"c3":{"path":"D:\\Work"}}}"#;
    assert_eq!(vault_paths(cfg), vec![s("C:\\Notes"), s("D:\\Work")]);
    assert!(vault_paths(b"[]").is_empty());
    assert!(vault_paths(b"nope").is_empty());
}

#[test]
fn apps_dashboard_tabs_and_shells() {
    assert_eq!(run_app("terminal"), Some((s("cmd"), vec![s("/C"), s("start wt")])));
    assert_eq!(run_app("steam"), Some((s("cmd"), vec![s("/C"), s("start steam://open/main")])));
    assert_eq!(run_app("Terminal"), None);
    assert_eq!(run_app("chrome"), Some((s("cmd"), vec![s("/C"), s("start chrome")])));
    assert_eq!(run_app("Edge"), None);
    assert_eq!(run_shell("cmd", "dir"), Some((s("cmd"), vec![s("/C"), s("start"), s("cmd"), s("/K"), s("dir")])));
    assert_eq!(
        run_shell("psadmin", "Get-Date"),
        Some((s("powershell"), vec![s("-Command"), s("Start-Process powershell -ArgumentList '-NoExit -Command Get-Date' -Verb RunAs")]))
    );
    assert_eq!(run_shell("bash", "ls"), None);
}

#[test]
fn apps_brightness_capped_at_100() {
    assert_eq!(set_brightness(40), "(Get-WmiObject -Namespace root/WMI -Class WmiMonitorBrightnessMethods).WmiSetBrightness(1,40)");
    assert!(set_brightness(250).ends_with("WmiSetBrightness(1,100)"));
}

#[test]
fn brightness_runs_hidden_powershell() {
    let argv = brightness_command(140);
    assert_eq!(argv.len(), 6);
    assert_eq!(&argv[..5], &["powershell", "-NoProfile", "-WindowStyle", "Hidden", "-Command"]);
    assert_eq!(argv[5], set_brightness(100));
    assert!(argv[5].ends_with("WmiSetBrightness(1,100)"));
}

#[test]
fn steam_libraries_listed_once() {
    let root = s("C:\\Steam\\steamapps");
    let candidates = vec![
        (s("D:\\Games\\steamapps"), true),
        (s("C:\\Steam\\steamapps"), true),
        (s("E:\\Gone\\steamapps"), false),
        (s("D:\\Games\\steamapps"), true),
        (s("F:\\More\\steamapps"), true),
    ];
    assert_eq!(
        steam_libraries(root.clone(), &candidates),
        vec![root.clone(), s("D:\\Games\\steamapps"), s("F:\\More\\steamapps")]
    );
    assert_eq!(steam_libraries(root.clone(), &Vec::new()), vec![root]);
}
