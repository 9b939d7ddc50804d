use stargaze::menu::{discover, Entry, File, Menu};

fn file(path: &str, is_file: bool, title: Option<&str>) -> File {
    File { path: path.to_string(), is_file, title: title.map(|t| t.to_string()) }
}

#[test]
fn discovers_yaml_names_and_keeps_invalid_files_selectable() {
    let mut files = vec![
        file("/tmp/m/notes.txt", true, None),
        file("/tmp/m/b.YML", true, None),
        file("/tmp/m/a.yaml", true, Some("Halo observatory")),
        file("/tmp/m/folder.yaml", false, None),
    ];
    let entries = discover(&files);
    assert_eq!(entries.len(), 2);
    assert_eq!(entries[0].name, "Halo observatory");
    assert_eq!(entries[1].name, "b");
    files.push(file("/tmp/m/c.yml", true, Some("New system")));
    assert_eq!(discover(&files).len(), 3);
}

#[test]
fn puzzle_menu_titles_hide_config_names_and_filenames() {
    let known = Entry {
        path: String::from("median-resonance.yaml"),
        name: "Secret planet and three moons".into(),
    };
    assert_eq!(known.puzzle_title(0), "Clockwork sky");
    let custom = Entry {
        path: String::from("three-stars-seven-moons.yaml"),
        name: "Solution hints".into(),
    };
    assert_eq!(custom.puzzle_title(4), "Uncharted map 05");
}

#[test]
fn every_bundled_map_has_its_own_title() {
    for (path, title) in [
        ("configs/puzzle.yaml", "First field study"),
        ("configs/halo.yaml", "Amber horizon"),
        ("configs/solar-system.yml", "Distant lights"),
        ("configs/puzzle.old.yaml", "Uncharted map 12"),
    ] {
        let e = Entry { path: path.to_string(), name: String::new() };
        assert_eq!(e.puzzle_title(11), title);
    }
}

#[test]
fn paths_sort_part_by_part() {
    let files = vec![
        file("c/a-b.yaml", true, None),
        file("c/a/z.yaml", true, None),
        file("c/a.yaml", true, None),
    ];
    let paths: Vec<String> = discover(&files).into_iter().map(|e| e.path).collect();
    assert_eq!(paths, vec!["c/a/z.yaml", "c/a-b.yaml", "c/a.yaml"]);
}

fn maps(n: usize) -> Vec<File> {
    (0..n).map(|i| file(&format!("c/{i}.yaml"), true, Some(&format!("Map {i}")))).collect()
}

#[test]
fn pages_stay_inside_the_listing() {
    let mut menu = Menu::default();
    assert!(!menu.open && menu.entries.is_empty());
    menu.refresh(Ok(maps(8)));
    assert!(menu.open);
    assert_eq!(menu.offset, 0);
    menu.page_forward(3);
    menu.page_forward(3);
    assert_eq!(menu.offset, 6);
    menu.page_forward(3);
    assert_eq!(menu.offset, 6);
    assert_eq!(menu.entry_at(1), Some(7));
    assert_eq!(menu.entry_at(2), None);
    menu.page_back(4);
    assert_eq!(menu.offset, 2);
    menu.page_back(4);
    assert_eq!(menu.offset, 0);
}

#[test]
fn an_unreadable_directory_is_reported() {
    let mut menu = Menu::default();
    menu.refresh(Ok(maps(2)));
    menu.offset = 1;
    menu.refresh(Err("permission denied".to_string()));
    assert!(menu.open && menu.entries.is_empty() && menu.offset == 0);
    assert_eq!(menu.error.as_deref(), Some("Cannot read configs: permission denied"));
    assert_eq!(menu.message(true), "Cannot read configs: permission denied");
}

#[test]
fn the_puzzles_own_map_comes_first() {
    let mut menu = Menu::default();
    menu.refresh(Ok(vec![
        file("c/halo.yaml", true, None),
        file("c/puzzle.yaml", true, None),
        file("c/solar-system.yaml", true, None),
    ]));
    menu.puzzle_order();
    let names: Vec<&str> = menu.entries.iter().map(|e| e.name.as_str()).collect();
    assert_eq!(names, vec!["puzzle", "halo", "solar-system"]);
    assert_eq!(menu.row_title(1, true), "[2] Amber horizon");
    assert_eq!(menu.row_title(1, false), "[2] halo");
    assert_eq!(menu.row_detail(1, false), "halo.yaml");
    assert_eq!(menu.row_detail(1, true), "Start a fresh theory");
}

#[test]
fn the_bottom_line_depends_on_what_is_listed() {
    let mut menu = Menu::default();
    assert_eq!(menu.message(false), "No YAML systems found in configs.");
    menu.refresh(Ok(maps(1)));
    assert_eq!(menu.message(false), "Esc or home: resume current view");
    assert_eq!(
        menu.message(true),
        "Choosing a map clears your theory. Resume keeps your current puzzle."
    );
}

#[test]
fn only_regular_yaml_files_are_maps() {
    assert!(file("configs/a.yaml", true, None).is_listed());
    assert!(file("configs/a.YML", true, None).is_listed());
    assert!(!file("configs/a.yaml", false, None).is_listed());
    assert!(!file("configs/a.txt", true, None).is_listed());
    assert!(!file("configs/yaml", true, None).is_listed());
}
