use sfwm::icon_theme::{parse_index_theme, resolve_icon, resolve_slot, scan_themes, Ask, Reply, ThemeDir};
use sfwm::order::order_by_keys;
use sfwm::path::{elide, extension, file_label, file_name, has_image_ext, is_svg, join_path};
use sfwm::tray_icon::{
    best_candidate, find_icon_file, icon_base_dirs, icon_size_score, icon_source, icon_targets,
    pick_pixmap, qt_icon_theme, theme_inherits, theme_list, tray_icon_dirs, walks_on, IconSource,
};

fn s(t: &str) -> String {
    t.to_string()
}

#[test]
fn paths_are_joined_and_named() {
    assert_eq!(join_path("/a", "b"), "/a/b");
    assert_eq!(join_path("/a/", "b"), "/a/b");
    assert_eq!(join_path("", "b"), "b");
    assert_eq!(join_path("/a", "/b"), "/b");
    assert_eq!(file_name("/a/b.png"), Some(s("b.png")));
    assert_eq!(file_name("/a/b/."), Some(s("b")));
    assert_eq!(file_name("/a/.."), None);
    assert_eq!(file_label("/"), "/");
    assert_eq!(extension("/a/b.tar.gz"), Some(s("gz")));
    assert_eq!(extension("/a/.hidden"), None);
    assert!(is_svg("x.SVG"));
    assert!(!is_svg("svg"));
    assert!(has_image_ext("/w/x.JPeG"));
    assert!(!has_image_ext("/w/x.txt"));
}

#[test]
fn labels_are_cut() {
    assert_eq!(elide("short", 5), "short");
    assert_eq!(elide("longer", 5), "long\u{2026}");
    assert_eq!(elide("longer", 0), "\u{2026}");
}

#[test]
fn things_are_ordered_and_stay_in_place_where_equal() {
    let keys = vec![(s("b"), s("")), (s("a"), s("2")), (s("a"), s("1")), (s("b"), s(""))];
    assert_eq!(order_by_keys(&keys), vec![2, 1, 0, 3]);
}

const INDEX: &str = "[Icon Theme]\nName=Mine\nDirectories=16x16/apps, 64x64/apps,,scalable\nInherits=Parent\n\n[16x16/apps]\nSize=16\n[64x64/apps]\nSize=64\n[scalable\nSize=x\n";

#[test]
fn descriptions_of_themes_are_read() {
    let t = parse_index_theme(INDEX).unwrap();
    assert_eq!(t.name, Some(s("Mine")));
    assert_eq!(t.directories, vec![s("16x16/apps"), s("64x64/apps"), s("scalable")]);
    assert_eq!(t.inherits, vec![s("Parent")]);
    assert_eq!(t.sizes, vec![(s("16x16/apps"), 16), (s("64x64/apps"), 64)]);
    assert!(t.has_directories_key);
    assert!(parse_index_theme("[Other]\nName=x\n").is_none());
}

#[test]
fn themes_are_found_once_and_sorted() {
    let dir = |name: &str, index: Option<&str>, cursors: bool| ThemeDir {
        name: s(name),
        index: index.map(s),
        cursors,
    };
    let found = scan_themes(&vec![
        dir("Zeta", Some("[Icon Theme]\nName=beta\nDirectories=a\n"), false),
        dir("hicolor", Some("[Icon Theme]\nDirectories=a\n"), false),
        dir("Alpha", Some("[Icon Theme]\nDirectories=a\n"), false),
        dir("Zeta", Some("[Icon Theme]\nName=again\nDirectories=a\n"), false),
        dir("Cursors", Some("[Icon Theme]\nName=C\n"), true),
        dir("None", None, false),
    ]);
    let names: Vec<(String, String)> =
        found.into_iter().map(|t| (t.dir_name, t.display_name)).collect();
    assert_eq!(names, vec![(s("Alpha"), s("Alpha")), (s("Zeta"), s("beta"))]);
}

#[test]
fn icons_are_searched_nearest_first_then_in_parents() {
    let (mut search, mut ask) = resolve_icon(s("Mine"), s("folder"), vec![s("/u"), s("/s")], 64);
    let mut log: Vec<String> = Vec::new();
    let found = loop {
        match ask {
            Ask::Read(p) => {
                log.push(p.clone());
                let text = if p == "/s/Mine/index.theme" { Some(s(INDEX)) } else { None };
                ask = search.tell(Reply::Text(text));
            }
            Ask::Probe(p) => {
                log.push(p.clone());
                ask = search.tell(Reply::Exists(p == "/u/Mine/16x16/apps/folder.svg"));
            }
            Ask::Found(p) => break Some(p),
            Ask::Missing => break None,
        }
    };
    assert_eq!(found, Some(s("/u/Mine/16x16/apps/folder.svg")));
    assert_eq!(
        log,
        vec![
            s("/u/Mine/index.theme"),
            s("/s/Mine/index.theme"),
            s("/u/Mine/64x64/apps/folder.png"),
            s("/u/Mine/64x64/apps/folder.svg"),
            s("/s/Mine/64x64/apps/folder.png"),
            s("/s/Mine/64x64/apps/folder.svg"),
            s("/u/Mine/16x16/apps/folder.png"),
            s("/u/Mine/16x16/apps/folder.svg"),
        ]
    );
}

#[test]
fn no_theme_is_read_twice() {
    let (mut search, mut ask) = resolve_slot(s("A"), vec![s("x"), s("y")], vec![s("/b")], 64);
    let mut reads: Vec<String> = Vec::new();
    loop {
        match ask {
            Ask::Read(p) => {
                reads.push(p);
                ask = search.tell(Reply::Text(Some(s("[Icon Theme]\nInherits=A,B,hicolor\n"))));
            }
            Ask::Probe(_) => ask = search.tell(Reply::Exists(false)),
            Ask::Found(_) => panic!("found"),
            Ask::Missing => break,
        }
    }
    let once = vec![s("/b/A/index.theme"), s("/b/B/index.theme"), s("/b/hicolor/index.theme")];
    let mut twice = once.clone();
    twice.extend(once);
    assert_eq!(reads, twice);
}

#[test]
fn the_widest_small_pixmap_is_taken() {
    let px = |w: i32, h: i32, b: u8| (w, h, vec![b; (w * h * 4) as usize]);
    let mut one = px(2, 1, 0);
    one.2 = vec![1, 2, 3, 4, 5, 6, 7, 8, 9];
    let icon = pick_pixmap(&vec![px(64, 64, 9), one, (1, 1, vec![1, 2, 3]), (0, 5, vec![])]).unwrap();
    assert_eq!((icon.width, icon.height), (2, 1));
    assert_eq!(icon.bgra, vec![4, 3, 2, 1, 8, 7, 6, 5]);
    let icon = pick_pixmap(&vec![px(64, 1, 1), px(48, 1, 2), px(48, 1, 3)]).unwrap();
    assert_eq!((icon.width, icon.bgra[0]), (48, 2));
    assert!(pick_pixmap(&vec![(4, 4, vec![0; 63])]).is_none());
}

#[test]
fn icons_come_from_pixmaps_files_or_names() {
    let none: Vec<(i32, i32, Vec<u8>)> = Vec::new();
    assert!(matches!(icon_source(&vec![(1, 1, vec![0; 4])], "x"), IconSource::Given(_)));
    assert!(matches!(icon_source(&none, ""), IconSource::Nowhere));
    assert!(matches!(icon_source(&none, "/x.png"), IconSource::File(_)));
    assert!(matches!(icon_source(&none, "x"), IconSource::Named(_)));
}

#[test]
fn files_are_scored_by_size() {
    assert_eq!(icon_size_score("/i/22x22/a.png"), 100);
    assert_eq!(icon_size_score("/i/24/a.png"), 90);
    assert_eq!(icon_size_score("/i/32x32/a.png"), 80);
    assert_eq!(icon_size_score("/i/symbolic/a.svg"), 10);
    assert_eq!(icon_size_score("/i/a.svg"), 50);
    assert_eq!(
        best_candidate(&vec![s("/symbolic/a"), s("/24/a"), s("/x/24x24/a"), s("/b")]),
        Some(s("/24/a"))
    );
    assert_eq!(best_candidate(&Vec::new()), None);
    assert_eq!(icon_targets("net"), vec![s("net.png"), s("net.svg")]);
    assert!(walks_on(5, 64));
    assert!(!walks_on(6, 0));
    assert!(!walks_on(0, 65));
}

#[test]
fn settings_name_the_theme() {
    assert_eq!(qt_icon_theme("[A]\nicon_theme=\n icon_theme= Papirus \n"), Some(s("Papirus")));
    assert_eq!(qt_icon_theme("[A]\n"), None);
    assert_eq!(
        theme_inherits(&vec![None, Some(s("Name=x\n")), Some(s("Inherits=A, ,B\nInherits=C\n"))]),
        vec![s("A"), s("B")]
    );
    assert_eq!(
        theme_list(Some(s("T")), &vec![s("A"), s("hicolor"), s("A")]),
        vec![s("T"), s("A"), s("hicolor"), s("Adwaita")]
    );
    assert_eq!(theme_list(None, &vec![s("A")]), vec![s("Adwaita"), s("hicolor")]);
}

#[test]
fn icon_places_are_listed_once() {
    assert_eq!(
        tray_icon_dirs(Some(s("/h")), None),
        vec![s("/h/.icons"), s("/h/.local/share/icons"), s("/usr/local/share/icons"), s("/usr/share/icons")]
    );
    assert_eq!(
        icon_base_dirs(None, Some(s("/usr/share/:/opt/./share::"))),
        vec![s("/usr/local/share/icons"), s("/usr/share/icons"), s("/opt/./share/icons")]
    );
    assert_eq!(
        find_icon_file("/own", &vec![s("/a"), s("/b")], &vec![s("T")]),
        vec![vec![s("/own")], vec![s("/a/T"), s("/b/T")]]
    );
    assert_eq!(find_icon_file("", &vec![s("/a")], &vec![s("T")]), vec![vec![s("/a/T")]]);
}

/// What a search finds on a disk with one theme that has two icons.
fn find_on_disk(mut search: sfwm::icon_theme::IconSearch, mut ask: Ask) -> Option<String> {
    loop {
        match ask {
            Ask::Read(p) => {
                let text = if p == "/s/Mine/index.theme" { Some(s(INDEX)) } else { None };
                ask = search.tell(Reply::Text(text));
            }
            Ask::Probe(p) => {
                let there = p.ends_with("64x64/apps/b.png") || p.ends_with("64x64/apps/c.png");
                ask = search.tell(Reply::Exists(there));
            }
            Ask::Found(p) => return Some(p),
            Ask::Missing => return None,
        }
    }
}

#[test]
fn the_first_name_that_is_found_counts() {
    let slot = |names: &[&str]| {
        let names = names.iter().map(|n| s(n)).collect();
        let (search, ask) = resolve_slot(s("Mine"), names, vec![s("/s")], 64);
        find_on_disk(search, ask)
    };
    let one = |name: &str| {
        let (search, ask) = resolve_icon(s("Mine"), s(name), vec![s("/s")], 64);
        find_on_disk(search, ask)
    };
    assert_eq!(one("a"), None);
    assert_eq!(one("b"), Some(s("/s/Mine/64x64/apps/b.png")));
    assert_eq!(slot(&["a", "b", "c"]), one("b"));
    assert_eq!(slot(&["c", "b"]), one("c"));
    assert_eq!(slot(&["a", "x"]), None);
    assert_eq!(slot(&[]), None);
}
