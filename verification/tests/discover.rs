use ff_router::installer::discover::{
    assign_profiles, default_name, merge_store_output, parse_profiles_ini, sort_names,
};
use ff_router::strmap::StrMap;

fn s(x: &str) -> String {
    x.to_string()
}

#[test]
fn parses_profiles_ini() {
    let ini = "\
[Profile0]
Name=default-release
Path=Profiles/qtIifLeX.Profile 1

[Profile1]
Name=default
Path=Profiles/z9z6mukp.default
";
    let map = parse_profiles_ini(ini);
    assert_eq!(
        map.get("qtIifLeX.Profile 1").map(String::as_str),
        Some("default-release")
    );
    assert_eq!(
        map.get("z9z6mukp.default").map(String::as_str),
        Some("default")
    );
}

#[test]
fn strips_directory_prefix() {
    assert_eq!(default_name("dhutbqgo.default-release"), "default-release");
    assert_eq!(default_name("no-dot"), "no-dot");
}

#[test]
fn ini_section_without_path_is_ignored() {
    let map = parse_profiles_ini("[General]\nStartWithLastProfile=1\n[Profile0]\nName=Solo\n");
    assert!(map.get("Solo").is_none());
    let map = parse_profiles_ini("  [P]  \n  Name=Spaced  \n  Path=a/b/c.dir  ");
    assert_eq!(map.get("c.dir").map(String::as_str), Some("Spaced"));
}

#[test]
fn store_output_maps_last_path_component() {
    let mut map = StrMap::new();
    merge_store_output(&mut map, "Work|/Users/u/Profiles/abc.work\nbad line\nHome|def.home\n");
    assert_eq!(map.get("abc.work").map(String::as_str), Some("Work"));
    assert_eq!(map.get("def.home").map(String::as_str), Some("Home"));
    assert!(map.get("bad line").is_none());
}

#[test]
fn sorts_by_code_point() {
    assert_eq!(
        sort_names(vec![s("b"), s("B"), s("a"), s("ab")]),
        vec![s("B"), s("a"), s("ab"), s("b")]
    );
}

#[test]
fn labels_come_from_store_then_ini_then_directory_and_stay_unique() {
    let mut store = StrMap::new();
    store.insert(s("b.two"), s("Work"));
    let mut ini = StrMap::new();
    ini.insert(s("a.one"), s("Work"));
    ini.insert(s("b.two"), s("Ignored"));
    let ps = assign_profiles(vec![s("c.work"), s("b.two"), s("a.one"), s("d.!!!")], &store, &ini);
    let got: Vec<(String, String, String)> = ps
        .into_iter()
        .map(|p| (p.name, p.dir, p.label))
        .collect();
    assert_eq!(
        got,
        vec![
            (s("Work"), s("a.one"), s("work")),
            (s("Work"), s("b.two"), s("work-2")),
            (s("work"), s("c.work"), s("work-3")),
            (s("!!!"), s("d.!!!"), s("profile4")),
        ]
    );
}

#[test]
fn each_directory_gets_one_profile_in_sorted_order() {
    let store = StrMap::new();
    let mut ini = StrMap::new();
    ini.insert(s("x.b"), s("Beta"));
    let ps = assign_profiles(vec![s("z.zeta"), s("x.b"), s("y.")], &store, &ini);
    assert_eq!(ps.len(), 3);
    assert_eq!(ps[0].dir, "x.b");
    assert_eq!(ps[0].name, "Beta");
    assert_eq!(ps[0].label, "beta");
    assert_eq!(ps[1].dir, "y.");
    assert_eq!(ps[1].name, "");
    assert_eq!(ps[1].label, "profile2");
    assert_eq!(ps[2].label, "zeta");
    assert!(ps.iter().all(|p| !p.label.is_empty()));
}
