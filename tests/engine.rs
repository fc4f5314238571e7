use launcher::cache::Cache;
use launcher::config::{Config, Engine};
use launcher::entry::{child_entry, dir_entry, DirChild, DirListing, FileEntry, FileEntryType};
use launcher::query::{fix_url, home_relative, split_command, Locations, Probe, Query};
use launcher::rank::{fuse_scores, rank_sort, skim_candidate, FuseHit, Scored};
use launcher::result::LauncherResult;
use launcher::text::trim;

fn locations() -> Locations {
    Locations {
        home: "/home/u".to_string(),
        config_path: "/home/u/.config/launcher/launcher.toml".to_string(),
    }
}

fn probe(path: bool, home: bool, host: bool) -> Probe {
    Probe { path_exists: path, home_path_exists: home, host_found: host, fuse_hits: vec![] }
}

fn safari_cache() -> Cache {
    let mut c = Cache::new();
    c.insert_entry(FileEntry::new(
        FileEntryType::App,
        "/Applications/Safari.app".to_string(),
        "Safari".to_string(),
    ));
    c
}

fn lines(v: &[LauncherResult]) -> Vec<String> {
    v.iter().map(|r| r.get_string()).collect()
}

fn resolve(q: &str, c: Cache, p: &Probe, cfg: &Config) -> Cache {
    Query::from(q).parse(cfg, c, &locations(), p)
}

#[test]
fn fix_url_adds_scheme() {
    assert_eq!(fix_url("example.com"), "http://example.com");
}

#[test]
fn fix_url_keeps_scheme() {
    assert_eq!(fix_url("https://example.com"), "https://example.com");
    assert_eq!(fix_url("http://example.com"), "http://example.com");
    assert_eq!(fix_url(&fix_url("example.com")), "http://example.com");
}

#[test]
fn config_command_resolves_to_config_file() {
    let cfg = Config::default();
    let d = resolve(":config", safari_cache(), &probe(true, true, true), &cfg);
    let r = d.get_results(":config").expect("memoized");
    assert_eq!(lines(r), vec!["File | /home/u/.config/launcher/launcher.toml".to_string()]);
    assert!(d.entries().is_empty());
}

#[test]
fn safari_ranks_first_for_saf() {
    let cfg = Config::default();
    assert_eq!(cfg.results_len, 20);
    let d = resolve("saf", safari_cache(), &probe(false, false, false), &cfg);
    let r = d.get_results("saf").expect("memoized");
    assert_eq!(
        lines(r),
        vec!["App  | /Applications/Safari.app".to_string(), "Cmd  | :search saf".to_string()]
    );
    assert!(matches!(r.last(), Some(LauncherResult::Command(c, q)) if c == "search" && q == "saf"));
}

#[test]
fn blank_query_gives_empty_delta() {
    let cfg = Config::default();
    let d = resolve("   ", safari_cache(), &probe(true, true, true), &cfg);
    assert!(d.get_results("").is_none());
    assert!(d.get_results("   ").is_none());
    assert!(d.entries().is_empty());
    let d = resolve("", Cache::new(), &probe(true, true, true), &cfg);
    assert!(d.get_results("").is_none());
}

#[test]
fn long_query_skips_fuzzy_ranking() {
    let cfg = Config::default();
    let mut c = Cache::new();
    c.insert_entry(FileEntry::new(
        FileEntryType::App,
        "/Applications/abcdefghijklmnop.app".to_string(),
        "abcdefghijklmnop".to_string(),
    ));
    let q = "abcdefghijklmnop";
    let d = resolve(q, c, &probe(true, true, true), &cfg);
    assert_eq!(
        lines(d.get_results(q).unwrap()),
        vec![
            "File | abcdefghijklmnop".to_string(),
            "File | /home/u/abcdefghijklmnop".to_string(),
            "Url  | http://abcdefghijklmnop".to_string(),
            "Cmd  | :search abcdefghijklmnop".to_string(),
        ]
    );
}

#[test]
fn short_query_ranks_entries() {
    let cfg = Config::default();
    let mut c = Cache::new();
    c.insert_entry(FileEntry::new(FileEntryType::App, "/A/abcdef.app".to_string(), "abcdef".to_string()));
    let d = resolve("abcdef", c, &probe(false, false, false), &cfg);
    assert_eq!(
        lines(d.get_results("abcdef").unwrap()),
        vec!["App  | /A/abcdef.app".to_string(), "Cmd  | :search abcdef".to_string()]
    );
}

#[test]
fn memoized_query_gives_empty_delta() {
    let cfg = Config::default();
    let mut c = safari_cache();
    c.add_results("saf", vec![LauncherResult::Url("x".to_string())]);
    let d = resolve("  saf ", c, &probe(true, true, true), &cfg);
    assert!(d.get_results("saf").is_none());
    assert!(d.entries().is_empty());
}

#[test]
fn query_is_memoized_trimmed() {
    let cfg = Config::default();
    let d = resolve("  saf  ", safari_cache(), &probe(false, false, false), &cfg);
    assert!(d.get_results("saf").is_some());
    assert!(d.get_results("  saf  ").is_none());
    assert_eq!(Query::from("  saf  ").key(), "saf");
}

#[test]
fn meta_commands() {
    let cfg = Config::default();
    let d = resolve(":find x", Cache::new(), &probe(false, false, false), &cfg);
    assert!(d.get_results(":find x").unwrap().is_empty());
    let d = resolve(": search  rust lang ", Cache::new(), &probe(false, false, false), &cfg);
    assert_eq!(lines(d.get_results(": search  rust lang").unwrap()), vec!["Cmd  | :search rust lang".to_string()]);
    let d = resolve(":exec", Cache::new(), &probe(false, false, false), &cfg);
    assert_eq!(lines(d.get_results(":exec").unwrap()), vec!["Cmd  | :exec ".to_string()]);
}

#[test]
fn split_command_parts() {
    let (c, p) = split_command(":exec  ls -la ");
    assert_eq!((c.as_str(), p.as_str()), ("exec", "ls -la"));
    let (c, p) = split_command(": update");
    assert_eq!((c.as_str(), p.as_str()), ("update", ""));
}

#[test]
fn trim_drops_unicode_whitespace() {
    assert_eq!(trim("\u{3000} a b\t\n"), "a b");
    assert_eq!(trim("   "), "");
    assert_eq!(home_relative(&"/h".to_string(), &"x".to_string()), "/h/x");
}

#[test]
fn url_result_for_host() {
    let cfg = Config::default();
    let d = resolve("example.com", Cache::new(), &probe(false, false, true), &cfg);
    assert_eq!(
        lines(d.get_results("example.com").unwrap()),
        vec!["Url  | http://example.com".to_string(), "Cmd  | :search example.com".to_string()]
    );
}

#[test]
fn directory_entries() {
    let d = dir_entry("/Applications");
    assert_eq!((d.full_path.as_str(), d.name.as_str()), ("/Applications/", "Applications/"));
    assert_eq!(d.file_type, FileEntryType::File);
    let d = dir_entry("/");
    assert_eq!((d.full_path.as_str(), d.name.as_str()), ("/", "/"));
    let d = dir_entry("/usr/bin/");
    assert_eq!((d.full_path.as_str(), d.name.as_str()), ("/usr/bin/", "bin/"));
    let d = dir_entry("/a//");
    assert_eq!((d.full_path.as_str(), d.name.as_str()), ("/a/", "a/"));
    let d = dir_entry("///");
    assert_eq!((d.full_path.as_str(), d.name.as_str()), ("/", "/"));
}

#[test]
fn application_children() {
    let p = "/Applications/.hidden".to_string();
    assert!(child_entry(&p, &".hidden".to_string(), FileEntryType::App).is_none());
    let e = child_entry(&"/Applications/Safari.app".to_string(), &"Safari.app".to_string(), FileEntryType::App).unwrap();
    assert_eq!(e.name, "Safari");
    let e = child_entry(&"/bin/.x.y".to_string(), &".x.y".to_string(), FileEntryType::Bin).unwrap();
    assert_eq!(e.name, ".x.y");
}

fn listing() -> Vec<DirListing> {
    vec![DirListing {
        location: "/Applications".to_string(),
        children: vec![
            DirChild { path: "/Applications/Safari.app".to_string(), name: "Safari.app".to_string() },
            DirChild { path: "/Applications/.DS_Store".to_string(), name: ".DS_Store".to_string() },
            DirChild { path: "/Applications/Mail.app".to_string(), name: "Mail.app".to_string() },
        ],
    }]
}

fn paths(c: &Cache) -> Vec<(String, String)> {
    let mut v: Vec<(String, String)> =
        c.entries().iter().map(|e| (e.full_path.clone(), e.name.clone())).collect();
    v.sort();
    v
}

#[test]
fn scanning_twice_keeps_membership() {
    let mut c = Cache::new();
    c.add_dir(&listing(), FileEntryType::App);
    let once = paths(&c);
    assert_eq!(once.len(), 3);
    c.add_dir(&listing(), FileEntryType::App);
    assert_eq!(paths(&c), once);
}

#[test]
fn rescan_replaces_kind_and_name() {
    let mut c = Cache::new();
    c.add_dir(&listing(), FileEntryType::App);
    c.add_dir(&listing(), FileEntryType::File);
    let e = c.entries().iter().find(|e| e.full_path == "/Applications/Safari.app").unwrap();
    assert_eq!(e.file_type, FileEntryType::File);
    assert_eq!(e.name, "Safari.app");
    assert_eq!(c.entries().len(), 4);
}

#[test]
fn init_unions_three_scans() {
    let bins = vec![DirListing {
        location: "/bin".to_string(),
        children: vec![DirChild { path: "/bin/ls".to_string(), name: "ls".to_string() }],
    }];
    let c = Cache::init(&listing(), &bins, &vec![]);
    assert_eq!(c.entries().len(), 5);
    assert!(c.entries().iter().any(|e| e.full_path == "/bin/ls" && e.file_type == FileEntryType::Bin));
}

fn delta(q: &str, list: Vec<LauncherResult>, path: &str) -> Cache {
    let mut d = Cache::new();
    d.add_results(q, list);
    d.insert_entry(FileEntry::new(FileEntryType::File, path.to_string(), "n".to_string()));
    d
}

fn summary(c: &Cache, keys: &[&str]) -> (Vec<(String, String)>, Vec<Option<Vec<String>>>) {
    (paths(c), keys.iter().map(|k| c.get_results(k).map(|v| lines(v))).collect())
}

#[test]
fn merge_commutes_and_is_idempotent() {
    let keys = ["a", "b", "c"];
    let d1 = delta("a", vec![LauncherResult::Url("1".to_string())], "/p1");
    let d2 = delta("b", vec![LauncherResult::Url("2".to_string())], "/p2");
    let mut base = Cache::new();
    base.add_results("c", vec![]);

    let mut x = base.snapshot();
    x.merge(&d1);
    x.merge(&d2);
    let mut y = base.snapshot();
    y.merge(&d2);
    y.merge(&d1);
    assert_eq!(summary(&x, &keys), summary(&y, &keys));
    let before = summary(&x, &keys);
    x.merge(&d1);
    assert_eq!(summary(&x, &keys), before);
}

#[test]
fn merge_never_overwrites_memoized_list() {
    let mut base = Cache::new();
    base.add_results("a", vec![LauncherResult::Url("old".to_string())]);
    base.merge(&delta("a", vec![LauncherResult::Url("new".to_string())], "/p"));
    assert_eq!(lines(base.get_results("a").unwrap()), vec!["Url  | old".to_string()]);
    assert_eq!(base.entries().len(), 1);
}

#[test]
fn add_results_keeps_first_list() {
    let mut c = Cache::new();
    c.add_results("q", vec![LauncherResult::App("1".to_string())]);
    c.add_results("q", vec![]);
    assert_eq!(lines(c.get_results("q").unwrap()), vec!["App  | 1".to_string()]);
}

fn sc(score: i64, coverage: u128, index: usize) -> Scored {
    Scored { score, coverage, index }
}

#[test]
fn ranking_is_deterministic() {
    let cands = vec![sc(5, 10, 0), sc(9, 1, 1), sc(5, 20, 2), sc(1, 0, 3)];
    let a = rank_sort(&cands, true);
    let b = rank_sort(&cands, true);
    assert_eq!(a, b);
    assert_eq!(a, vec![sc(9, 1, 1), sc(5, 20, 2), sc(5, 10, 0), sc(1, 0, 3)]);
    let c = rank_sort(&cands, false);
    assert_eq!(c, vec![sc(1, 0, 3), sc(5, 10, 0), sc(5, 20, 2), sc(9, 1, 1)]);
    assert!(rank_sort(&vec![], true).is_empty());
}

#[test]
fn fuse_ranking_uses_hits() {
    let mut c = Cache::new();
    c.insert_entry(FileEntry::new(FileEntryType::Bin, "/bin/safe".to_string(), "safe".to_string()));
    c.insert_entry(FileEntry::new(FileEntryType::App, "/A/Safari.app".to_string(), "Safari".to_string()));
    c.insert_entry(FileEntry::new(FileEntryType::File, "/f/sa".to_string(), "sa".to_string()));
    let hits = vec![
        Some(FuseHit { score: 100, ranges: vec![(0, 3)] }),
        Some(FuseHit { score: 10, ranges: vec![(0, 3)] }),
        Some(FuseHit { score: 0, ranges: vec![(0, 2)] }),
    ];
    let r = c.search("saf", Engine::Fuse, 20, &hits);
    // "sa" is shorter than the query and is left out; lower scores come first.
    assert_eq!(lines(&r), vec!["App  | /A/Safari.app".to_string(), "Bin  | /bin/safe".to_string()]);
    let r = c.search("saf", Engine::Fuse, 1, &hits);
    assert_eq!(lines(&r), vec!["App  | /A/Safari.app".to_string()]);
}

#[test]
fn skim_ranking_prefers_better_matches() {
    let mut c = Cache::new();
    c.insert_entry(FileEntry::new(FileEntryType::Bin, "/bin/xyz".to_string(), "xyz".to_string()));
    c.insert_entry(FileEntry::new(FileEntryType::App, "/A/Safari.app".to_string(), "Safari".to_string()));
    let r = c.search("saf", Engine::Skim, 20, &vec![]);
    assert_eq!(lines(&r), vec!["App  | /A/Safari.app".to_string()]);
    assert!(c.search("saf", Engine::Skim, 0, &vec![]).is_empty());
}

#[test]
fn default_config_and_engines() {
    let c = Config::default();
    assert_eq!(c.app_locations.len(), 4);
    assert_eq!(c.app_locations[0], "/Applications");
    assert_eq!(c.editor, "hx");
    assert_eq!(c.fuzzy_engine, Engine::Skim);
    assert_eq!(Engine::from_name("fuse"), Some(Engine::Fuse));
    assert_eq!(Engine::from_name("skim"), Some(Engine::Skim));
    assert_eq!(Engine::from_name("other"), None);
}

#[test]
fn skim_coverage_is_share_of_name() {
    assert_eq!(skim_candidate(&Some((16, vec![0, 1, 2])), 6, 4), Some(sc(16, 512, 4)));
    assert_eq!(skim_candidate(&Some((3, vec![0])), 3, 0), Some(sc(3, 341, 0)));
    assert_eq!(skim_candidate(&Some((0, vec![])), 0, 1), Some(sc(0, 0, 1)));
    assert_eq!(skim_candidate(&None, 5, 0), None);
}

#[test]
fn fuse_coverage_is_uncovered_share() {
    let entries = vec![
        FileEntry::new(FileEntryType::App, "/A/Safari.app".to_string(), "Safari".to_string()),
        FileEntry::new(FileEntryType::App, "/A/saf".to_string(), "saf".to_string()),
    ];
    let hits = vec![
        Some(FuseHit { score: 7, ranges: vec![(0, 2), (3, 4)] }),
        Some(FuseHit { score: 0, ranges: vec![(0, 3)] }),
    ];
    assert_eq!(fuse_scores(&entries, "saf", &hits), vec![sc(7, 256, 0), sc(0, 0, 1)]);
    assert_eq!(fuse_scores(&entries, "safar", &hits), vec![sc(7, 256, 0)]);
}

#[test]
fn trailing_slashes_give_one_identity() {
    let mut c = Cache::new();
    let one = vec![DirListing { location: "/Applications".to_string(), children: vec![] }];
    let two = vec![DirListing { location: "/Applications//".to_string(), children: vec![] }];
    c.add_dir(&one, FileEntryType::App);
    c.add_dir(&two, FileEntryType::App);
    assert_eq!(paths(&c), vec![("/Applications/".to_string(), "Applications/".to_string())]);
}

#[test]
fn search_names_each_path_once() {
    let mut c = Cache::new();
    c.add_dir(&listing(), FileEntryType::App);
    c.add_dir(&listing(), FileEntryType::App);
    let r = lines(&c.search("a", Engine::Skim, 20, &vec![]));
    let mut sorted = r.clone();
    sorted.sort();
    sorted.dedup();
    assert_eq!(sorted.len(), r.len());
    assert_eq!(r.len(), 3);
    let again = lines(&c.search("a", Engine::Skim, 20, &vec![]));
    assert_eq!(r, again);
}
