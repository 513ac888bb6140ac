use keeper::text::{find_char, text_no_later};
use keeper::xtask::{classify, crate_list, parse_line, read_tree, sort_crates, CrateEntry, TreeLine};
use std::cmp::Ordering;

fn entry(name: &str, path: &str) -> CrateEntry {
    CrateEntry { name: name.split('-').map(str::to_string).collect(), path: path.to_string() }
}

fn pairs(list: &Vec<CrateEntry>) -> Vec<(Vec<String>, String)> {
    list.iter().map(|e| (e.name.clone(), e.path.clone())).collect()
}

fn by_the_book(mut crates: Vec<(Vec<String>, String)>) -> Vec<(Vec<String>, String)> {
    crates.sort_by(|a, b| {
        let aa = a.0.first().map(|v| v.starts_with("keeper"));
        let bb = b.0.first().map(|v| v.starts_with("keeper"));
        if aa.unwrap_or(false) && !bb.unwrap_or(false) {
            Ordering::Less
        } else if !aa.unwrap_or(false) && bb.unwrap_or(false) {
            Ordering::Greater
        } else {
            let al = a.0.len();
            let bl = b.0.len();
            if al != bl {
                al.cmp(&bl)
            } else {
                for i in 0..al {
                    match a.0.get(i).unwrap().cmp(b.0.get(i).unwrap()) {
                        o @ (Ordering::Less | Ordering::Greater) => return o,
                        Ordering::Equal => continue,
                    }
                }
                Ordering::Equal
            }
        }
    });
    crates
}

fn listed_by_the_book(crates: &Vec<(Vec<String>, String)>) -> String {
    let mut out = String::new();
    for (n, p) in crates.iter() {
        if n.len() < 3 && n[0].starts_with("keeper") {
            out += &format!("{:<28} {}\n", n.join("-"), p);
        }
    }
    let mut prior = "".to_string();
    for (n, p) in crates.iter() {
        if n.len() >= 3 {
            let pfx = n[0..n.len() - 1].join("-");
            if pfx != prior {
                out += "\n";
                prior = pfx;
            }
            out += &format!("{:<28} {}\n", n.join("-"), p);
        }
    }
    out += "\n";
    for (n, p) in crates.iter() {
        if n.len() < 3 && !n[0].starts_with("keeper") {
            out += &format!("{:<28} {}\n", n.join("-"), p);
        }
    }
    out
}

fn workspace() -> Vec<CrateEntry> {
    vec![
        entry("xtask", "/w/xtask"),
        entry("keeper-submit", "/w/submit"),
        entry("keeper-server-extra-tools", "/w/tools"),
        entry("keeper-server", "/w/server"),
        entry("keeper-common", "/w/common"),
        entry("keeper-server-extra", "/w/extra"),
        entry("keeper-openapi-models", "/w/models"),
        entry("zlib", "/w/zlib"),
        entry("keeper", "/w/keeper"),
        entry("alpha-beta-gamma", "/w/abg"),
        entry("keeper-server-a-name-that-is-longer-than-the-column", "/w/long"),
        entry("keepsake", "/w/keepsake"),
        entry("keeper-common", "/w/common-again"),
    ]
}

#[test]
fn a_line_of_the_listing_names_a_crate() {
    let e = parse_line("keeper-server v0.1.0 (/w/server)").unwrap();
    assert_eq!((e.name, e.path.as_str()), (vec!["keeper".to_string(), "server".to_string()], "/w/server"));
    let e = parse_line("xtask v0.0.0 (/w/with space/xtask)").unwrap();
    assert_eq!((e.name, e.path.as_str()), (vec!["xtask".to_string()], "/w/with space/xtask"));
    let e = parse_line("a- 1 ()").unwrap();
    assert_eq!((e.name, e.path.as_str()), (vec!["a".to_string(), "".to_string()], ""));
    let e = parse_line(" v1 (p)").unwrap();
    assert_eq!((e.name, e.path.as_str()), (vec!["".to_string()], "p"));
    for weird in ["", "serde", "serde v1.0", "serde v1.0 /w/x", "serde v1.0 (", "serde v1.0 (/w/x", "serde v1.0 /w/x)", "a b "] {
        assert!(parse_line(weird).is_none(), "{:?}", weird);
    }
    assert!(matches!(classify("   \t"), TreeLine::Blank));
    assert!(matches!(classify(""), TreeLine::Blank));
    assert!(matches!(classify("what is this"), TreeLine::Weird));
    assert!(matches!(classify("a v1 (p)"), TreeLine::Entry(_)));
}

#[test]
fn the_listing_is_read_line_by_line() {
    let tree = read_tree("keeper-server v0.1.0 (/w/server)\n\n  \nodd line\r\nxtask v0.0.0 (/w/xtask)\nserde v1.0.0\n");
    assert_eq!(
        pairs(&tree.crates),
        vec![
            (vec!["keeper".to_string(), "server".to_string()], "/w/server".to_string()),
            (vec!["xtask".to_string()], "/w/xtask".to_string()),
        ]
    );
    assert_eq!(tree.weird, vec!["odd line", "serde v1.0.0"]);
    let nothing = read_tree("");
    assert!(nothing.crates.is_empty() && nothing.weird.is_empty());
}

#[test]
fn crates_are_put_in_the_order_of_the_list() {
    let sorted = sort_crates(&workspace());
    assert_eq!(pairs(&sorted), by_the_book(pairs(&workspace())));
    let names: Vec<String> = sorted.iter().map(|e| e.name.join("-")).collect();
    assert_eq!(
        names,
        vec![
            "keeper",
            "keeper-common",
            "keeper-common",
            "keeper-server",
            "keeper-submit",
            "keeper-openapi-models",
            "keeper-server-extra",
            "keeper-server-extra-tools",
            "keeper-server-a-name-that-is-longer-than-the-column",
            "keepsake",
            "xtask",
            "zlib",
            "alpha-beta-gamma",
        ]
    );
    assert_eq!(sorted[1].path, "/w/common");
    assert_eq!(sorted[2].path, "/w/common-again");
    assert!(entry("keeper-x", "").own() && entry("keeperx", "").own());
    assert!(!entry("keepe", "").own() && !entry("akeeper", "").own());
    assert!(entry("keeper-b", "").no_later(&entry("a", "")));
    assert!(!entry("a", "").no_later(&entry("keeper-b", "")));
    assert!(entry("z", "").no_later(&entry("a-b", "")));
    assert!(entry("a-b", "1").no_later(&entry("a-b", "2")) && entry("a-b", "2").no_later(&entry("a-b", "1")));
    assert!(entry("a-b", "").no_later(&entry("a-c", "")) && !entry("a-c", "").no_later(&entry("a-b", "")));
}

#[test]
fn the_list_of_crates_is_written_in_three_parts() {
    let sorted = sort_crates(&workspace());
    let text = crate_list(&sorted);
    assert_eq!(text, listed_by_the_book(&pairs(&sorted)));
    let small = vec![entry("keeper-common", "/w/c"), entry("a-b-c", "/w/abc"), entry("a-b-d", "/w/abd"), entry("zlib", "/z")];
    assert_eq!(
        crate_list(&small),
        "keeper-common                /w/c\n\na-b-c                        /w/abc\na-b-d                        /w/abd\n\nzlib                         /z\n"
    );
    assert_eq!(crate_list(&Vec::new()), "\n");
}

#[test]
fn texts_are_ordered_character_by_character() {
    for (a, b) in [("", ""), ("", "a"), ("a", ""), ("abc", "abd"), ("abc", "ab"), ("b", "abc"), ("é", "z"), ("Z", "a"), ("same", "same")] {
        assert_eq!(text_no_later(a, b), a <= b, "{:?} {:?}", a, b);
    }
    let v: Vec<char> = "a-b c".chars().collect();
    assert_eq!(find_char(&v, 0, '-'), 1);
    assert_eq!(find_char(&v, 2, '-'), 5);
    assert_eq!(find_char(&v, 0, ' '), 3);
    assert_eq!(find_char(&v, 9, ' '), 5);
}
