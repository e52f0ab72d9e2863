use artixide::locale_list::{get_locales, LocaleError};
use artixide::mirror::{get_grouped_mirrors, get_mirrors, trim_server_url, MirrorGroup};
use artixide::names::{
    get_keyboard_layouts, get_timezones, keeps_zone_entry, layout_name, zone_name,
};
use artixide::text::{begins_with, line_bounds};

fn names(items: &[&str]) -> Vec<String> {
    items.iter().map(|item| item.to_string()).collect()
}

fn lines(text: &str) -> Vec<String> {
    let chars: Vec<char> = text.chars().collect();
    line_bounds(&chars)
        .into_iter()
        .map(|(from, to)| chars[from..to].iter().collect())
        .collect()
}

const MIRROR_LIST: &str = "##\n## Artix Linux repository mirrorlist\n##\n\n# Default mirrors\nServer = https://mirrors.dotsrc.org/artix-linux/repos/$repo/os/$arch\nServer = https://mirror.clarkson.edu/artix-linux/repos/$repo/os/$arch\n\n# North America\nServer = https://mirrors.rit.edu/artixlinux/$repo/os/$arch\n## a remark\nServer = http://ftp.example-host.org/artix\n# Europe\n# Asia\nServer = https://mirror.nju.edu.cn/artixlinux/$repo/os/$arch\n";

#[test]
fn text_is_cut_into_lines() {
    for text in ["", "a", "a\n", "a\nb", "a\r\nb\r\n", "\n\n", "a\r", "a\r\n\r\nb", "\r\n", "x\ny\n\nz"] {
        let expected: Vec<String> = text.lines().map(String::from).collect();
        assert_eq!(lines(text), expected);
    }
    assert_eq!(lines("one\ntwo\r\nthree"), names(&["one", "two", "three"]));
}

#[test]
fn prefix_is_looked_for_behind_a_position() {
    let chars: Vec<char> = "Server = x".chars().collect();
    assert!(begins_with(&chars, 0, "Server"));
    assert!(begins_with(&chars, 7, "= x"));
    assert!(begins_with(&chars, 10, ""));
    assert!(!begins_with(&chars, 1, "Server"));
    assert!(!begins_with(&chars, 7, "= xy"));
}

#[test]
fn mirrors_are_grouped() {
    let groups = get_grouped_mirrors(MIRROR_LIST);
    assert_eq!(
        groups,
        vec![
            MirrorGroup {
                name: String::from("# Default mirrors"),
                servers: names(&[
                    "Server = https://mirrors.dotsrc.org/artix-linux/repos/$repo/os/$arch",
                    "Server = https://mirror.clarkson.edu/artix-linux/repos/$repo/os/$arch",
                ]),
            },
            MirrorGroup {
                name: String::from("# North America"),
                servers: names(&[
                    "Server = https://mirrors.rit.edu/artixlinux/$repo/os/$arch",
                    "Server = http://ftp.example-host.org/artix",
                ]),
            },
            MirrorGroup { name: String::from("# Europe"), servers: vec![] },
            MirrorGroup {
                name: String::from("# Asia"),
                servers: names(&["Server = https://mirror.nju.edu.cn/artixlinux/$repo/os/$arch"]),
            },
        ]
    );
}

#[test]
fn mirror_list_without_header_has_an_empty_first_group() {
    let expected = vec![MirrorGroup { name: String::from("# Default mirrors"), servers: vec![] }];
    assert_eq!(get_grouped_mirrors(""), expected);
    assert_eq!(get_grouped_mirrors("Server = https://a.example/x\n# Group\n"), expected);
    assert_eq!(get_grouped_mirrors("# Default mirrors"), expected);
}

#[test]
fn host_is_shown_of_a_server() {
    assert_eq!(
        trim_server_url("Server = https://mirrors.dotsrc.org/artix-linux/repos/$repo/os/$arch"),
        "mirrors.dotsrc.org"
    );
    assert_eq!(trim_server_url("Server = http://ftp.example-host.org/artix"), "ftp.example-host.org");
    assert_eq!(trim_server_url("Server = see https://a.b/ or http://c.d/"), "a.b");
    assert_eq!(trim_server_url("Server = http://localhost/x and https://a9.example.org/"), "a9.example.org");
    assert_eq!(trim_server_url("Server = https://mirror.example.org"), "https://mirror.example.or");
    assert_eq!(trim_server_url("Server = https://Mirror.example.org/x"), "https://Mirror.example.org/");
    assert_eq!(trim_server_url("Server = https://a..b/x"), "https://a..b/");
    assert_eq!(trim_server_url("Server = https://a.b9/x"), "https://a.b9/");
    assert_eq!(trim_server_url("Server = https://.a.b/x"), "https://.a.b/");
    assert_eq!(trim_server_url("Server = https://a.b./x"), "https://a.b./");
    assert_eq!(trim_server_url("Server = httpss://a.b/x"), "httpss://a.b/");
    assert_eq!(trim_server_url("Server = https://1-2.x-y.zz/"), "1-2.x-y.zz");
    assert_eq!(trim_server_url("Server = x"), "");
}

#[test]
fn mirrors_are_listed() {
    let list = get_mirrors(MIRROR_LIST);
    assert_eq!(
        list.groups,
        names(&["# Default mirrors", "# North America", "# Europe", "# Asia"])
    );
    assert_eq!(list.default_servers_count, 2);
    assert_eq!(list.servers.len(), 4);
    assert_eq!(list.servers[0].len(), 2);
    assert_eq!(list.servers[2].len(), 0);
    assert_eq!(
        list.trim_servers,
        names(&["mirrors.rit.edu", "ftp.example-host.org", "mirror.nju.edu.cn"])
    );
    let short = get_mirrors("# Default mirrors\nServer = a\n# Others\nServer\nServer = b.c/\n");
    assert_eq!(short.default_servers_count, 1);
    assert_eq!(short.trim_servers, names(&["Server", "b.c"]));
}

#[test]
fn keyboard_layouts_are_named_by_their_files() {
    assert_eq!(layout_name("us.map.gz"), Some("us"));
    assert_eq!(layout_name("de-latin1.map.gz"), Some("de-latin1"));
    assert_eq!(layout_name(".map.gz"), Some(""));
    assert_eq!(layout_name("us.map"), None);
    assert_eq!(layout_name("map.gz"), None);
    assert_eq!(layout_name("include"), None);
    assert_eq!(
        get_keyboard_layouts(&names(&[
            "us.map.gz",
            "README",
            "de.map.gz",
            "azerty.map.gz",
            "Us.map.gz",
            "de.map.gz",
            "qwerty.inc",
        ])),
        names(&["Us", "azerty", "de", "de", "us"])
    );
    assert_eq!(get_keyboard_layouts(&vec![]), Vec::<String>::new());
}

#[test]
fn time_zone_entries_are_filtered() {
    assert!(keeps_zone_entry("Europe", true));
    assert!(keeps_zone_entry("Etc.d", true));
    assert!(!keeps_zone_entry("posix", true));
    assert!(!keeps_zone_entry("right", true));
    assert!(keeps_zone_entry("Berlin", false));
    assert!(keeps_zone_entry("posix", false));
    assert!(keeps_zone_entry(".hidden", false));
    assert!(keeps_zone_entry("", false));
    assert!(!keeps_zone_entry("zone.tab", false));
    assert!(!keeps_zone_entry("tzdata.zi", false));
    assert!(!keeps_zone_entry("a.", false));
    assert!(!keeps_zone_entry("posixrules", false));
    assert!(!keeps_zone_entry("SECURITY", false));
    assert!(!keeps_zone_entry("leapseconds", false));
}

#[test]
fn time_zones_are_named_by_their_paths() {
    assert_eq!(zone_name("/usr/share/zoneinfo/Europe/Berlin"), Some("Europe/Berlin"));
    assert_eq!(zone_name("/usr/share/zoneinfo/UTC"), Some("UTC"));
    assert_eq!(zone_name("/usr/share/zoneinfo/"), Some(""));
    assert_eq!(zone_name("/usr/share/zoneinfo"), None);
    assert_eq!(zone_name("/etc/localtime"), None);
    assert_eq!(
        get_timezones(&names(&[
            "/usr/share/zoneinfo/Africa/Abidjan",
            "/tmp/zone",
            "/usr/share/zoneinfo/UTC",
        ])),
        names(&["Africa/Abidjan", "UTC"])
    );
}

#[test]
fn locales_are_read_from_the_list() {
    let text = "# Configuration file for locale-gen\n#\n#aa_DJ.UTF-8 UTF-8  \n#aa_DJ ISO-8859-1  \nca_ES@valencia ISO-8859-15\nen_US.UTF-8 UTF-8\n#sr_RS@latin UTF-8\nde ISO-8859-1\n";
    let locales = get_locales(text).unwrap();
    assert_eq!(
        locales.langs,
        names(&["aa_DJ.UTF-8", "aa_DJ", "ca_ES@valencia", "en_US.UTF-8", "sr_RS@latin", "de"])
    );
    assert_eq!(locales.encodings, names(&["ISO-8859-1", "ISO-8859-15", "UTF-8"]));
}

#[test]
fn line_behind_the_locales_that_names_none_fails() {
    assert_eq!(
        get_locales("# intro\nen_US.UTF-8 UTF-8\n\nde_DE ISO-8859-1\n"),
        Err(LocaleError { line: 2 })
    );
    assert_eq!(
        get_locales("en_US.UTF-8 UTF-8\nEN_us UTF-8\n"),
        Err(LocaleError { line: 1 })
    );
    for line in ["en_US.UTF-8", "en_US.UTF-8 ", "en_us UTF-8", "en_ UTF-8", "en@ UTF-8", "en. UTF-8", "_US UTF-8", "##en UTF-8", "en@a_b UTF-8"] {
        let text = format!("aa UTF-8\n{}\n", line);
        assert_eq!(get_locales(&text), Err(LocaleError { line: 1 }));
    }
    let empty = get_locales("# nothing here\n\n").unwrap();
    assert_eq!(empty.langs, Vec::<String>::new());
    assert_eq!(empty.encodings, Vec::<String>::new());
    let tabbed = get_locales("en_US\tUTF-8\trest").unwrap();
    assert_eq!(tabbed.langs, names(&["en_US"]));
    assert_eq!(tabbed.encodings, names(&["UTF-8"]));
}

fn pieces(alphabet: &[&str], max: usize) -> Vec<String> {
    let mut all = vec![String::new()];
    let mut last = vec![String::new()];
    for _ in 0..max {
        let mut next = Vec::new();
        for text in &last {
            for piece in alphabet {
                next.push(format!("{}{}", text, piece));
            }
        }
        all.extend(next.iter().cloned());
        last = next;
    }
    all
}

#[test]
fn host_agrees_with_the_pattern_of_a_url() {
    let pattern = regex::Regex::new(r"https?://(?<host>([a-z0-9-]+\.)+[a-z]+)/.*").unwrap();
    let alphabet = ["http://", "https://", "a", "9", "-", ".", "/", "Z", "s", " "];
    for rest in pieces(&alphabet, 5) {
        if rest.is_empty() {
            continue;
        }
        let line = format!("Server = {}", rest);
        let expected = match pattern.captures(&rest) {
            Some(found) => found.name("host").unwrap().as_str().to_string(),
            None => rest[..rest.len() - 1].to_string(),
        };
        assert_eq!(trim_server_url(&line), expected, "{:?}", rest);
    }
}

#[test]
fn locale_lines_agree_with_the_pattern_of_a_locale() {
    let pattern = regex::Regex::new(
        r"^(?<locale>#?[a-z]+(_[A-Z]+)?(\@[a-z]+)?(\.[^\s]+)?)\s(?<encoding>[^\s]+)",
    )
    .unwrap();
    let alphabet = ["#", "a", "B", "_", "@", ".", " ", "\t", "8", "\u{a0}"];
    for line in pieces(&alphabet, 6) {
        if line.is_empty() {
            continue;
        }
        let found = get_locales(&line);
        match pattern.captures(&line) {
            Some(expected) => {
                let locales = found.unwrap();
                let locale = expected.name("locale").unwrap().as_str();
                assert_eq!(locales.langs, vec![locale.trim_start_matches('#').to_string()]);
                assert_eq!(
                    locales.encodings,
                    vec![expected.name("encoding").unwrap().as_str().to_string()]
                );
            }
            None => {
                let locales = found.unwrap();
                assert_eq!(locales.langs, Vec::<String>::new(), "{:?}", line);
                let behind = format!("aa UTF-8\n{}", line);
                assert_eq!(get_locales(&behind), Err(LocaleError { line: 1 }), "{:?}", line);
            }
        }
    }
}
