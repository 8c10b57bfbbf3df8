use dots::command::{install_command_line, join_names, replace_all, split_words};
use dots::location::resolve_config_dir;
use dots::text::{is_white_space, parse_tags, sort_strings, str_le, trimmed_range};
use dots::{Package, Packages};

fn strs(v: &[&str]) -> Vec<String> {
    v.iter().map(|s| s.to_string()).collect()
}

fn store_of(names: &[&str]) -> Packages {
    Packages {
        packages: names
            .iter()
            .map(|n| Package {
                name: n.to_string(),
                reason: String::new(),
                category: String::new(),
                tags: Vec::new(),
            })
            .collect(),
    }
}

#[test]
fn parse_tags_trims_each_piece() {
    assert_eq!(parse_tags("term, fast"), strs(&["term", "fast"]));
    assert_eq!(parse_tags("  a ,b,  c  "), strs(&["a", "b", "c"]));
    assert_eq!(parse_tags(""), strs(&[""]));
    assert_eq!(parse_tags("a,,b,"), strs(&["a", "", "b", ""]));
    assert_eq!(parse_tags("\u{3000}wide\t,\nx"), strs(&["wide", "x"]));
}

#[test]
fn trimmed_range_of_middle() {
    assert_eq!(trimmed_range("xx  ab c \tyy", 2, 10), "ab c");
    assert_eq!(trimmed_range("   ", 0, 3), "");
}

#[test]
fn white_space_chars() {
    assert!(is_white_space(' '));
    assert!(is_white_space('\n'));
    assert!(is_white_space('\u{a0}'));
    assert!(is_white_space('\u{2003}'));
    assert!(!is_white_space('a'));
    assert!(!is_white_space('\u{200b}'));
    for c in ['\t', 'x', '\u{85}', '\u{1680}', '\u{2028}', '\u{feff}', '_'] {
        assert_eq!(is_white_space(c), c.is_whitespace());
    }
}

#[test]
fn str_order_is_code_point_order() {
    assert!(str_le("", "a"));
    assert!(str_le("ab", "ab"));
    assert!(str_le("ab", "abc"));
    assert!(!str_le("abc", "ab"));
    assert!(str_le("B", "a"));
    assert!(!str_le("b", "a"));
    assert!(str_le("z", "\u{e9}"));
}

#[test]
fn sort_strings_matches_std_sort() {
    let mut v = strs(&["pear", "apple", "Pear", "apple", "", "\u{e9}t\u{e9}", "zoo"]);
    let mut expected = v.clone();
    expected.sort();
    sort_strings(&mut v);
    assert_eq!(v, expected);
    let mut empty: Vec<String> = Vec::new();
    sort_strings(&mut empty);
    assert!(empty.is_empty());
}

#[test]
fn join_names_with_spaces() {
    assert_eq!(join_names(&store_of(&["git", "kitty", "vim"])), "git kitty vim");
    assert_eq!(join_names(&store_of(&["git"])), "git");
    assert_eq!(join_names(&store_of(&[])), "");
}

#[test]
fn replace_all_occurrences() {
    assert_eq!(replace_all("a {p} b {p}", "{p}", "x y"), "a x y b x y");
    assert_eq!(replace_all("aaa", "aa", "b"), "ba");
    assert_eq!(replace_all("none", "{p}", "x"), "none");
    assert_eq!(replace_all("", "{p}", "x"), "");
}

#[test]
fn split_words_skips_runs_of_space() {
    assert_eq!(split_words("  paru  -S\tgit \n"), strs(&["paru", "-S", "git"]));
    assert!(split_words("   ").is_empty());
    assert!(split_words("").is_empty());
}

#[test]
fn install_command_from_template() {
    let store = store_of(&["git", "kitty"]);
    let r = install_command_line("sudo pacman -S {packages} --needed", &store);
    assert_eq!(
        r,
        Some(("sudo".to_string(), strs(&["pacman", "-S", "git", "kitty", "--needed"])))
    );
    assert_eq!(install_command_line("{packages}", &store), Some(("git".to_string(), strs(&["kitty"]))));
    assert_eq!(install_command_line("  ", &store), None);
    assert_eq!(install_command_line("{packages}", &store_of(&[])), None);
}

#[test]
fn config_dir_priority() {
    let s = |x: &str| Some(x.to_string());
    assert_eq!(resolve_config_dir(s("/cli"), s("/xdg/dots"), s("/home/.config/dots"), ".".to_string()), "/cli");
    assert_eq!(resolve_config_dir(None, s("/xdg/dots"), s("/home/.config/dots"), ".".to_string()), "/xdg/dots");
    assert_eq!(resolve_config_dir(None, None, s("/home/.config/dots"), ".".to_string()), "/home/.config/dots");
    assert_eq!(resolve_config_dir(None, None, None, "/cwd".to_string()), "/cwd");
}
