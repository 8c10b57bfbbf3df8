use dots::normalize::normalize_packages;
use dots::store::{find_package, not_found_message};
use dots::{edit, filter_by_category, filter_by_tag, has, info, install, list, uninstall};
use dots::{AppConfig, Package, Packages};

fn pkg(name: &str, category: &str, tags: &[&str]) -> Package {
    Package {
        name: name.to_string(),
        reason: format!("why {}", name),
        category: category.to_string(),
        tags: tags.iter().map(|t| t.to_string()).collect(),
    }
}

fn config(sort_by: &str) -> AppConfig {
    AppConfig {
        sort_by: sort_by.to_string(),
        pretty_print: false,
        install_command: "paru -S {packages}".to_string(),
        symlinks: Vec::new(),
        dotfiles_dir: "dotfiles".to_string(),
        scripts_dir: "scripts".to_string(),
    }
}

fn names(v: &[Package]) -> Vec<String> {
    v.iter().map(|p| p.name.clone()).collect()
}

#[test]
fn install_appends_placeholder_entry() {
    let mut store = Packages { packages: vec![pkg("git", "vcs", &["dev"])] };
    assert!(install("kitty", &mut store).is_ok());
    assert_eq!(store.packages.len(), 2);
    assert_eq!(store.packages[0].name, "git");
    let k = &store.packages[1];
    assert_eq!(k.name, "kitty");
    assert_eq!(k.reason, "ADD DETAILS HERE");
    assert_eq!(k.category, "ADD CATEGORY HERE");
    assert_eq!(k.tags, vec!["ADD TAGS HERE".to_string()]);
}

#[test]
fn install_twice_keeps_one_entry() {
    let mut store = Packages { packages: vec![pkg("git", "vcs", &["dev"])] };
    assert!(install("git", &mut store).is_ok());
    assert!(install("git", &mut store).is_ok());
    assert_eq!(store.packages.len(), 1);
    assert_eq!(store.packages[0].reason, "why git");
    assert_eq!(store.packages[0].category, "vcs");
    assert_eq!(store.packages[0].tags, vec!["dev".to_string()]);

    assert!(install("kitty", &mut store).is_ok());
    assert!(install("kitty", &mut store).is_ok());
    assert_eq!(names(&store.packages), vec!["git", "kitty"]);
}

#[test]
fn uninstall_missing_is_not_found() {
    let mut store = Packages { packages: vec![pkg("git", "vcs", &["dev"])] };
    let r = uninstall("missing", &mut store);
    assert_eq!(r, Err("Package missing not found in configuration.".to_string()));
    assert_eq!(names(&store.packages), vec!["git"]);
    assert_eq!(store.packages[0].tags, vec!["dev".to_string()]);
}

#[test]
fn uninstall_removes_entry() {
    let mut store = Packages {
        packages: vec![pkg("git", "vcs", &[]), pkg("kitty", "term", &[]), pkg("vim", "edit", &[])],
    };
    assert!(uninstall("kitty", &mut store).is_ok());
    assert_eq!(names(&store.packages), vec!["git", "vim"]);
    assert!(!has(&store, "kitty"));
}

#[test]
fn edit_tags_are_trimmed_then_sorted() {
    let mut store = Packages { packages: vec![pkg("git", "vcs", &[]), pkg("kitty", "x", &["old"])] };
    let r = edit("kitty", None, None, Some("term, fast".to_string()), &mut store);
    assert!(r.is_ok());
    assert_eq!(store.packages[1].tags, vec!["term".to_string(), "fast".to_string()]);
    normalize_packages(&mut store, &config("none"));
    assert_eq!(store.packages[1].tags, vec!["fast".to_string(), "term".to_string()]);
    assert_eq!(store.packages[1].category, "x");
    assert_eq!(store.packages[1].reason, "why kitty");
}

#[test]
fn edit_replaces_given_fields_only() {
    let mut store = Packages { packages: vec![pkg("git", "vcs", &["a", "b"])] };
    let r = edit("git", Some("versioning".to_string()), Some("tools".to_string()), None, &mut store);
    assert!(r.is_ok());
    assert_eq!(store.packages[0].reason, "versioning");
    assert_eq!(store.packages[0].category, "tools");
    assert_eq!(store.packages[0].tags, vec!["a".to_string(), "b".to_string()]);
}

#[test]
fn edit_missing_is_not_found() {
    let mut store = Packages { packages: vec![pkg("git", "vcs", &["a"])] };
    let r = edit("nope", Some("r".to_string()), None, None, &mut store);
    assert_eq!(r, Err("Package nope not found in configuration.".to_string()));
    assert_eq!(store.packages[0].reason, "why git");
}

#[test]
fn not_found_message_text() {
    assert_eq!(not_found_message("zsh"), "Package zsh not found in configuration.");
}

#[test]
fn lookup_by_name() {
    let store = Packages { packages: vec![pkg("git", "vcs", &[]), pkg("kitty", "term", &[])] };
    assert_eq!(find_package(&store, "kitty"), Some(1));
    assert_eq!(find_package(&store, "Kitty"), None);
    assert!(has(&store, "git"));
    assert!(!has(&store, "GIT"));
    assert_eq!(info(&store, "kitty").map(|p| p.category.clone()), Some("term".to_string()));
    assert!(info(&store, "zsh").is_none());
}

#[test]
fn filter_by_tag_keeps_store_order() {
    let store = Packages {
        packages: vec![
            pkg("b", "x", &["cli", "dev"]),
            pkg("a", "y", &["gui"]),
            pkg("c", "x", &["dev"]),
            pkg("d", "z", &["develop"]),
        ],
    };
    assert_eq!(names(&filter_by_tag(&store, "dev")), vec!["b", "c"]);
    assert!(filter_by_tag(&store, "none").is_empty());
    assert_eq!(names(&filter_by_category(&store, "x")), vec!["b", "c"]);
}

#[test]
fn list_prefers_tag_over_category() {
    let store = Packages {
        packages: vec![pkg("b", "x", &["cli"]), pkg("a", "y", &["gui"]), pkg("c", "x", &["gui"])],
    };
    assert_eq!(names(&list(&store, Some("gui".to_string()), Some("x".to_string()))), vec!["a", "c"]);
    assert_eq!(names(&list(&store, None, Some("x".to_string()))), vec!["b", "c"]);
    assert_eq!(names(&list(&store, None, None)), vec!["b", "a", "c"]);
}

#[test]
fn normalize_by_category_then_name() {
    let mut store = Packages {
        packages: vec![
            pkg("zsh", "shell", &[]),
            pkg("vim", "editor", &[]),
            pkg("bash", "shell", &[]),
            pkg("emacs", "editor", &[]),
        ],
    };
    normalize_packages(&mut store, &config("category"));
    assert_eq!(names(&store.packages), vec!["emacs", "vim", "bash", "zsh"]);
    for w in store.packages.windows(2) {
        assert!(w[0].category <= w[1].category);
        if w[0].category == w[1].category {
            assert!(w[0].name <= w[1].name);
        }
    }
}

#[test]
fn normalize_by_name() {
    let mut store = Packages {
        packages: vec![pkg("zsh", "a", &[]), pkg("Vim", "b", &[]), pkg("bash", "c", &[])],
    };
    normalize_packages(&mut store, &config("package_name"));
    assert_eq!(names(&store.packages), vec!["Vim", "bash", "zsh"]);
}

#[test]
fn normalize_other_order_keeps_positions() {
    let mut store = Packages {
        packages: vec![pkg("zsh", "a", &["b", "a"]), pkg("bash", "c", &[])],
    };
    normalize_packages(&mut store, &config("date"));
    assert_eq!(names(&store.packages), vec!["zsh", "bash"]);
    assert_eq!(store.packages[0].tags, vec!["a".to_string(), "b".to_string()]);
}

#[test]
fn normalize_sorts_tags_keeping_duplicates() {
    let mut store = Packages { packages: vec![pkg("git", "vcs", &["x", "b", "x", "a", "B"])] };
    normalize_packages(&mut store, &config("package_name"));
    let expected: Vec<String> = ["B", "a", "b", "x", "x"].iter().map(|s| s.to_string()).collect();
    assert_eq!(store.packages[0].tags, expected);
}

#[test]
fn sort_order_from_setting() {
    assert_eq!(config("package_name").sort_order(), dots::SortOrder::PackageName);
    assert_eq!(config("category").sort_order(), dots::SortOrder::Category);
    assert_eq!(config("Category").sort_order(), dots::SortOrder::Unchanged);
    assert_eq!(config("").sort_order(), dots::SortOrder::Unchanged);
}

#[test]
fn clone_keeps_every_field() {
    let p = pkg("git", "vcs", &["a", "b"]);
    let q = p.clone();
    assert_eq!(q.name, "git");
    assert_eq!(q.reason, "why git");
    assert_eq!(q.category, "vcs");
    assert_eq!(q.tags, vec!["a".to_string(), "b".to_string()]);
}
