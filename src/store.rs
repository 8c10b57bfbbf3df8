//! Operations on the package store: lookup, install, uninstall, edit and
//! the filtered listings.
use vstd::prelude::*;
use crate::package::{Package, PackageView, Packages, packages_view, names_unique, strs_view};
use crate::text::{parse_tags, tags_of};

verus! {

/// Some package of `s` is named `name`.
pub open spec fn has_name(s: Seq<PackageView>, name: Seq<char>) -> bool {
    exists|i: int| 0 <= i < s.len() && #[trigger] s[i].name == name
}

/// `i` is the position of the first package of `s` named `name`.
pub open spec fn is_first_with(s: Seq<PackageView>, name: Seq<char>, i: int) -> bool {
    &&& 0 <= i < s.len()
    &&& s[i].name == name
    &&& forall|j: int| 0 <= j < i ==> #[trigger] s[j].name != name
}

/// The entry that `install` adds for `name`, with its placeholder values.
pub open spec fn new_entry(name: Seq<char>) -> PackageView {
    PackageView {
        name: name,
        reason: "ADD DETAILS HERE"@,
        category: "ADD CATEGORY HERE"@,
        tags: seq!["ADD TAGS HERE"@],
    }
}

/// The store `s` after installing `name`.
pub open spec fn installed(s: Seq<PackageView>, name: Seq<char>) -> Seq<PackageView> {
    if has_name(s, name) {
        s
    } else {
        s.push(new_entry(name))
    }
}

/// The message of the error for a name that the store does not hold.
pub open spec fn not_found_spec(name: Seq<char>) -> Seq<char> {
    "Package "@ + name + " not found in configuration."@
}

/// `p` after an edit: each field given replaces the old one, and the tags
/// are read from a comma-separated list.
pub open spec fn edited(
    p: PackageView,
    reason: Option<Seq<char>>,
    category: Option<Seq<char>>,
    tags: Option<Seq<char>>,
) -> PackageView {
    PackageView {
        name: p.name,
        reason: match reason {
            Some(r) => r,
            None => p.reason,
        },
        category: match category {
            Some(c) => c,
            None => p.category,
        },
        tags: match tags {
            Some(t) => tags_of(t),
            None => p.tags,
        },
    }
}

/// The packages of `s` that carry the tag `tag`, in store order.
pub open spec fn with_tag(s: Seq<PackageView>, tag: Seq<char>) -> Seq<PackageView> {
    s.filter(|p: PackageView| p.tags.contains(tag))
}

/// The packages of `s` in the category `category`, in store order.
pub open spec fn in_category(s: Seq<PackageView>, category: Seq<char>) -> Seq<PackageView> {
    s.filter(|p: PackageView| p.category == category)
}

/// The error message for a name that the store does not hold.
pub fn not_found_message(name: &str) -> (r: String)
    ensures
        r@ == not_found_spec(name@),
{
    let head = String::from_str("Package ");
    head.concat(name).concat(" not found in configuration.")
}

/// The position of the first package named `name`, if any.
pub fn find_package(store: &Packages, name: &str) -> (r: Option<usize>)
    ensures
        match r {
            Some(i) => is_first_with(store@, name@, i as int),
            None => !has_name(store@, name@),
        },
{
    let target = String::from_str(name);
    let mut i: usize = 0;
    while i < store.packages.len()
        invariant
            i <= store@.len(),
            store@.len() == store.packages@.len(),
            target@ == name@,
            forall|j: int| 0 <= j < i ==> #[trigger] store@[j].name != name@,
        decreases store@.len() - i,
    {
        if store.packages[i].name == target {
            return Some(i);
        }
        i = i + 1;
    }
    None
}

/// Whether the store holds a package named `name`.
pub fn has(store: &Packages, name: &str) -> (r: bool)
    ensures
        r == has_name(store@, name@),
{
    find_package(store, name).is_some()
}

/// The package named `name`, if the store holds one.
pub fn info<'a>(store: &'a Packages, name: &str) -> (r: Option<&'a Package>)
    ensures
        r.is_some() == has_name(store@, name@),
        r.is_some() ==> exists|i: int| is_first_with(store@, name@, i) && r.unwrap()@ == store@[i],
{
    match find_package(store, name) {
        Some(i) => Some(&store.packages[i]),
        None => None,
    }
}

/// Adds a package named `package` with placeholder details, unless the store
/// already holds one of that name, in which case the store is left as it is.
pub fn install(package: &str, config: &mut Packages) -> (r: Result<(), String>)
    ensures
        r.is_ok(),
        final(config)@ == installed(old(config)@, package@),
        names_unique(old(config)@) ==> names_unique(final(config)@),
{
    if has(config, package) {
        return Ok(());
    }
    let mut tags: Vec<String> = Vec::new();
    tags.push(String::from_str("ADD TAGS HERE"));
    let entry = Package {
        name: String::from_str(package),
        reason: String::from_str("ADD DETAILS HERE"),
        category: String::from_str("ADD CATEGORY HERE"),
        tags: tags,
    };
    let ghost before = config.packages@;
    config.packages.push(entry);
    proof {
        assert(strs_view(tags@) =~= seq!["ADD TAGS HERE"@]);
        assert(packages_view(before.push(entry)) =~= packages_view(before).push(new_entry(package@)));
    }
    Ok(())
}

/// Removes the first package named `package`; fails, leaving the store as
/// it is, when there is none.
pub fn uninstall(package: &str, config: &mut Packages) -> (r: Result<(), String>)
    ensures
        r.is_ok() == has_name(old(config)@, package@),
        r.is_ok() ==> exists|i: int|
            is_first_with(old(config)@, package@, i) && final(config)@ == old(config)@.remove(i),
        r.is_err() ==> final(config)@ == old(config)@ && r->Err_0@ == not_found_spec(package@),
        names_unique(old(config)@) ==> names_unique(final(config)@),
{
    match find_package(config, package) {
        Some(i) => {
            let ghost before = config.packages@;
            let _removed = config.packages.remove(i);
            assert(packages_view(before.remove(i as int)) =~= packages_view(before).remove(i as int));
            Ok(())
        },
        None => Err(not_found_message(package)),
    }
}

/// Changes the details of the first package named `package`: each of
/// `reason`, `category` and `tags` that is given replaces the old value, the
/// tags read from a comma-separated list with each entry trimmed. Fails,
/// leaving the store as it is, when there is no such package.
pub fn edit(
    package: &str,
    reason: Option<String>,
    category: Option<String>,
    tags: Option<String>,
    config: &mut Packages,
) -> (r: Result<(), String>)
    ensures
        r.is_ok() == has_name(old(config)@, package@),
        r.is_ok() ==> exists|i: int|
            is_first_with(old(config)@, package@, i) && final(config)@ == old(config)@.update(
                i,
                edited(
                    old(config)@[i],
                    match reason { Some(x) => Some(x@), None => None },
                    match category { Some(x) => Some(x@), None => None },
                    match tags { Some(x) => Some(x@), None => None },
                ),
            ),
        r.is_err() ==> final(config)@ == old(config)@ && r->Err_0@ == not_found_spec(package@),
        names_unique(old(config)@) ==> names_unique(final(config)@),
{
    match find_package(config, package) {
        Some(i) => {
            let ghost before = config.packages@;
            let mut p = config.packages.remove(i);
            match reason {
                Some(x) => { p.reason = x; },
                None => {},
            }
            match tags {
                Some(x) => { p.tags = parse_tags(x.as_str()); },
                None => {},
            }
            match category {
                Some(x) => { p.category = x; },
                None => {},
            }
            config.packages.insert(i, p);
            assert(before.remove(i as int).insert(i as int, p) =~= before.update(i as int, p));
            assert(packages_view(before.update(i as int, p)) =~= packages_view(before).update(i as int, p@));
            Ok(())
        },
        None => Err(not_found_message(package)),
    }
}

/// Whether `tags` holds `tag`.
pub fn contains_tag(tags: &Vec<String>, tag: &str) -> (r: bool)
    ensures
        r == strs_view(tags@).contains(tag@),
{
    let target = String::from_str(tag);
    let mut i: usize = 0;
    while i < tags.len()
        invariant
            i <= tags@.len(),
            target@ == tag@,
            forall|j: int| 0 <= j < i ==> #[trigger] tags@[j]@ != tag@,
        decreases tags@.len() - i,
    {
        if tags[i] == target {
            assert(strs_view(tags@)[i as int] == tag@);
            return true;
        }
        i = i + 1;
    }
    proof {
        if strs_view(tags@).contains(tag@) {
            let j = choose|j: int| 0 <= j < strs_view(tags@).len() && strs_view(tags@)[j] == tag@;
            assert(tags@[j]@ == tag@);
        }
    }
    false
}

/// Copies of the packages that carry the tag `tag`, in store order.
pub fn filter_by_tag(store: &Packages, tag: &str) -> (r: Vec<Package>)
    ensures
        packages_view(r@) == with_tag(store@, tag@),
{
    let mut out: Vec<Package> = Vec::new();
    let mut i: usize = 0;
    while i < store.packages.len()
        invariant
            i <= store@.len(),
            store@.len() == store.packages@.len(),
            packages_view(out@) == with_tag(store@.take(i as int), tag@),
        decreases store@.len() - i,
    {
        let ghost before = out@;
        assert(store@.take(i as int + 1).drop_last() =~= store@.take(i as int));
        assert(store@.take(i as int + 1).last() == store.packages@[i as int]@);
        proof {
            reveal(Seq::filter);
        }
        assert(with_tag(store@.take(i as int + 1), tag@) == if store@[i as int].tags.contains(tag@) {
            with_tag(store@.take(i as int), tag@).push(store@[i as int])
        } else {
            with_tag(store@.take(i as int), tag@)
        });
        if contains_tag(&store.packages[i].tags, tag) {
            let p = store.packages[i].clone();
            out.push(p);
            assert(packages_view(before.push(p)) =~= packages_view(before).push(p@));
        }
        i = i + 1;
    }
    assert(store@.take(i as int) =~= store@);
    out
}

/// Copies of the packages in the category `category`, in store order.
pub fn filter_by_category(store: &Packages, category: &str) -> (r: Vec<Package>)
    ensures
        packages_view(r@) == in_category(store@, category@),
{
    let target = String::from_str(category);
    let mut out: Vec<Package> = Vec::new();
    let mut i: usize = 0;
    while i < store.packages.len()
        invariant
            i <= store@.len(),
            store@.len() == store.packages@.len(),
            target@ == category@,
            packages_view(out@) == in_category(store@.take(i as int), category@),
        decreases store@.len() - i,
    {
        let ghost before = out@;
        assert(store@.take(i as int + 1).drop_last() =~= store@.take(i as int));
        assert(store@.take(i as int + 1).last() == store.packages@[i as int]@);
        proof {
            reveal(Seq::filter);
        }
        assert(in_category(store@.take(i as int + 1), category@) == if store@[i as int].category == category@ {
            in_category(store@.take(i as int), category@).push(store@[i as int])
        } else {
            in_category(store@.take(i as int), category@)
        });
        if store.packages[i].category == target {
            let p = store.packages[i].clone();
            out.push(p);
            assert(packages_view(before.push(p)) =~= packages_view(before).push(p@));
        }
        i = i + 1;
    }
    assert(store@.take(i as int) =~= store@);
    out
}

/// The packages that a listing shows: those with the tag `tag` when one is
/// given, else those in the category `category` when one is given, else all.
pub fn list(store: &Packages, tag: Option<String>, category: Option<String>) -> (r: Vec<Package>)
    ensures
        packages_view(r@) == match tag {
            Some(t) => with_tag(store@, t@),
            None => match category {
                Some(c) => in_category(store@, c@),
                None => store@,
            },
        },
{
    match tag {
        Some(t) => filter_by_tag(store, t.as_str()),
        None => match category {
            Some(c) => filter_by_category(store, c.as_str()),
            None => {
                let mut out: Vec<Package> = Vec::new();
                let mut i: usize = 0;
                while i < store.packages.len()
                    invariant
                        i <= store@.len(),
                        store@.len() == store.packages@.len(),
                        packages_view(out@) == store@.take(i as int),
                    decreases store@.len() - i,
                {
                    let p = store.packages[i].clone();
                    let ghost before = out@;
                    out.push(p);
                    assert(packages_view(before.push(p)) =~= packages_view(before).push(p@));
                    assert(store@.take(i as int + 1) =~= store@.take(i as int).push(p@));
                    i = i + 1;
                }
                assert(store@.take(i as int) =~= store@);
                out
            },
        },
    }
}

} // verus!
