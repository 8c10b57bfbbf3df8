//! The records of the package store and of the application configuration.
use vstd::prelude::*;

verus! {

/// One managed package entry.
pub struct Package {
    pub name: String,
    pub reason: String,
    pub category: String,
    pub tags: Vec<String>,
}

/// The value of a `Package`, as character sequences.
pub struct PackageView {
    pub name: Seq<char>,
    pub reason: Seq<char>,
    pub category: Seq<char>,
    pub tags: Seq<Seq<char>>,
}

/// The characters of each string of `v`.
pub open spec fn strs_view(v: Seq<String>) -> Seq<Seq<char>> {
    v.map_values(|t: String| t@)
}

impl View for Package {
    type V = PackageView;

    open spec fn view(&self) -> PackageView {
        PackageView {
            name: self.name@,
            reason: self.reason@,
            category: self.category@,
            tags: strs_view(self.tags@),
        }
    }
}

/// Copies a list of strings, element by element.
pub fn copy_strings(v: &Vec<String>) -> (r: Vec<String>)
    ensures
        strs_view(r@) == strs_view(v@),
{
    let mut out: Vec<String> = Vec::new();
    let mut i: usize = 0;
    while i < v.len()
        invariant
            i <= v@.len(),
            out@.len() == i,
            forall|k: int| 0 <= k < i ==> (#[trigger] out@[k])@ == v@[k]@,
        decreases v@.len() - i,
    {
        out.push(v[i].clone());
        i = i + 1;
    }
    assert(strs_view(out@) =~= strs_view(v@));
    out
}

impl Clone for Package {
    fn clone(&self) -> (r: Package)
        ensures
            r@ == self@,
    {
        Package {
            name: self.name.clone(),
            reason: self.reason.clone(),
            category: self.category.clone(),
            tags: copy_strings(&self.tags),
        }
    }
}

/// The package store: an ordered list of packages.
pub struct Packages {
    pub packages: Vec<Package>,
}

/// The value of each package of `v`.
pub open spec fn packages_view(v: Seq<Package>) -> Seq<PackageView> {
    v.map_values(|p: Package| p@)
}

impl View for Packages {
    type V = Seq<PackageView>;

    open spec fn view(&self) -> Seq<PackageView> {
        packages_view(self.packages@)
    }
}

/// No two packages of `s` share a name.
pub open spec fn names_unique(s: Seq<PackageView>) -> bool {
    forall|i: int, j: int|
        0 <= i < s.len() && 0 <= j < s.len() && i != j ==> #[trigger] s[i].name != #[trigger] s[j].name
}

impl Packages {
    /// The store is well formed when its names are unique.
    pub open spec fn wf(&self) -> bool {
        names_unique(self@)
    }
}

/// One link that the symlink command creates: `source` under the dotfiles
/// directory, `destination` under the home directory.
pub struct Symlink {
    pub source: String,
    pub destination: String,
    pub kind: String,
}

/// The application configuration, read once and never written.
pub struct AppConfig {
    pub sort_by: String,
    pub pretty_print: bool,
    pub install_command: String,
    pub symlinks: Vec<Symlink>,
    pub dotfiles_dir: String,
    pub scripts_dir: String,
}

/// The order in which the store is written.
#[derive(PartialEq, Eq, Structural, Clone, Copy, Debug)]
pub enum SortOrder {
    /// By name, ascending.
    PackageName,
    /// By category, ascending, and by name among equal categories.
    Category,
    /// In the order the packages already have.
    Unchanged,
}

/// The sort order that a `sort_by` setting names.
pub open spec fn sort_order_spec(s: Seq<char>) -> SortOrder {
    if s == "package_name"@ {
        SortOrder::PackageName
    } else if s == "category"@ {
        SortOrder::Category
    } else {
        SortOrder::Unchanged
    }
}

impl AppConfig {
    /// The sort order that this configuration's `sort_by` names.
    pub fn sort_order(&self) -> (r: SortOrder)
        ensures
            r == sort_order_spec(self.sort_by@),
    {
        let by_name = String::from_str("package_name");
        let by_category = String::from_str("category");
        if self.sort_by == by_name {
            SortOrder::PackageName
        } else if self.sort_by == by_category {
            SortOrder::Category
        } else {
            SortOrder::Unchanged
        }
    }
}

} // verus!
