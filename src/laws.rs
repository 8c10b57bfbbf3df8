//! Properties that hold across the store's operations.
use vstd::prelude::*;
use crate::normalize::{normalized, tags_sorted_from};
use crate::package::{PackageView, SortOrder, names_unique};
use crate::store::{has_name, installed, new_entry};
use crate::text::{lex_le, lemma_lex_refl, sorted_strs};

verus! {

broadcast use vstd::seq_lib::group_to_multiset_ensures;

/// Exactly one package of `s` is named `name`.
pub open spec fn exactly_one(s: Seq<PackageView>, name: Seq<char>) -> bool {
    exists|i: int|
        0 <= i < s.len() && s[i].name == name && forall|j: int|
            0 <= j < s.len() && j != i ==> #[trigger] s[j].name != name
}

/// Some package of `s` has the name of `p` and the tags of `p`, counted
/// with their repetitions.
pub open spec fn same_tags_as_one_of(s: Seq<PackageView>, p: PackageView) -> bool {
    exists|j: int|
        0 <= j < s.len() && #[trigger] s[j].name == p.name && s[j].tags.to_multiset() == p.tags.to_multiset()
}

/// Some package of `s` has the name, reason and category of `p` and its
/// tags, counted with their repetitions.
pub open spec fn kept_in(s: Seq<PackageView>, p: PackageView) -> bool {
    exists|i: int|
        0 <= i < s.len() && #[trigger] s[i].name == p.name && s[i].reason == p.reason
            && s[i].category == p.category && s[i].tags.to_multiset() == p.tags.to_multiset()
}

/// Installing a name a second time changes nothing: the store holds exactly
/// one package of that name, and a package that was there before keeps its
/// details.
pub proof fn law_install_idempotent(s: Seq<PackageView>, name: Seq<char>)
    requires
        names_unique(s),
    ensures
        installed(installed(s, name), name) == installed(s, name),
        exactly_one(installed(s, name), name),
        forall|i: int| 0 <= i < s.len() ==> #[trigger] installed(installed(s, name), name)[i] == s[i],
{
    let once = installed(s, name);
    if has_name(s, name) {
        let i = choose|i: int| 0 <= i < s.len() && #[trigger] s[i].name == name;
        assert(exactly_one(once, name));
    } else {
        let i = s.len() as int;
        assert(once[i] == new_entry(name));
        assert(once[i].name == name);
        assert(has_name(once, name));
        assert(exactly_one(once, name));
    }
}

/// After the store is normalised under the category order, each package's
/// category is at most the next one's, and of two neighbours in the same
/// category the name of the first is at most that of the second.
pub proof fn law_category_order(before: Seq<PackageView>, after: Seq<PackageView>)
    requires
        normalized(before, after, SortOrder::Category),
    ensures
        forall|i: int|
            0 <= i < after.len() - 1 ==> {
                &&& lex_le(#[trigger] after[i].category, after[i + 1].category)
                &&& after[i].category == after[i + 1].category ==> lex_le(after[i].name, after[i + 1].name)
            },
{
    assert forall|i: int| 0 <= i < after.len() - 1 implies {
        &&& lex_le(#[trigger] after[i].category, after[i + 1].category)
        &&& after[i].category == after[i + 1].category ==> lex_le(after[i].name, after[i + 1].name)
    } by {
        let a = after[i];
        let b = after[i + 1];
        assert(crate::normalize::pkg_le(SortOrder::Category, a, b));
        lemma_lex_refl(a.category);
    }
}

/// After the store is normalised, each package's tags are in ascending order
/// and are those the package had before, with the same number of each.
pub proof fn law_tags_sorted(before: Seq<PackageView>, after: Seq<PackageView>, order: SortOrder)
    requires
        normalized(before, after, order),
    ensures
        forall|i: int| 0 <= i < after.len() ==> sorted_strs(#[trigger] after[i].tags),
        forall|i: int| 0 <= i < after.len() ==> same_tags_as_one_of(before, #[trigger] after[i]),
{
    let mid = choose|mid: Seq<PackageView>|
        {
            &&& mid.len() == before.len()
            &&& forall|i: int| 0 <= i < before.len() ==> tags_sorted_from(before[i], #[trigger] mid[i])
            &&& after.to_multiset() == mid.to_multiset()
            &&& crate::normalize::sorted_by(order, after)
            &&& order == SortOrder::Unchanged ==> after == mid
        };
    assert forall|i: int| 0 <= i < after.len() implies same_tags_as_one_of(before, #[trigger] after[i]) by {
        assert(after.contains(after[i]));
        assert(after.to_multiset().count(after[i]) > 0);
        assert(mid.to_multiset().count(after[i]) > 0);
        assert(mid.contains(after[i]));
        let j = choose|j: int| 0 <= j < mid.len() && mid[j] == after[i];
        assert(tags_sorted_from(before[j], mid[j]));
        assert(before[j].name == after[i].name && before[j].tags.to_multiset() == after[i].tags.to_multiset());
    }
    assert forall|i: int| 0 <= i < after.len() implies sorted_strs(#[trigger] after[i].tags) by {
        assert(after.contains(after[i]));
        assert(after.to_multiset().count(after[i]) > 0);
        assert(mid.to_multiset().count(after[i]) > 0);
        assert(mid.contains(after[i]));
        let j = choose|j: int| 0 <= j < mid.len() && mid[j] == after[i];
        assert(tags_sorted_from(before[j], mid[j]));
    }
}

/// Normalising keeps every package: the store keeps its length, and each
/// package before has one after with the same name, reason and category and
/// the same tags, counted with their repetitions.
pub proof fn law_normalize_keeps_packages(before: Seq<PackageView>, after: Seq<PackageView>, order: SortOrder)
    requires
        normalized(before, after, order),
    ensures
        after.len() == before.len(),
        forall|j: int| 0 <= j < before.len() ==> kept_in(after, #[trigger] before[j]),
{
    let mid = choose|mid: Seq<PackageView>|
        {
            &&& mid.len() == before.len()
            &&& forall|i: int| 0 <= i < before.len() ==> tags_sorted_from(before[i], #[trigger] mid[i])
            &&& after.to_multiset() == mid.to_multiset()
            &&& crate::normalize::sorted_by(order, after)
            &&& order == SortOrder::Unchanged ==> after == mid
        };
    assert(after.len() == after.to_multiset().len());
    assert(mid.len() == mid.to_multiset().len());
    assert forall|j: int| 0 <= j < before.len() implies kept_in(after, #[trigger] before[j]) by {
        assert(tags_sorted_from(before[j], mid[j]));
        assert(mid.contains(mid[j]));
        assert(mid.to_multiset().count(mid[j]) > 0);
        assert(after.to_multiset().count(mid[j]) > 0);
        assert(after.contains(mid[j]));
        let i = choose|i: int| 0 <= i < after.len() && after[i] == mid[j];
        assert(before[j].name == after[i].name && before[j].reason == after[i].reason
            && before[j].category == after[i].category
            && before[j].tags.to_multiset() == after[i].tags.to_multiset());
    }
}

} // verus!
