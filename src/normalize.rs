//! Putting the store in the order in which it is written: each package's
//! tags sorted, and the packages sorted as the configuration asks.
use vstd::prelude::*;
use crate::package::{AppConfig, Package, PackageView, Packages, SortOrder, packages_view, strs_view};
use crate::text::{lex_le, lemma_lex_antisym, lemma_lex_total, lemma_lex_trans, sort_strings, sorted_strs, str_le};

verus! {

broadcast use vstd::seq_lib::group_to_multiset_ensures;

/// `a` may stand before `b` in the order `order`.
pub open spec fn pkg_le(order: SortOrder, a: PackageView, b: PackageView) -> bool {
    match order {
        SortOrder::PackageName => lex_le(a.name, b.name),
        SortOrder::Category => if a.category == b.category {
            lex_le(a.name, b.name)
        } else {
            lex_le(a.category, b.category)
        },
        SortOrder::Unchanged => true,
    }
}

/// `s` is in ascending order of `order`.
pub open spec fn sorted_by(order: SortOrder, s: Seq<PackageView>) -> bool {
    forall|i: int, j: int| 0 <= i < j < s.len() ==> pkg_le(order, #[trigger] s[i], #[trigger] s[j])
}

/// `after` is `before` with its tags sorted and nothing else changed.
pub open spec fn tags_sorted_from(before: PackageView, after: PackageView) -> bool {
    &&& after.name == before.name
    &&& after.reason == before.reason
    &&& after.category == before.category
    &&& sorted_strs(after.tags)
    &&& after.tags.to_multiset() == before.tags.to_multiset()
}

/// `after` is the store `before` as it is written under `order`: the same
/// packages with sorted tags, rearranged into `order` (left in place when
/// `order` asks for no sorting).
pub open spec fn normalized(before: Seq<PackageView>, after: Seq<PackageView>, order: SortOrder) -> bool {
    exists|mid: Seq<PackageView>|
        {
            &&& mid.len() == before.len()
            &&& forall|i: int| 0 <= i < before.len() ==> tags_sorted_from(before[i], #[trigger] mid[i])
            &&& after.to_multiset() == mid.to_multiset()
            &&& sorted_by(order, after)
            &&& order == SortOrder::Unchanged ==> after == mid
        }
}

/// Any two packages are ordered one way or the other under `order`.
proof fn lemma_pkg_total(order: SortOrder, a: PackageView, b: PackageView)
    ensures
        pkg_le(order, a, b) || pkg_le(order, b, a),
{
    lemma_lex_total(a.name, b.name);
    lemma_lex_total(a.category, b.category);
}

/// `pkg_le` is transitive.
proof fn lemma_pkg_trans(order: SortOrder, a: PackageView, b: PackageView, c: PackageView)
    requires
        pkg_le(order, a, b),
        pkg_le(order, b, c),
    ensures
        pkg_le(order, a, c),
{
    match order {
        SortOrder::PackageName => {
            lemma_lex_trans(a.name, b.name, c.name);
        },
        SortOrder::Category => {
            if a.category == b.category && b.category == c.category {
                lemma_lex_trans(a.name, b.name, c.name);
            } else if a.category != b.category && b.category != c.category {
                lemma_lex_trans(a.category, b.category, c.category);
                if a.category == c.category {
                    lemma_lex_antisym(a.category, b.category);
                }
            }
        },
        SortOrder::Unchanged => {},
    }
}

/// Whether `a` may stand before `b` in the order `order`.
pub fn package_le(order: SortOrder, a: &Package, b: &Package) -> (r: bool)
    ensures
        r == pkg_le(order, a@, b@),
{
    match order {
        SortOrder::PackageName => str_le(a.name.as_str(), b.name.as_str()),
        SortOrder::Category => if a.category == b.category {
            str_le(a.name.as_str(), b.name.as_str())
        } else {
            str_le(a.category.as_str(), b.category.as_str())
        },
        SortOrder::Unchanged => true,
    }
}

/// Sorts the tags of every package.
pub fn sort_all_tags(packages: &mut Packages)
    ensures
        final(packages)@.len() == old(packages)@.len(),
        forall|i: int|
            0 <= i < old(packages)@.len() ==> tags_sorted_from(old(packages)@[i], #[trigger] final(packages)@[i]),
{
    let ghost before = packages@;
    let mut i: usize = 0;
    while i < packages.packages.len()
        invariant
            i <= packages@.len(),
            packages@.len() == before.len(),
            packages.packages@.len() == before.len(),
            forall|k: int| 0 <= k < i ==> tags_sorted_from(before[k], #[trigger] packages@[k]),
            forall|k: int| i <= k < before.len() ==> #[trigger] packages@[k] == before[k],
        decreases before.len() - i,
    {
        let ghost cur = packages.packages@;
        let mut p = packages.packages.remove(i);
        let ghost old_p = p@;
        assert(packages_view(cur)[i as int] == old_p);
        assert(old_p == before[i as int]);
        sort_strings(&mut p.tags);
        assert(tags_sorted_from(before[i as int], p@));
        packages.packages.insert(i, p);
        proof {
            assert(packages@[i as int] == p@);
            assert(cur.remove(i as int).insert(i as int, p) =~= cur.update(i as int, p));
            assert forall|k: int| 0 <= k < before.len() && k != i implies #[trigger] packages@[k] == packages_view(cur)[k] by {}
        }
        i = i + 1;
    }
}

/// Sorts the packages into `order`; `SortOrder::Unchanged` leaves them as
/// they are.
pub fn sort_packages(packages: &mut Packages, order: SortOrder)
    ensures
        sorted_by(order, final(packages)@),
        final(packages)@.to_multiset() == old(packages)@.to_multiset(),
        order == SortOrder::Unchanged ==> final(packages)@ == old(packages)@,
{
    if order == SortOrder::Unchanged {
        return;
    }
    let ghost orig = packages@;
    let mut out: Vec<Package> = Vec::new();
    let mut rest: Vec<Package> = Vec::new();
    std::mem::swap(&mut packages.packages, &mut rest);
    proof {
        assert(packages_view(out@) =~= Seq::<PackageView>::empty());
        assert(Seq::<PackageView>::empty().to_multiset().add(orig.to_multiset()) =~= orig.to_multiset());
    }
    while rest.len() > 0
        invariant
            sorted_by(order, packages_view(out@)),
            packages_view(out@).to_multiset().add(packages_view(rest@).to_multiset()) == orig.to_multiset(),
        decreases rest@.len(),
    {
        let ghost before_rest = packages_view(rest@);
        let ghost before_out = packages_view(out@);
        let x = rest.remove(0);
        proof {
            assert(packages_view(rest@) =~= before_rest.remove(0));
            vstd::seq_lib::to_multiset_remove(before_rest, 0);
        }
        let mut k: usize = 0;
        while k < out.len() && package_le(order, &out[k], &x)
            invariant
                k <= out@.len(),
                packages_view(out@) == before_out,
                forall|m: int| 0 <= m < k ==> pkg_le(order, #[trigger] before_out[m], x@),
            decreases out@.len() - k,
        {
            k = k + 1;
        }
        proof {
            if k < out@.len() {
                lemma_pkg_total(order, before_out[k as int], x@);
            }
        }
        out.insert(k, x);
        proof {
            let now = packages_view(out@);
            assert(now =~= before_out.insert(k as int, x@));
            vstd::seq_lib::to_multiset_insert(before_out, k as int, x@);
            assert(before_rest[0] == x@);
            assert(now.to_multiset().add(packages_view(rest@).to_multiset()) =~= before_out.to_multiset().add(before_rest.to_multiset()));
            assert forall|i: int, j: int| 0 <= i < j < now.len() implies pkg_le(order, #[trigger] now[i], #[trigger] now[j]) by {
                if j == k {
                } else if i == k {
                    if j - 1 > k {
                        lemma_pkg_trans(order, x@, before_out[k as int], before_out[j - 1]);
                    }
                } else if i < k && j > k {
                    assert(pkg_le(order, before_out[i], x@));
                    lemma_pkg_trans(order, before_out[i], x@, before_out[k as int]);
                    if j - 1 > k {
                        lemma_pkg_trans(order, before_out[i], before_out[k as int], before_out[j - 1]);
                    }
                }
            }
        }
    }
    packages.packages = out;
    proof {
        assert(packages_view(rest@) =~= Seq::<PackageView>::empty());
        let fin = packages@.to_multiset();
        assert(fin.add(Seq::<PackageView>::empty().to_multiset()) =~= fin);
    }
}

/// Puts the store in the order in which it is written: each package's tags
/// sorted, then the packages sorted as `config.sort_by` asks.
pub fn normalize_packages(packages: &mut Packages, config: &AppConfig)
    ensures
        normalized(old(packages)@, final(packages)@, crate::package::sort_order_spec(config.sort_by@)),
{
    let ghost before = packages@;
    sort_all_tags(packages);
    let ghost mid = packages@;
    let order = config.sort_order();
    sort_packages(packages, order);
    assert(mid.len() == before.len());
    assert(forall|i: int| 0 <= i < before.len() ==> tags_sorted_from(before[i], #[trigger] mid[i]));
}

} // verus!
