//! The command line that installs every package of the store, built from
//! the configured template.
use vstd::prelude::*;
use crate::package::{PackageView, Packages};
use crate::text::{is_white_space, is_white_space_spec};

verus! {

/// The strings of `s` joined by single spaces.
pub open spec fn join_spaces(s: Seq<Seq<char>>) -> Seq<char>
    decreases s.len(),
{
    if s.len() == 0 {
        Seq::empty()
    } else if s.len() == 1 {
        s[0]
    } else {
        join_spaces(s.drop_last()) + seq![' '] + s.last()
    }
}

/// The names of the packages of `s`, in store order.
pub open spec fn names_of(s: Seq<PackageView>) -> Seq<Seq<char>> {
    s.map_values(|p: PackageView| p.name)
}

/// `s` with each occurrence of `pat`, found from left to right without
/// overlap, replaced by `with`, as `str::replace` does.
pub open spec fn replace_spec(s: Seq<char>, pat: Seq<char>, with: Seq<char>) -> Seq<char>
    recommends
        pat.len() > 0,
    decreases s.len(),
{
    if s.len() < pat.len() || pat.len() == 0 {
        s
    } else if s.take(pat.len() as int) == pat {
        with + replace_spec(s.skip(pat.len() as int), pat, with)
    } else {
        seq![s[0]] + replace_spec(s.drop_first(), pat, with)
    }
}

/// The pieces of `s` between white-space characters, empty ones included.
pub open spec fn split_ws_spec(s: Seq<char>) -> Seq<Seq<char>>
    decreases s.len(),
{
    if s.len() == 0 {
        seq![Seq::empty()]
    } else {
        let prev = split_ws_spec(s.drop_last());
        if is_white_space_spec(s.last()) {
            prev.push(Seq::empty())
        } else {
            prev.update(prev.len() - 1, prev.last().push(s.last()))
        }
    }
}

/// The words of `s`, as `str::split_whitespace` yields them.
pub open spec fn words_spec(s: Seq<char>) -> Seq<Seq<char>> {
    split_ws_spec(s).filter(|w: Seq<char>| w.len() > 0)
}

/// The place in the install command template where the package names go.
pub open spec fn packages_marker() -> Seq<char> {
    "{packages}"@
}

/// The words of the install command for the store `s` under `template`.
pub open spec fn install_words(template: Seq<char>, s: Seq<PackageView>) -> Seq<Seq<char>> {
    words_spec(replace_spec(template, packages_marker(), join_spaces(names_of(s))))
}

/// The names of the packages, joined by single spaces.
pub fn join_names(store: &Packages) -> (r: String)
    ensures
        r@ == join_spaces(names_of(store@)),
{
    let mut out = String::new();
    let mut i: usize = 0;
    while i < store.packages.len()
        invariant
            i <= store@.len(),
            store@.len() == store.packages@.len(),
            out@ == join_spaces(names_of(store@).take(i as int)),
        decreases store@.len() - i,
    {
        let ghost names = names_of(store@);
        assert(names.take(i as int + 1).drop_last() =~= names.take(i as int));
        assert(names.take(i as int + 1).last() == store.packages@[i as int].name@);
        if i > 0 {
            out.append(" ");
        } else {
            assert(out@ =~= Seq::<char>::empty());
        }
        out.append(store.packages[i].name.as_str());
        proof {
            if i > 0 {
                assert(" "@ =~= seq![' ']) by {
                    reveal_strlit(" ");
                }
            }
            assert(out@ =~= join_spaces(names.take(i as int + 1)));
        }
        i = i + 1;
    }
    assert(names_of(store@).take(i as int) =~= names_of(store@));
    out
}

/// Whether `pat` occurs in `s` at character position `at`.
fn matches_at(s: &str, n: usize, pat: &str, m: usize, at: usize) -> (r: bool)
    requires
        n == s@.len(),
        m == pat@.len(),
        at <= n,
    ensures
        r == (at + m <= n && s@.subrange(at as int, at + m) == pat@),
{
    if m > n - at {
        return false;
    }
    let mut k: usize = 0;
    while k < m
        invariant
            at + m <= n,
            n == s@.len(),
            m == pat@.len(),
            k <= m,
            forall|q: int| 0 <= q < k ==> s@[at + q] == pat@[q],
        decreases m - k,
    {
        if s.get_char(at + k) != pat.get_char(k) {
            assert(s@.subrange(at as int, at + m)[k as int] != pat@[k as int]);
            return false;
        }
        k = k + 1;
    }
    assert(s@.subrange(at as int, at + m) =~= pat@);
    true
}

/// `s` with each occurrence of `pat`, from left to right and without
/// overlap, replaced by `with`.
pub fn replace_all(s: &str, pat: &str, with: &str) -> (r: String)
    requires
        pat@.len() > 0,
    ensures
        r@ == replace_spec(s@, pat@, with@),
{
    let n = s.unicode_len();
    let m = pat.unicode_len();
    let mut out = String::new();
    let mut i: usize = 0;
    assert(s@.skip(0) =~= s@);
    while i < n
        invariant
            n == s@.len(),
            m == pat@.len(),
            m > 0,
            i <= n,
            replace_spec(s@, pat@, with@) == out@ + replace_spec(s@.skip(i as int), pat@, with@),
        decreases n - i,
    {
        let ghost rest = s@.skip(i as int);
        if matches_at(s, n, pat, m, i) {
            assert(rest.take(m as int) =~= s@.subrange(i as int, i + m));
            assert(rest.skip(m as int) =~= s@.skip(i + m));
            out.append(with);
            i = i + m;
        } else {
            proof {
                if rest.len() >= m {
                    assert(rest.take(m as int) =~= s@.subrange(i as int, i + m));
                }
            }
            assert(rest.drop_first() =~= s@.skip(i + 1));
            out.append(s.substring_char(i, i + 1));
            assert(s@.subrange(i as int, i + 1) =~= seq![rest[0]]);
            i = i + 1;
        }
    }
    assert(s@.skip(i as int) =~= Seq::<char>::empty());
    assert(out@ + Seq::<char>::empty() =~= out@);
    out
}

/// The words of `s`, split at white space.
pub fn split_words(s: &str) -> (r: Vec<String>)
    ensures
        r@.map_values(|w: String| w@) == words_spec(s@),
{
    let n = s.unicode_len();
    let mut out: Vec<String> = Vec::new();
    let ghost mut pieces: Seq<Seq<char>> = Seq::empty();
    let mut start: usize = 0;
    let mut i: usize = 0;
    assert(s@.take(0) =~= Seq::<char>::empty());
    assert(pieces.push(s@.subrange(0, 0)) =~= seq![Seq::<char>::empty()]);
    while i < n
        invariant
            n == s@.len(),
            start <= i <= n,
            split_ws_spec(s@.take(i as int)) == pieces.push(s@.subrange(start as int, i as int)),
            out@.map_values(|w: String| w@) == pieces.filter(|w: Seq<char>| w.len() > 0),
        decreases n - i,
    {
        let ghost prefix = s@.take(i as int + 1);
        assert(prefix.drop_last() =~= s@.take(i as int));
        if is_white_space(s.get_char(i)) {
            let ghost piece = s@.subrange(start as int, i as int);
            let ghost before = out@;
            if start < i {
                let w = String::from_str(s.substring_char(start, i));
                out.push(w);
                assert(out@.map_values(|w: String| w@) =~= before.map_values(|w: String| w@).push(piece));
            }
            proof {
                reveal(Seq::filter);
                assert(pieces.push(piece).drop_last() =~= pieces);
                pieces = pieces.push(piece);
            }
            assert(s@.subrange(i as int + 1, i as int + 1) =~= Seq::<char>::empty());
            start = i + 1;
        } else {
            assert(s@.subrange(start as int, i as int).push(s@[i as int]) =~= s@.subrange(start as int, i as int + 1));
        }
        i = i + 1;
    }
    let ghost piece = s@.subrange(start as int, n as int);
    let ghost before = out@;
    if start < n {
        let w = String::from_str(s.substring_char(start, n));
        out.push(w);
        assert(out@.map_values(|w: String| w@) =~= before.map_values(|w: String| w@).push(piece));
    }
    proof {
        reveal(Seq::filter);
        assert(pieces.push(piece).drop_last() =~= pieces);
    }
    assert(s@.take(n as int) =~= s@);
    out
}

/// The program and arguments that install every package of the store: the
/// names, joined by spaces, stand in the template in place of `{packages}`,
/// and the result is split at white space. `None` when there is no word.
pub fn install_command_line(template: &str, store: &Packages) -> (r: Option<(String, Vec<String>)>)
    ensures
        r.is_none() == (install_words(template@, store@).len() == 0),
        r.is_some() ==> {
            let (program, args) = r.unwrap();
            &&& program@ == install_words(template@, store@)[0]
            &&& args@.map_values(|w: String| w@) == install_words(template@, store@).drop_first()
        },
{
    let names = join_names(store);
    proof {
        reveal_strlit("{packages}");
    }
    let line = replace_all(template, "{packages}", names.as_str());
    let mut words = split_words(line.as_str());
    if words.len() == 0 {
        return None;
    }
    let ghost all = words@;
    let program = words.remove(0);
    assert(words@.map_values(|w: String| w@) =~= all.map_values(|w: String| w@).drop_first());
    Some((program, words))
}

} // verus!
