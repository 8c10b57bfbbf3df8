//! Operations on text: ordering, trimming, splitting and sorting.
use vstd::prelude::*;

verus! {

broadcast use vstd::seq_lib::group_to_multiset_ensures;

/// Lexicographic order on character sequences, by code point. This is the
/// order of `String`'s `Ord`, since UTF-8 preserves code-point order.
pub open spec fn lex_le(a: Seq<char>, b: Seq<char>) -> bool
    decreases a.len(),
{
    if a.len() == 0 {
        true
    } else if b.len() == 0 {
        false
    } else if a[0] != b[0] {
        a[0] < b[0]
    } else {
        lex_le(a.drop_first(), b.drop_first())
    }
}

/// Any two sequences are ordered one way or the other.
pub proof fn lemma_lex_total(a: Seq<char>, b: Seq<char>)
    ensures
        lex_le(a, b) || lex_le(b, a),
    decreases a.len(),
{
    if a.len() > 0 && b.len() > 0 && a[0] == b[0] {
        lemma_lex_total(a.drop_first(), b.drop_first());
    }
}

/// Every sequence is at most itself.
pub proof fn lemma_lex_refl(a: Seq<char>)
    ensures
        lex_le(a, a),
    decreases a.len(),
{
    if a.len() > 0 {
        lemma_lex_refl(a.drop_first());
    }
}

/// Sequences ordered both ways are equal.
pub proof fn lemma_lex_antisym(a: Seq<char>, b: Seq<char>)
    requires
        lex_le(a, b),
        lex_le(b, a),
    ensures
        a == b,
    decreases a.len(),
{
    if a.len() > 0 && b.len() > 0 {
        lemma_lex_antisym(a.drop_first(), b.drop_first());
        assert(a =~= seq![a[0]] + a.drop_first());
        assert(b =~= seq![b[0]] + b.drop_first());
    } else {
        assert(a =~= b);
    }
}

/// The order is transitive.
pub proof fn lemma_lex_trans(a: Seq<char>, b: Seq<char>, c: Seq<char>)
    requires
        lex_le(a, b),
        lex_le(b, c),
    ensures
        lex_le(a, c),
    decreases a.len(),
{
    if a.len() > 0 && b.len() > 0 && c.len() > 0 && a[0] == b[0]
        && b[0] == c[0] {
        lemma_lex_trans(a.drop_first(), b.drop_first(), c.drop_first());
    }
}

/// Compares two strings in the order of `lex_le`.
pub fn str_le(a: &str, b: &str) -> (r: bool)
    ensures
        r == lex_le(a@, b@),
{
    let na = a.unicode_len();
    let nb = b.unicode_len();
    let mut i: usize = 0;
    assert(a@.skip(0) =~= a@);
    assert(b@.skip(0) =~= b@);
    while i < na && i < nb
        invariant
            na == a@.len(),
            nb == b@.len(),
            i <= na,
            i <= nb,
            lex_le(a@, b@) == lex_le(a@.skip(i as int), b@.skip(i as int)),
        decreases na - i,
    {
        let ca = a.get_char(i);
        let cb = b.get_char(i);
        if ca != cb {
            return ca < cb;
        }
        assert(a@.skip(i as int).drop_first() =~= a@.skip(i as int + 1));
        assert(b@.skip(i as int).drop_first() =~= b@.skip(i as int + 1));
        i = i + 1;
    }
    i == na
}

/// Unicode's `White_Space` property, which `char::is_whitespace` and
/// `str::trim` go by.
pub open spec fn is_white_space_spec(c: char) -> bool {
    let u = c as u32;
    (9 <= u && u <= 13) || u == 32 || u == 0x85 || u == 0xA0 || u == 0x1680
        || (0x2000 <= u && u <= 0x200A) || u == 0x2028 || u == 0x2029 || u == 0x202F
        || u == 0x205F || u == 0x3000
}

pub fn is_white_space(c: char) -> (r: bool)
    ensures
        r == is_white_space_spec(c),
{
    let u = c as u32;
    (9 <= u && u <= 13) || u == 32 || u == 0x85 || u == 0xA0 || u == 0x1680
        || (0x2000 <= u && u <= 0x200A) || u == 0x2028 || u == 0x2029 || u == 0x202F
        || u == 0x205F || u == 0x3000
}

/// `s` without its leading white space.
pub open spec fn trim_start_spec(s: Seq<char>) -> Seq<char>
    decreases s.len(),
{
    if s.len() > 0 && is_white_space_spec(s[0]) {
        trim_start_spec(s.drop_first())
    } else {
        s
    }
}

/// `s` without its trailing white space.
pub open spec fn trim_end_spec(s: Seq<char>) -> Seq<char>
    decreases s.len(),
{
    if s.len() > 0 && is_white_space_spec(s.last()) {
        trim_end_spec(s.drop_last())
    } else {
        s
    }
}

/// `s` without white space at either end.
pub open spec fn trim_spec(s: Seq<char>) -> Seq<char> {
    trim_end_spec(trim_start_spec(s))
}

/// The characters of `s` from `from` to `to`, with white space removed at
/// both ends.
pub fn trimmed_range(s: &str, from: usize, to: usize) -> (r: String)
    requires
        from <= to <= s@.len(),
    ensures
        r@ == trim_spec(s@.subrange(from as int, to as int)),
{
    let ghost t = s@.subrange(from as int, to as int);
    let mut i: usize = from;
    while i < to && is_white_space(s.get_char(i))
        invariant
            from <= i <= to <= s@.len(),
            t == s@.subrange(from as int, to as int),
            trim_start_spec(t) == trim_start_spec(s@.subrange(i as int, to as int)),
        decreases to - i,
    {
        assert(s@.subrange(i as int, to as int).drop_first() =~= s@.subrange(i as int + 1, to as int));
        i = i + 1;
    }
    let ghost u = s@.subrange(i as int, to as int);
    assert(trim_start_spec(u) == u);
    let mut j: usize = to;
    while j > i && is_white_space(s.get_char(j - 1))
        invariant
            from <= i <= j <= to <= s@.len(),
            u == s@.subrange(i as int, to as int),
            trim_end_spec(u) == trim_end_spec(s@.subrange(i as int, j as int)),
        decreases j,
    {
        assert(s@.subrange(i as int, j as int).drop_last() =~= s@.subrange(i as int, j - 1));
        j = j - 1;
    }
    String::from_str(s.substring_char(i, j))
}

/// The pieces of `s` between occurrences of `sep`, as `str::split` yields
/// them: an empty `s` gives one empty piece, and so does a trailing `sep`.
pub open spec fn split_spec(s: Seq<char>, sep: char) -> Seq<Seq<char>>
    decreases s.len(),
{
    if s.len() == 0 {
        seq![Seq::empty()]
    } else {
        let prev = split_spec(s.drop_last(), sep);
        if s.last() == sep {
            prev.push(Seq::empty())
        } else {
            prev.update(prev.len() - 1, prev.last().push(s.last()))
        }
    }
}

/// The tags written in `s`: the pieces between commas, each trimmed of white
/// space.
pub open spec fn tags_of(s: Seq<char>) -> Seq<Seq<char>> {
    split_spec(s, ',').map_values(|p: Seq<char>| trim_spec(p))
}

/// Splits `s` at each comma and trims each piece of white space.
pub fn parse_tags(s: &str) -> (r: Vec<String>)
    ensures
        r@.map_values(|t: String| t@) == tags_of(s@),
{
    let n = s.unicode_len();
    let mut out: Vec<String> = Vec::new();
    let ghost mut pieces: Seq<Seq<char>> = Seq::empty();
    let mut start: usize = 0;
    let mut i: usize = 0;
    assert(s@.take(0) =~= Seq::<char>::empty());
    assert(pieces.push(s@.subrange(0, 0)) =~= seq![Seq::<char>::empty()]);
    while i < n
        invariant
            n == s@.len(),
            start <= i <= n,
            split_spec(s@.take(i as int), ',') == pieces.push(s@.subrange(start as int, i as int)),
            out@.len() == pieces.len(),
            forall|k: int| 0 <= k < pieces.len() ==> (#[trigger] out@[k])@ == trim_spec(pieces[k]),
        decreases n - i,
    {
        let ghost prefix = s@.take(i as int + 1);
        assert(prefix.drop_last() =~= s@.take(i as int));
        if s.get_char(i) == ',' {
            out.push(trimmed_range(s, start, i));
            proof {
                pieces = pieces.push(s@.subrange(start as int, i as int));
            }
            assert(s@.subrange(i as int + 1, i as int + 1) =~= Seq::<char>::empty());
            start = i + 1;
        } else {
            assert(s@.subrange(start as int, i as int).push(s@[i as int]) =~= s@.subrange(start as int, i as int + 1));
        }
        i = i + 1;
    }
    out.push(trimmed_range(s, start, n));
    proof {
        pieces = pieces.push(s@.subrange(start as int, n as int));
    }
    assert(s@.take(n as int) =~= s@);
    assert(out@.map_values(|t: String| t@) =~= tags_of(s@));
    out
}

/// `s` is in ascending order of `lex_le`.
pub open spec fn sorted_strs(s: Seq<Seq<char>>) -> bool {
    forall|i: int, j: int| 0 <= i < j < s.len() ==> lex_le(#[trigger] s[i], #[trigger] s[j])
}

/// Sorts strings in ascending order; equal strings keep their relative order.
pub fn sort_strings(v: &mut Vec<String>)
    ensures
        sorted_strs(final(v)@.map_values(|t: String| t@)),
        final(v)@.map_values(|t: String| t@).to_multiset() == old(v)@.map_values(|t: String| t@).to_multiset(),
{
    let ghost orig = old(v)@.map_values(|t: String| t@);
    let mut out: Vec<String> = Vec::new();
    let mut rest: Vec<String> = Vec::new();
    std::mem::swap(v, &mut rest);
    proof {
        assert(rest@.map_values(|t: String| t@) == orig);
        assert(out@.map_values(|t: String| t@) =~= Seq::<Seq<char>>::empty());
        assert(Seq::<Seq<char>>::empty().to_multiset().add(orig.to_multiset()) =~= orig.to_multiset());
    }
    while rest.len() > 0
        invariant
            sorted_strs(out@.map_values(|t: String| t@)),
            out@.map_values(|t: String| t@).to_multiset().add(rest@.map_values(|t: String| t@).to_multiset()) == orig.to_multiset(),
        decreases rest@.len(),
    {
        let ghost before_rest = rest@.map_values(|t: String| t@);
        let ghost before_out = out@.map_values(|t: String| t@);
        let x = rest.remove(0);
        proof {
            assert(rest@.map_values(|t: String| t@) =~= before_rest.remove(0));
            vstd::seq_lib::to_multiset_remove(before_rest, 0);
        }
        let mut k: usize = 0;
        while k < out.len() && str_le(out[k].as_str(), x.as_str())
            invariant
                k <= out@.len(),
                out@.map_values(|t: String| t@) == before_out,
                forall|m: int| 0 <= m < k ==> lex_le(#[trigger] before_out[m], x@),
            decreases out@.len() - k,
        {
            k = k + 1;
        }
        proof {
            if k < out@.len() {
                lemma_lex_total(before_out[k as int], x@);
            }
        }
        out.insert(k, x);
        proof {
            let now = out@.map_values(|t: String| t@);
            assert(now =~= before_out.insert(k as int, x@));
            vstd::seq_lib::to_multiset_insert(before_out, k as int, x@);
            assert(before_rest[0] == x@);
            assert(now.to_multiset().add(rest@.map_values(|t: String| t@).to_multiset()) =~= before_out.to_multiset().add(before_rest.to_multiset()));
            assert forall|i: int, j: int| 0 <= i < j < now.len() implies lex_le(#[trigger] now[i], #[trigger] now[j]) by {
                if j == k {
                } else if i == k {
                    if j - 1 > k {
                        lemma_lex_trans(x@, before_out[k as int], before_out[j - 1]);
                    }
                } else if i < k && j > k {
                    assert(lex_le(before_out[i], x@));
                    lemma_lex_trans(before_out[i], x@, before_out[k as int]);
                    if j - 1 > k {
                        lemma_lex_trans(before_out[i], before_out[k as int], before_out[j - 1]);
                    }
                }
            }
        }
    }
    *v = out;
    proof {
        assert(rest@.map_values(|t: String| t@) =~= Seq::<Seq<char>>::empty());
        let fin = out@.map_values(|t: String| t@).to_multiset();
        assert(fin.add(Seq::<Seq<char>>::empty().to_multiset()) =~= fin);
    }
}

} // verus!
