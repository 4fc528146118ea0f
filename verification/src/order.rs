//! Lexicographic order on character sequences, the order every listing
//! in this crate is sorted by: tree children by path, the export
//! report by file identifier.

use vstd::prelude::*;

use crate::chars::chars_of;

verus! {

/// `a` is lexicographically at most `b`, comparing code points.
pub open spec fn lex_le(a: Seq<char>, b: Seq<char>) -> bool
    decreases a.len(),
{
    if a.len() == 0 {
        true
    } else if b.len() == 0 {
        false
    } else if a[0] != b[0] {
        (a[0] as int) < (b[0] as int)
    } else {
        lex_le(a.drop_first(), b.drop_first())
    }
}

/// The order is total.
pub proof fn lemma_lex_total(a: Seq<char>, b: Seq<char>)
    ensures
        lex_le(a, b) || lex_le(b, a),
    decreases a.len(),
{
    if a.len() > 0 && b.len() > 0 && a[0] == b[0] {
        lemma_lex_total(a.drop_first(), b.drop_first());
    }
}

/// The order is transitive.
pub proof fn lemma_lex_trans(a: Seq<char>, b: Seq<char>, c: Seq<char>)
    requires
        lex_le(a, b),
        lex_le(b, c),
    ensures
        lex_le(a, c),
    decreases a.len(),
{
    if a.len() == 0 {
    } else {
        assert(b.len() > 0);
        assert(c.len() > 0);
        if a[0] == b[0] && b[0] == c[0] {
            lemma_lex_trans(a.drop_first(), b.drop_first(), c.drop_first());
        }
    }
}

/// Compares two character vectors lexicographically.
pub fn lex_le_vec(a: &Vec<char>, b: &Vec<char>) -> (r: bool)
    ensures
        r == lex_le(a@, b@),
{
    proof {
        assert(a@.skip(0) =~= a@);
        assert(b@.skip(0) =~= b@);
    }
    let mut i: usize = 0;
    while i < a.len() && i < b.len()
        invariant
            i <= a@.len(),
            i <= b@.len(),
            lex_le(a@, b@) == lex_le(a@.skip(i as int), b@.skip(i as int)),
        decreases a@.len() - i,
    {
        let x = a[i];
        let y = b[i];
        if x != y {
            proof {
                assert(a@.skip(i as int)[0] == x);
                assert(b@.skip(i as int)[0] == y);
                assert(lex_le(a@.skip(i as int), b@.skip(i as int)) == ((x as int) < (
                y as int)));
            }
            return x < y;
        }
        i = i + 1;
        proof {
            assert(a@.skip(i - 1).drop_first() =~= a@.skip(i as int));
            assert(b@.skip(i - 1).drop_first() =~= b@.skip(i as int));
            assert(a@.skip(i - 1)[0] == b@.skip(i - 1)[0]);
        }
    }
    proof {
        if i >= a@.len() {
            assert(a@.skip(i as int).len() == 0);
        } else {
            assert(b@.skip(i as int).len() == 0);
            assert(a@.skip(i as int).len() > 0);
        }
    }
    i >= a.len()
}

/// Compares two strings lexicographically by their characters.
pub fn str_le(a: &String, b: &String) -> (r: bool)
    ensures
        r == lex_le(a@, b@),
{
    let ca = chars_of(a.as_str());
    let cb = chars_of(b.as_str());
    lex_le_vec(&ca, &cb)
}

/// The character sequences of a vector of strings.
pub open spec fn string_views(ss: Seq<String>) -> Seq<Seq<char>> {
    ss.map_values(|s: String| s@)
}

/// Every pair of positions is ordered.
pub open spec fn lex_sorted(s: Seq<Seq<char>>) -> bool {
    forall|i: int, j: int| 0 <= i < j < s.len() ==> lex_le(s[i], s[j])
}

/// `x` placed before the first element it is at most, everything else
/// kept in order.
pub open spec fn insert_sorted(s: Seq<Seq<char>>, x: Seq<char>) -> Seq<Seq<char>>
    decreases s.len(),
{
    if s.len() == 0 {
        seq![x]
    } else if lex_le(x, s[0]) {
        seq![x] + s
    } else {
        seq![s[0]] + insert_sorted(s.drop_first(), x)
    }
}

/// The sequence sorted by repeated insertion, element by element.
pub open spec fn sort_lex(s: Seq<Seq<char>>) -> Seq<Seq<char>>
    decreases s.len(),
{
    if s.len() == 0 {
        s
    } else {
        insert_sorted(sort_lex(s.drop_last()), s.last())
    }
}

pub proof fn lemma_insert_sorted_props(s: Seq<Seq<char>>, x: Seq<char>)
    requires
        lex_sorted(s),
    ensures
        lex_sorted(insert_sorted(s, x)),
        insert_sorted(s, x).to_multiset() == s.to_multiset().insert(x),
        insert_sorted(s, x).len() == s.len() + 1,
    decreases s.len(),
{
    broadcast use vstd::seq_lib::group_to_multiset_ensures;
    broadcast use vstd::multiset::group_multiset_axioms;

    let r = insert_sorted(s, x);
    if s.len() == 0 {
        assert(r =~= Seq::<Seq<char>>::empty().push(x));
        assert(s =~= Seq::<Seq<char>>::empty());
        assert(r.to_multiset() =~= s.to_multiset().insert(x));
    } else if lex_le(x, s[0]) {
        assert(r == seq![x] + s);
        assert forall|i: int, j: int| 0 <= i < j < r.len() implies lex_le(r[i], r[j]) by {
            if i == 0 {
                if j == 1 {
                    assert(r[j] == s[0]);
                } else {
                    assert(lex_le(s[0], s[j - 1]));
                    lemma_lex_trans(x, s[0], s[j - 1]);
                }
            } else {
                assert(lex_le(s[i - 1], s[j - 1]));
            }
        }
        assert(r =~= s.insert(0, x));
        assert(s.insert(0, x).to_multiset() == s.to_multiset().insert(x));
    } else {
        lemma_lex_total(x, s[0]);
        assert(lex_le(s[0], x));
        let d = s.drop_first();
        assert(lex_sorted(d)) by {
            assert forall|i: int, j: int| 0 <= i < j < d.len() implies lex_le(d[i], d[j]) by {
                assert(lex_le(s[i + 1], s[j + 1]));
            }
        }
        lemma_insert_sorted_props(d, x);
        let inner = insert_sorted(d, x);
        assert(r == seq![s[0]] + inner);
        assert forall|i: int, j: int| 0 <= i < j < r.len() implies lex_le(r[i], r[j]) by {
            if i == 0 {
                // every element of `inner` is either `x` or an element
                // of `d`; both are at least `s[0]`
                assert(r[j] == inner[j - 1]);
                assert(inner.contains(inner[j - 1]));
                assert(inner.to_multiset().count(inner[j - 1]) > 0);
                assert(d.to_multiset().insert(x).count(inner[j - 1]) > 0);
                if r[j] == x {
                    assert(lex_le(s[0], x));
                } else {
                    assert(d.to_multiset().count(inner[j - 1]) > 0);
                    assert(d.contains(inner[j - 1]));
                    let k = choose|k: int| 0 <= k < d.len() && d[k] == inner[j - 1];
                    assert(lex_le(s[0], s[k + 1]));
                }
            } else {
                assert(lex_le(inner[i - 1], inner[j - 1]));
            }
        }
        assert(r.to_multiset() == s.to_multiset().insert(x)) by {
            assert(r =~= inner.insert(0, s[0]));
            assert(inner.insert(0, s[0]).to_multiset() == inner.to_multiset().insert(s[0]));
            assert(s =~= d.insert(0, s[0]));
            assert(d.insert(0, s[0]).to_multiset() == d.to_multiset().insert(s[0]));
            assert(inner.to_multiset().insert(s[0]) =~= d.to_multiset().insert(s[0]).insert(x));
        }
    }
}

pub proof fn lemma_sort_lex_props(s: Seq<Seq<char>>)
    ensures
        lex_sorted(sort_lex(s)),
        sort_lex(s).to_multiset() == s.to_multiset(),
        sort_lex(s).len() == s.len(),
    decreases s.len(),
{
    broadcast use vstd::seq_lib::group_to_multiset_ensures;

    if s.len() > 0 {
        lemma_sort_lex_props(s.drop_last());
        lemma_insert_sorted_props(sort_lex(s.drop_last()), s.last());
        assert(s.to_multiset() == s.drop_last().to_multiset().insert(s.last())) by {
            assert(s =~= s.drop_last().push(s.last()));
        }
    }
}

proof fn lemma_insert_sorted_at(s: Seq<Seq<char>>, x: Seq<char>, j: int)
    requires
        0 <= j <= s.len(),
        forall|k: int| 0 <= k < j ==> !lex_le(x, s[k]),
        j < s.len() ==> lex_le(x, s[j]),
    ensures
        insert_sorted(s, x) == s.take(j) + seq![x] + s.skip(j),
    decreases j,
{
    if j == 0 {
        if s.len() == 0 {
            assert(insert_sorted(s, x) =~= s.take(0) + seq![x] + s.skip(0));
        } else {
            assert(insert_sorted(s, x) == seq![x] + s);
            assert(seq![x] + s =~= s.take(0) + seq![x] + s.skip(0));
        }
    } else {
        assert(!lex_le(x, s[0]));
        let d = s.drop_first();
        assert(forall|k: int| 0 <= k < j - 1 ==> d[k] == s[k + 1] && !lex_le(x, d[k]));
        lemma_insert_sorted_at(d, x, j - 1);
        assert(insert_sorted(s, x) == seq![s[0]] + (d.take(j - 1) + seq![x] + d.skip(j - 1)));
        assert(seq![s[0]] + (d.take(j - 1) + seq![x] + d.skip(j - 1)) =~= s.take(j) + seq![x]
            + s.skip(j));
    }
}

fn find_insert_pos(v: &Vec<String>, x: &String) -> (j: usize)
    ensures
        j <= v@.len(),
        forall|k: int| 0 <= k < j ==> !lex_le(x@, string_views(v@)[k]),
        j < v@.len() ==> lex_le(x@, string_views(v@)[j as int]),
{
    let mut j: usize = 0;
    while j < v.len()
        invariant
            j <= v@.len(),
            forall|k: int| 0 <= k < j ==> !lex_le(x@, string_views(v@)[k]),
        decreases v@.len() - j,
    {
        proof {
            assert(string_views(v@)[j as int] == v@[j as int]@);
        }
        if str_le(x, &v[j]) {
            return j;
        }
        j = j + 1;
    }
    j
}

/// Inserts a string into a vector before the first element it is at
/// most; on a sorted vector this keeps it sorted.
pub fn insert_string_sorted(v: &mut Vec<String>, x: String)
    ensures
        string_views(final(v)@) == insert_sorted(string_views(old(v)@), x@),
{
    let j = find_insert_pos(v, &x);
    proof {
        assert(string_views(v@).len() == v@.len());
        lemma_insert_sorted_at(string_views(v@), x@, j as int);
    }
    let ghost before = v@;
    v.insert(j, x);
    proof {
        assert(string_views(v@) =~= string_views(before).take(j as int) + seq![x@] + string_views(
            before,
        ).skip(j as int)) by {
            assert(v@ == before.insert(j as int, x));
            assert(string_views(v@).len() == v@.len());
            assert forall|k: int| 0 <= k < v@.len() implies string_views(v@)[k] == (string_views(
                before,
            ).take(j as int) + seq![x@] + string_views(before).skip(j as int))[k] by {
                assert(string_views(v@)[k] == v@[k]@);
                if k < j {
                    assert(v@[k] == before[k]);
                    assert(string_views(before)[k] == before[k]@);
                } else if k == j {
                    assert(v@[k] == x);
                } else {
                    assert(v@[k] == before[k - 1]);
                    assert(string_views(before)[k - 1] == before[k - 1]@);
                }
            }
        }
    }
}

/// The strings sorted lexicographically; the multiset of entries and
/// hence the set of entries is kept.
pub fn sort_strings(v: &Vec<String>) -> (r: Vec<String>)
    ensures
        string_views(r@) == sort_lex(string_views(v@)),
        lex_sorted(string_views(r@)),
        string_views(r@).to_multiset() == string_views(v@).to_multiset(),
{
    let mut r: Vec<String> = Vec::new();
    let mut i: usize = 0;
    proof {
        assert(string_views(r@) =~= sort_lex(string_views(v@).take(0)));
    }
    while i < v.len()
        invariant
            i <= v@.len(),
            string_views(r@) == sort_lex(string_views(v@).take(i as int)),
        decreases v@.len() - i,
    {
        let x = v[i].clone();
        proof {
            assert(x@ == v@[i as int]@);
        }
        insert_string_sorted(&mut r, x);
        i = i + 1;
        proof {
            let vs = string_views(v@);
            assert(vs.take(i as int).drop_last() =~= vs.take(i - 1));
            assert(vs.take(i as int).last() == vs[i - 1]);
            assert(vs[i - 1] == v@[i - 1]@);
        }
    }
    proof {
        assert(string_views(v@).take(v@.len() as int) =~= string_views(v@));
        lemma_sort_lex_props(string_views(v@));
    }
    r
}

} // verus!
