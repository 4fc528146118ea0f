//! The identifier deriver: one project name, many casing conventions.
//!
//! Every derived form is pinned down by a spec function over the
//! name's character sequence, and each executable function returns
//! exactly that form.

use vstd::prelude::*;

use crate::chars::{
    cap_seq, cap_vec, chars_of, contains_char, extend_vec, is_prefix_vec, lower_char,
    replace_seq, replace_vec, string_of, subrange_vec, suffix_vec, upper_seq, upper_vec,
};

verus! {

/// Splitting on a separator character, as `str::split` does: a
/// separator at either end or two adjacent separators yield empty
/// tokens, and the empty string yields one empty token.
pub open spec fn split_char(s: Seq<char>, sep: char) -> Seq<Seq<char>>
    decreases s.len(),
{
    if s.len() == 0 {
        seq![Seq::<char>::empty()]
    } else {
        let r = split_char(s.drop_last(), sep);
        if s.last() == sep {
            r.push(Seq::<char>::empty())
        } else {
            r.update(r.len() - 1, r.last().push(s.last()))
        }
    }
}

/// The tokens joined, with `sep` between consecutive tokens.
pub open spec fn join_seqs(ts: Seq<Seq<char>>, sep: Seq<char>) -> Seq<char>
    decreases ts.len(),
{
    if ts.len() == 0 {
        Seq::<char>::empty()
    } else if ts.len() == 1 {
        ts[0]
    } else {
        join_seqs(ts.drop_last(), sep) + sep + ts.last()
    }
}

/// The tokens with the empty ones dropped, order kept.
pub open spec fn drop_empties(ts: Seq<Seq<char>>) -> Seq<Seq<char>>
    decreases ts.len(),
{
    if ts.len() == 0 {
        ts
    } else if ts.last().len() == 0 {
        drop_empties(ts.drop_last())
    } else {
        drop_empties(ts.drop_last()).push(ts.last())
    }
}

/// Each token with its first letter upper-cased.
pub open spec fn caps_of(ts: Seq<Seq<char>>) -> Seq<Seq<char>> {
    ts.map_values(|t: Seq<char>| cap_seq(t))
}

/// The character sequences of a vector of character vectors.
pub open spec fn views_of(vs: Seq<Vec<char>>) -> Seq<Seq<char>> {
    vs.map_values(|v: Vec<char>| v@)
}

/// `str::split` on a character, over vectors.
pub fn split_vec(s: &Vec<char>, sep: char) -> (r: Vec<Vec<char>>)
    ensures
        views_of(r@) == split_char(s@, sep),
        r@.len() >= 1,
{
    let mut r: Vec<Vec<char>> = Vec::new();
    r.push(Vec::new());
    proof {
        assert(views_of(r@) =~= split_char(s@.take(0), sep));
    }
    let mut i: usize = 0;
    while i < s.len()
        invariant
            i <= s@.len(),
            r@.len() >= 1,
            views_of(r@) == split_char(s@.take(i as int), sep),
        decreases s@.len() - i,
    {
        let ghost pre = s@.take(i as int);
        let c = s[i];
        if c == sep {
            r.push(Vec::new());
        } else {
            let mut t = r.pop().unwrap();
            t.push(c);
            r.push(t);
        }
        i = i + 1;
        proof {
            let cur = s@.take(i as int);
            assert(cur.drop_last() =~= pre);
            assert(cur.last() == c);
            if c == sep {
                assert(views_of(r@) =~= split_char(pre, sep).push(Seq::<char>::empty()));
            } else {
                let old_ts = split_char(pre, sep);
                assert(views_of(r@) =~= old_ts.update(
                    old_ts.len() - 1,
                    old_ts.last().push(c),
                ));
            }
        }
    }
    proof {
        assert(s@.take(s@.len() as int) =~= s@);
    }
    r
}

/// Join of tokens with a separator, over vectors.
pub fn join_vecs(ts: &Vec<Vec<char>>, sep: &Vec<char>) -> (r: Vec<char>)
    ensures
        r@ == join_seqs(views_of(ts@), sep@),
{
    let mut r: Vec<char> = Vec::new();
    let mut i: usize = 0;
    while i < ts.len()
        invariant
            i <= ts@.len(),
            r@ == join_seqs(views_of(ts@).take(i as int), sep@),
        decreases ts@.len() - i,
    {
        let ghost pre = views_of(ts@).take(i as int);
        if i > 0 {
            extend_vec(&mut r, sep);
        }
        extend_vec(&mut r, &ts[i]);
        i = i + 1;
        proof {
            let cur = views_of(ts@).take(i as int);
            assert(cur.drop_last() =~= pre);
            assert(cur.last() == ts@[i - 1]@);
            if i == 1 {
                assert(join_seqs(cur, sep@) == cur[0]);
                assert(r@ =~= cur[0]);
            } else {
                assert(r@ == join_seqs(pre, sep@) + sep@ + ts@[i - 1]@);
            }
        }
    }
    proof {
        assert(views_of(ts@).take(ts@.len() as int) =~= views_of(ts@));
    }
    r
}

/// The nonempty tokens, order kept, over vectors.
pub fn drop_empties_vec(ts: &Vec<Vec<char>>) -> (r: Vec<Vec<char>>)
    ensures
        views_of(r@) == drop_empties(views_of(ts@)),
{
    let mut r: Vec<Vec<char>> = Vec::new();
    proof {
        assert(views_of(r@) =~= drop_empties(views_of(ts@).take(0)));
    }
    let mut i: usize = 0;
    while i < ts.len()
        invariant
            i <= ts@.len(),
            views_of(r@) == drop_empties(views_of(ts@).take(i as int)),
        decreases ts@.len() - i,
    {
        let ghost pre = views_of(ts@).take(i as int);
        if ts[i].len() > 0 {
            let t = ts[i].clone();
            r.push(t);
        }
        i = i + 1;
        proof {
            let cur = views_of(ts@).take(i as int);
            assert(cur.drop_last() =~= pre);
            assert(cur.last() == ts@[i - 1]@);
            if ts@[i - 1]@.len() > 0 {
                assert(views_of(r@) =~= drop_empties(pre).push(ts@[i - 1]@));
            }
        }
    }
    proof {
        assert(views_of(ts@).take(ts@.len() as int) =~= views_of(ts@));
    }
    r
}

/// Each token capitalized, over vectors.
pub fn caps_vec(ts: &Vec<Vec<char>>) -> (r: Vec<Vec<char>>)
    ensures
        views_of(r@) == caps_of(views_of(ts@)),
{
    let mut r: Vec<Vec<char>> = Vec::new();
    let mut i: usize = 0;
    while i < ts.len()
        invariant
            i <= ts@.len(),
            views_of(r@) == caps_of(views_of(ts@).take(i as int)),
        decreases ts@.len() - i,
    {
        let capped = cap_vec(&ts[i]);
        let ghost r_old = r@;
        r.push(capped);
        i = i + 1;
        proof {
            let vs = views_of(ts@);
            let cur = caps_of(vs.take(i as int));
            let prev = caps_of(vs.take(i - 1));
            assert(r@ == r_old.push(capped));
            assert(views_of(r_old).len() == r_old.len());
            assert(r_old.len() == i - 1);
            assert forall|k: int| 0 <= k < i implies views_of(r@)[k] == cur[k] by {
                assert(views_of(r@)[k] == r@[k]@);
                assert(cur[k] == cap_seq(vs.take(i as int)[k]));
                if k < i - 1 {
                    assert(r@[k] == r_old[k]);
                    assert(views_of(r_old)[k] == r_old[k]@);
                    assert(views_of(r_old)[k] == prev[k]);
                    assert(prev[k] == cap_seq(vs.take(i - 1)[k]));
                } else {
                    assert(r@[k] == capped);
                }
            }
            assert(views_of(r@) =~= cur);
        }
    }
    proof {
        assert(views_of(ts@).take(ts@.len() as int) =~= views_of(ts@));
        assert(caps_of(views_of(ts@).take(ts@.len() as int)) =~= caps_of(views_of(ts@)));
    }
    r
}

/// The name with `-` turned into `_`.
pub open spec fn underscored_of(n: Seq<char>) -> Seq<char> {
    replace_seq(n, '-', '_')
}

/// The name split on `-`/`_`, each token capitalized.
pub open spec fn name_tokens_of(n: Seq<char>) -> Seq<Seq<char>> {
    caps_of(split_char(underscored_of(n), '_'))
}

/// Tokens joined with a space: `"foo-bar_baz"` becomes `"Foo Bar Baz"`.
pub open spec fn title_of(n: Seq<char>) -> Seq<char> {
    join_seqs(name_tokens_of(n), seq![' '])
}

/// Tokens joined with nothing: `"foo-bar"` becomes `"FooBar"`.
pub open spec fn pascal_of(n: Seq<char>) -> Seq<char> {
    join_seqs(name_tokens_of(n), Seq::<char>::empty())
}

/// The name with a leading `prefix` stripped if present, else unchanged.
pub open spec fn unprefixed_of(n: Seq<char>, prefix: Seq<char>) -> Seq<char> {
    if prefix.is_prefix_of(n) {
        n.skip(prefix.len() as int)
    } else {
        n
    }
}

/// Pascal case of the unprefixed name.
pub open spec fn unprefixed_pascal_of(n: Seq<char>, prefix: Seq<char>) -> Seq<char> {
    pascal_of(unprefixed_of(n, prefix))
}

/// Pascal case with the first character lower-cased.
pub open spec fn camel_of(n: Seq<char>) -> Seq<char> {
    let pas = pascal_of(n);
    if pas.len() == 0 {
        pas
    } else {
        seq![lower_char(pas[0])] + pas.drop_first()
    }
}

/// `-` turned into `_`, then everything upper-cased.
pub open spec fn scream_of(n: Seq<char>) -> Seq<char> {
    upper_seq(underscored_of(n))
}

/// The name with `-` turned into `/`.
pub open spec fn namespaced_of(n: Seq<char>) -> Seq<char> {
    replace_seq(n, '-', '/')
}

/// `"{underscored}/{underscored}"`.
pub open spec fn makefile_of(n: Seq<char>) -> Seq<char> {
    underscored_of(n) + seq!['/'] + underscored_of(n)
}

/// First pass of the constant name: split on `_`, drop empty tokens,
/// capitalize each, join with nothing.
pub open spec fn constant_single_of(n: Seq<char>) -> Seq<char> {
    join_seqs(caps_of(drop_empties(split_char(n, '_'))), Seq::<char>::empty())
}

/// The namespace separator of the constant name.
pub open spec fn double_colon() -> Seq<char> {
    seq![':', ':']
}

/// The constant name: the first pass, and, if a `-` is still present,
/// a second pass that re-splits on `-`, capitalizes and joins with
/// `::` — supporting namespaced constants from mixed separators.
pub open spec fn constant_of(n: Seq<char>) -> Seq<char> {
    let c = constant_single_of(n);
    if c.contains('-') {
        join_seqs(caps_of(split_char(c, '-')), double_colon())
    } else {
        c
    }
}

/// The first position `j >= i` where `s` holds `::`, or `s.len()`.
pub open spec fn find_dc(s: Seq<char>, i: int) -> int
    recommends
        0 <= i <= s.len(),
    decreases s.len() - i,
{
    if i + 2 > s.len() {
        s.len() as int
    } else if s[i] == ':' && s[i + 1] == ':' {
        i
    } else {
        find_dc(s, i + 1)
    }
}

pub proof fn lemma_find_dc(s: Seq<char>, i: int)
    requires
        0 <= i <= s.len(),
    ensures
        i <= find_dc(s, i) <= s.len(),
        find_dc(s, i) < s.len() ==> find_dc(s, i) + 2 <= s.len() && s[find_dc(s, i)] == ':'
            && s[find_dc(s, i) + 1] == ':',
    decreases s.len() - i,
{
    if i + 2 > s.len() {
    } else if s[i] == ':' && s[i + 1] == ':' {
    } else {
        lemma_find_dc(s, i + 1);
    }
}

/// The suffix of `s` from `i` split on `::`, as `str::split("::")`
/// does: matches are found left to right and do not overlap.
pub open spec fn split_dc_from(s: Seq<char>, i: int) -> Seq<Seq<char>>
    decreases s.len() - i,
    when 0 <= i <= s.len()
    via split_dc_from_decreases
{
    let j = find_dc(s, i);
    if j >= s.len() {
        seq![s.subrange(i, s.len() as int)]
    } else {
        seq![s.subrange(i, j)] + split_dc_from(s, j + 2)
    }
}

#[via_fn]
proof fn split_dc_from_decreases(s: Seq<char>, i: int) {
    lemma_find_dc(s, i);
}

/// The parts of the constant name, split on `::`.
pub open spec fn constant_parts_of(n: Seq<char>) -> Seq<Seq<char>> {
    split_dc_from(constant_of(n), 0)
}

/// Law: deriving the unprefixed Pascal form commutes with stripping
/// the prefix — it is exactly the Pascal form of the unprefixed name.
pub proof fn lemma_unprefixed_pascal(name: Seq<char>, prefix: Seq<char>)
    ensures
        unprefixed_pascal_of(name, prefix) == pascal_of(unprefixed_of(name, prefix)),
{
}

proof fn lemma_join_prepend(a: Seq<char>, ts: Seq<Seq<char>>, sep: Seq<char>)
    ensures
        join_seqs(seq![a] + ts, sep) == if ts.len() == 0 {
            a
        } else {
            a + sep + join_seqs(ts, sep)
        },
    decreases ts.len(),
{
    let whole = seq![a] + ts;
    if ts.len() == 0 {
        assert(whole =~= seq![a]);
        assert(join_seqs(whole, sep) == whole[0]);
    } else {
        assert(whole.len() >= 2);
        assert(whole.drop_last() =~= seq![a] + ts.drop_last());
        assert(whole.last() == ts.last());
        lemma_join_prepend(a, ts.drop_last(), sep);
        if ts.len() == 1 {
            assert(join_seqs(whole, sep) == a + sep + ts[0]);
            assert(join_seqs(ts, sep) == ts[0]);
        } else {
            assert(join_seqs(whole, sep) == (a + sep + join_seqs(ts.drop_last(), sep)) + sep
                + ts.last());
            assert((a + sep + join_seqs(ts.drop_last(), sep)) + sep + ts.last() =~= a + sep + (
            join_seqs(ts.drop_last(), sep) + sep + ts.last()));
        }
    }
}

proof fn lemma_join_split_dc(s: Seq<char>, i: int)
    requires
        0 <= i <= s.len(),
    ensures
        join_seqs(split_dc_from(s, i), double_colon()) == s.subrange(i, s.len() as int),
    decreases s.len() - i,
{
    lemma_find_dc(s, i);
    let j = find_dc(s, i);
    if j >= s.len() {
        assert(split_dc_from(s, i) == seq![s.subrange(i, s.len() as int)]);
    } else {
        lemma_join_split_dc(s, j + 2);
        let rest = split_dc_from(s, j + 2);
        assert(rest.len() >= 1) by {
            lemma_find_dc(s, j + 2);
        }
        lemma_join_prepend(s.subrange(i, j), rest, double_colon());
        if rest.len() == 0 {
        } else {
            assert(join_seqs(split_dc_from(s, i), double_colon()) == s.subrange(i, j)
                + double_colon() + s.subrange(j + 2, s.len() as int));
            assert(s.subrange(i, j) + double_colon() + s.subrange(j + 2, s.len() as int) =~= s
                .subrange(i, s.len() as int));
        }
    }
}

/// Law: the parts of the constant name, joined back with `::`, give
/// the constant name itself.
pub proof fn lemma_constant_parts_join(n: Seq<char>)
    ensures
        join_seqs(constant_parts_of(n), double_colon()) == constant_of(n),
{
    lemma_join_split_dc(constant_of(n), 0);
    assert(constant_of(n).subrange(0, constant_of(n).len() as int) =~= constant_of(n));
}

/// The character sequences of a vector of strings.
pub open spec fn str_views(ss: Seq<String>) -> Seq<Seq<char>> {
    ss.map_values(|s: String| s@)
}

fn find_dc_exec(s: &Vec<char>, from: usize) -> (j: usize)
    requires
        from <= s@.len(),
    ensures
        j == find_dc(s@, from as int),
        from <= j <= s@.len(),
{
    proof {
        lemma_find_dc(s@, from as int);
    }
    let n = s.len();
    let mut j: usize = from;
    while n - j >= 2
        invariant
            n == s@.len(),
            from <= j <= s@.len(),
            find_dc(s@, from as int) == find_dc(s@, j as int),
        decreases s@.len() - j,
    {
        if s[j] == ':' && s[j + 1] == ':' {
            return j;
        }
        j = j + 1;
    }
    s.len()
}

/// Split on `::`, over vectors.
fn split_dc_vec(s: &Vec<char>) -> (r: Vec<Vec<char>>)
    ensures
        views_of(r@) == split_dc_from(s@, 0),
{
    let mut r: Vec<Vec<char>> = Vec::new();
    let mut i: usize = 0;
    loop
        invariant
            i <= s@.len(),
            split_dc_from(s@, 0) == views_of(r@) + split_dc_from(s@, i as int),
        decreases s@.len() - i,
    {
        proof {
            lemma_find_dc(s@, i as int);
        }
        let j = find_dc_exec(s, i);
        let part = subrange_vec(s, i, j);
        let ghost r_old = r@;
        r.push(part);
        proof {
            assert(views_of(r@) =~= views_of(r_old).push(part@));
        }
        if j >= s.len() {
            proof {
                assert(split_dc_from(s@, i as int) == seq![s@.subrange(i as int, s@.len() as int)]);
                assert(views_of(r_old) + split_dc_from(s@, i as int) =~= views_of(r@));
            }
            return r;
        }
        proof {
            assert(split_dc_from(s@, i as int) == seq![s@.subrange(i as int, j as int)]
                + split_dc_from(s@, j + 2));
            assert(views_of(r_old) + split_dc_from(s@, i as int) =~= views_of(r@)
                + split_dc_from(s@, j + 2));
        }
        i = j + 2;
    }
}

/// The name with `-` turned into `_`.
pub fn underscored_name(name: &str) -> (r: String)
    ensures
        r@ == underscored_of(name@),
{
    let cs = chars_of(name);
    string_of(replace_vec(&cs, '-', '_'))
}

fn name_tokens_vec(cs: &Vec<char>) -> (r: Vec<Vec<char>>)
    ensures
        views_of(r@) == name_tokens_of(cs@),
{
    let und = replace_vec(cs, '-', '_');
    let parts = split_vec(&und, '_');
    caps_vec(&parts)
}

/// Split on `-`/`_`, capitalize each token, join with a space.
pub fn title_case(name: &str) -> (r: String)
    ensures
        r@ == title_of(name@),
{
    let cs = chars_of(name);
    let toks = name_tokens_vec(&cs);
    let mut sep: Vec<char> = Vec::new();
    sep.push(' ');
    proof {
        assert(sep@ =~= seq![' ']);
    }
    string_of(join_vecs(&toks, &sep))
}

fn pascal_vec(cs: &Vec<char>) -> (r: Vec<char>)
    ensures
        r@ == pascal_of(cs@),
{
    let toks = name_tokens_vec(cs);
    let sep: Vec<char> = Vec::new();
    proof {
        assert(sep@ =~= Seq::<char>::empty());
    }
    join_vecs(&toks, &sep)
}

/// Split on `-`/`_`, capitalize each token, join with nothing.
pub fn pascal_case(name: &str) -> (r: String)
    ensures
        r@ == pascal_of(name@),
{
    let cs = chars_of(name);
    string_of(pascal_vec(&cs))
}

/// The name with a leading `prefix` stripped if present, else unchanged.
pub fn unprefixed_name(name: &str, prefix: &str) -> (r: String)
    ensures
        r@ == unprefixed_of(name@, prefix@),
{
    let cs = chars_of(name);
    let pre = chars_of(prefix);
    if is_prefix_vec(&cs, &pre) {
        string_of(suffix_vec(&cs, pre.len()))
    } else {
        string_of(cs)
    }
}

/// Pascal case of the name with the prefix stripped.
pub fn unprefixed_pascal(name: &str, prefix: &str) -> (r: String)
    ensures
        r@ == unprefixed_pascal_of(name@, prefix@),
{
    let cs = chars_of(name);
    let pre = chars_of(prefix);
    let base = if is_prefix_vec(&cs, &pre) {
        suffix_vec(&cs, pre.len())
    } else {
        cs
    };
    string_of(pascal_vec(&base))
}

/// Pascal case with the first character lower-cased.
pub fn camel_case(name: &str) -> (r: String)
    ensures
        r@ == camel_of(name@),
{
    let cs = chars_of(name);
    let pas = pascal_vec(&cs);
    if pas.len() == 0 {
        return string_of(pas);
    }
    let mut r: Vec<char> = Vec::new();
    r.push(crate::chars::lower_char_exec(pas[0]));
    let mut i: usize = 1;
    while i < pas.len()
        invariant
            pas@.len() > 0,
            1 <= i <= pas@.len(),
            r@ == seq![lower_char(pas@[0])] + pas@.subrange(1, i as int),
        decreases pas@.len() - i,
    {
        r.push(pas[i]);
        i = i + 1;
        proof {
            assert(r@ =~= seq![lower_char(pas@[0])] + pas@.subrange(1, i as int));
        }
    }
    proof {
        assert(pas@.subrange(1, pas@.len() as int) =~= pas@.drop_first());
    }
    string_of(r)
}

/// `-` turned into `_`, then upper-cased.
pub fn scream_case(name: &str) -> (r: String)
    ensures
        r@ == scream_of(name@),
{
    let cs = chars_of(name);
    let und = replace_vec(&cs, '-', '_');
    string_of(upper_vec(&und))
}

/// The name with `-` turned into `/`.
pub fn namespaced_path(name: &str) -> (r: String)
    ensures
        r@ == namespaced_of(name@),
{
    let cs = chars_of(name);
    string_of(replace_vec(&cs, '-', '/'))
}

/// `"{underscored}/{underscored}"`.
pub fn makefile_path(name: &str) -> (r: String)
    ensures
        r@ == makefile_of(name@),
{
    let cs = chars_of(name);
    let und = replace_vec(&cs, '-', '_');
    let mut r: Vec<char> = und.clone();
    r.push('/');
    extend_vec(&mut r, &und);
    proof {
        assert(r@ =~= underscored_of(name@) + seq!['/'] + underscored_of(name@));
    }
    string_of(r)
}

fn constant_vec(cs: &Vec<char>) -> (r: Vec<char>)
    ensures
        r@ == constant_of(cs@),
{
    let parts = split_vec(cs, '_');
    let kept = drop_empties_vec(&parts);
    let capped = caps_vec(&kept);
    let sep: Vec<char> = Vec::new();
    proof {
        assert(sep@ =~= Seq::<char>::empty());
    }
    let first = join_vecs(&capped, &sep);
    if contains_char(&first, '-') {
        let reparts = split_vec(&first, '-');
        let recapped = caps_vec(&reparts);
        let mut dc: Vec<char> = Vec::new();
        dc.push(':');
        dc.push(':');
        proof {
            assert(dc@ =~= double_colon());
        }
        join_vecs(&recapped, &dc)
    } else {
        first
    }
}

/// The two-pass constant name: `_`-tokens capitalized and joined, then
/// if a `-` remains, re-split on `-` and joined with `::`.
pub fn constant_name(name: &str) -> (r: String)
    ensures
        r@ == constant_of(name@),
{
    let cs = chars_of(name);
    string_of(constant_vec(&cs))
}

/// The constant name split on `::`.
pub fn constant_array(name: &str) -> (r: Vec<String>)
    ensures
        str_views(r@) == constant_parts_of(name@),
{
    let cs = chars_of(name);
    let con = constant_vec(&cs);
    let parts = split_dc_vec(&con);
    let mut r: Vec<String> = Vec::new();
    let mut i: usize = 0;
    while i < parts.len()
        invariant
            i <= parts@.len(),
            str_views(r@) == views_of(parts@).take(i as int),
        decreases parts@.len() - i,
    {
        let part = parts[i].clone();
        let ghost r_old = r@;
        let one = string_of(part);
        r.push(one);
        i = i + 1;
        proof {
            assert(str_views(r@) =~= views_of(parts@).take(i as int)) by {
                assert(str_views(r_old).len() == r_old.len());
                assert(str_views(r@).len() == r@.len());
                assert(str_views(r@).len() == i);
                assert forall|k: int| 0 <= k < i implies str_views(r@)[k] == views_of(
                    parts@,
                ).take(i as int)[k] by {
                    assert(str_views(r@)[k] == r@[k]@);
                    if k < i - 1 {
                        assert(r@[k] == r_old[k]);
                        assert(str_views(r_old)[k] == r_old[k]@);
                    }
                }
            }
        }
    }
    proof {
        assert(views_of(parts@).take(parts@.len() as int) =~= views_of(parts@));
    }
    r
}

} // verus!
