//! Character-level helpers shared by the naming and templating modules.
//!
//! All string logic in this crate works over `Seq<char>` models.  Case
//! mapping is deliberately ASCII-only: a character outside `a..z` /
//! `A..Z` passes through unchanged.  (Behaviour on non-ASCII input was
//! left open by the tool's description, so the crate pins it down this
//! way and documents it.)

use vstd::prelude::*;

verus! {

/// ASCII upper-casing of one character; anything else is unchanged.
pub open spec fn upper_char(c: char) -> char {
    if 'a' <= c && c <= 'z' {
        ((c as u8) - 32) as char
    } else {
        c
    }
}

/// ASCII lower-casing of one character; anything else is unchanged.
pub open spec fn lower_char(c: char) -> char {
    if 'A' <= c && c <= 'Z' {
        ((c as u8) + 32) as char
    } else {
        c
    }
}

/// Element-wise ASCII upper-casing of a character sequence.
pub open spec fn upper_seq(s: Seq<char>) -> Seq<char> {
    Seq::new(s.len(), |i: int| upper_char(s[i]))
}

/// Element-wise ASCII lower-casing of a character sequence.
pub open spec fn lower_seq(s: Seq<char>) -> Seq<char> {
    Seq::new(s.len(), |i: int| lower_char(s[i]))
}

/// `s` with every occurrence of `a` replaced by `b`.
pub open spec fn replace_seq(s: Seq<char>, a: char, b: char) -> Seq<char> {
    Seq::new(s.len(), |i: int| if s[i] == a { b } else { s[i] })
}

/// First character upper-cased (ASCII), rest unchanged; empty stays empty.
pub open spec fn cap_seq(s: Seq<char>) -> Seq<char> {
    if s.len() == 0 {
        s
    } else {
        seq![upper_char(s[0])] + s.drop_first()
    }
}

pub(crate) fn upper_char_exec(c: char) -> (r: char)
    ensures
        r == upper_char(c),
{
    let u = c as u32;
    if 97 <= u && u <= 122 {
        ((u - 32) as u8) as char
    } else {
        c
    }
}

pub(crate) fn lower_char_exec(c: char) -> (r: char)
    ensures
        r == lower_char(c),
{
    let u = c as u32;
    if 65 <= u && u <= 90 {
        ((u + 32) as u8) as char
    } else {
        c
    }
}

/// The characters of a string slice, as a vector.
pub fn chars_of(s: &str) -> (r: Vec<char>)
    ensures
        r@ == s@,
{
    let n = s.unicode_len();
    let mut r: Vec<char> = Vec::new();
    let mut i: usize = 0;
    while i < n
        invariant
            n == s@.len(),
            i <= n,
            r@ == s@.take(i as int),
        decreases n - i,
    {
        r.push(s.get_char(i));
        i = i + 1;
        proof {
            assert(r@ =~= s@.take(i as int));
        }
    }
    proof {
        assert(s@.take(n as int) =~= s@);
    }
    r
}

/// Relies on `core::iter::Iterator::collect` for `String` from chars:
/// the collected string holds exactly the characters of the vector.
#[verifier::external_body]
pub fn string_of(cs: Vec<char>) -> (r: String)
    ensures
        r@ == cs@,
{
    cs.into_iter().collect()
}

/// ASCII upper-casing of a whole vector of characters.
pub fn upper_vec(s: &Vec<char>) -> (r: Vec<char>)
    ensures
        r@ == upper_seq(s@),
{
    let mut r: Vec<char> = Vec::new();
    let mut i: usize = 0;
    while i < s.len()
        invariant
            i <= s@.len(),
            r@ == upper_seq(s@).take(i as int),
        decreases s@.len() - i,
    {
        r.push(upper_char_exec(s[i]));
        i = i + 1;
        proof {
            assert(r@ =~= upper_seq(s@).take(i as int));
        }
    }
    proof {
        assert(upper_seq(s@).take(s@.len() as int) =~= upper_seq(s@));
    }
    r
}

/// ASCII lower-casing of a whole vector of characters.
pub fn lower_vec(s: &Vec<char>) -> (r: Vec<char>)
    ensures
        r@ == lower_seq(s@),
{
    let mut r: Vec<char> = Vec::new();
    let mut i: usize = 0;
    while i < s.len()
        invariant
            i <= s@.len(),
            r@ == lower_seq(s@).take(i as int),
        decreases s@.len() - i,
    {
        r.push(lower_char_exec(s[i]));
        i = i + 1;
        proof {
            assert(r@ =~= lower_seq(s@).take(i as int));
        }
    }
    proof {
        assert(lower_seq(s@).take(s@.len() as int) =~= lower_seq(s@));
    }
    r
}

/// `s` with every occurrence of `a` replaced by `b`, as a new vector.
pub fn replace_vec(s: &Vec<char>, a: char, b: char) -> (r: Vec<char>)
    ensures
        r@ == replace_seq(s@, a, b),
{
    let mut r: Vec<char> = Vec::new();
    let mut i: usize = 0;
    while i < s.len()
        invariant
            i <= s@.len(),
            r@ == replace_seq(s@, a, b).take(i as int),
        decreases s@.len() - i,
    {
        let c = s[i];
        if c == a {
            r.push(b);
        } else {
            r.push(c);
        }
        i = i + 1;
        proof {
            assert(r@ =~= replace_seq(s@, a, b).take(i as int));
        }
    }
    proof {
        assert(replace_seq(s@, a, b).take(s@.len() as int) =~= replace_seq(s@, a, b));
    }
    r
}

/// First character upper-cased (ASCII), rest unchanged, on vectors.
pub fn cap_vec(s: &Vec<char>) -> (r: Vec<char>)
    ensures
        r@ == cap_seq(s@),
{
    let mut r: Vec<char> = Vec::new();
    if s.len() == 0 {
        proof {
            assert(r@ =~= cap_seq(s@));
        }
        return r;
    }
    r.push(upper_char_exec(s[0]));
    let mut i: usize = 1;
    while i < s.len()
        invariant
            s@.len() > 0,
            1 <= i <= s@.len(),
            r@ == cap_seq(s@).take(i as int),
        decreases s@.len() - i,
    {
        r.push(s[i]);
        i = i + 1;
        proof {
            assert(r@ =~= cap_seq(s@).take(i as int));
        }
    }
    proof {
        assert(cap_seq(s@).take(s@.len() as int) =~= cap_seq(s@));
    }
    r
}

/// One token with its first letter upper-cased (ASCII), as the
/// identifier deriver applies to each separator-delimited token.
pub fn capitalize(s: &str) -> (r: String)
    ensures
        r@ == cap_seq(s@),
{
    let cs = chars_of(s);
    let capped = cap_vec(&cs);
    string_of(capped)
}

/// Appends all characters of `src` to `r`.
pub fn extend_vec(r: &mut Vec<char>, src: &Vec<char>)
    ensures
        final(r)@ == old(r)@ + src@,
{
    let mut j: usize = 0;
    while j < src.len()
        invariant
            j <= src@.len(),
            r@ == old(r)@ + src@.take(j as int),
        decreases src@.len() - j,
    {
        r.push(src[j]);
        j = j + 1;
        proof {
            assert(r@ =~= old(r)@ + src@.take(j as int));
        }
    }
    proof {
        assert(old(r)@ + src@.take(src@.len() as int) =~= old(r)@ + src@);
    }
}

/// The suffix of `s` from index `from` on, as a new vector.
pub fn suffix_vec(s: &Vec<char>, from: usize) -> (r: Vec<char>)
    requires
        from <= s@.len(),
    ensures
        r@ == s@.skip(from as int),
{
    let mut r: Vec<char> = Vec::new();
    let mut i: usize = from;
    while i < s.len()
        invariant
            from <= i <= s@.len(),
            r@ == s@.subrange(from as int, i as int),
        decreases s@.len() - i,
    {
        r.push(s[i]);
        i = i + 1;
        proof {
            assert(r@ =~= s@.subrange(from as int, i as int));
        }
    }
    proof {
        assert(s@.subrange(from as int, s@.len() as int) =~= s@.skip(from as int));
    }
    r
}

/// The subrange `s[from..to]`, as a new vector.
pub fn subrange_vec(s: &Vec<char>, from: usize, to: usize) -> (r: Vec<char>)
    requires
        from <= to <= s@.len(),
    ensures
        r@ == s@.subrange(from as int, to as int),
{
    let mut r: Vec<char> = Vec::new();
    let mut i: usize = from;
    while i < to
        invariant
            from <= i <= to <= s@.len(),
            r@ == s@.subrange(from as int, i as int),
        decreases to - i,
    {
        r.push(s[i]);
        i = i + 1;
        proof {
            assert(r@ =~= s@.subrange(from as int, i as int));
        }
    }
    r
}

/// Whether `p` is a prefix of `s`.
pub fn is_prefix_vec(s: &Vec<char>, p: &Vec<char>) -> (r: bool)
    ensures
        r == p@.is_prefix_of(s@),
{
    if p.len() > s.len() {
        return false;
    }
    let mut i: usize = 0;
    while i < p.len()
        invariant
            p@.len() <= s@.len(),
            i <= p@.len(),
            forall|k: int| 0 <= k < i ==> p@[k] == s@[k],
        decreases p@.len() - i,
    {
        if p[i] != s[i] {
            proof {
                assert(p@[i as int] != s@.subrange(0, p@.len() as int)[i as int]);
            }
            return false;
        }
        i = i + 1;
    }
    proof {
        assert(p@ =~= s@.subrange(0, p@.len() as int));
    }
    true
}

/// Whether `s` contains the character `c`.
pub fn contains_char(s: &Vec<char>, c: char) -> (r: bool)
    ensures
        r == s@.contains(c),
{
    let mut i: usize = 0;
    while i < s.len()
        invariant
            i <= s@.len(),
            forall|k: int| 0 <= k < i ==> s@[k] != c,
        decreases s@.len() - i,
    {
        if s[i] == c {
            return true;
        }
        i = i + 1;
    }
    false
}

/// Whether the characters of `v` spell exactly the string `s`.
pub fn vec_eq_str(v: &Vec<char>, s: &str) -> (r: bool)
    ensures
        r == (v@ == s@),
{
    let n = s.unicode_len();
    if v.len() != n {
        proof {
            assert(v@.len() != s@.len());
        }
        return false;
    }
    let mut i: usize = 0;
    while i < n
        invariant
            n == s@.len(),
            v@.len() == n,
            i <= n,
            forall|k: int| 0 <= k < i ==> v@[k] == s@[k],
        decreases n - i,
    {
        if v[i] != s.get_char(i) {
            return false;
        }
        i = i + 1;
    }
    proof {
        assert(v@ =~= s@);
    }
    true
}

/// Whether `t` ends with the suffix `p`.
pub fn ends_with_vec(s: &Vec<char>, p: &Vec<char>) -> (r: bool)
    ensures
        r == p@.is_suffix_of(s@),
{
    if p.len() > s.len() {
        return false;
    }
    let start = s.len() - p.len();
    let mut i: usize = 0;
    while i < p.len()
        invariant
            s@.len() <= usize::MAX,
            p@.len() <= s@.len(),
            start == s@.len() - p@.len(),
            start + p@.len() == s@.len(),
            i <= p@.len(),
            forall|k: int| 0 <= k < i ==> p@[k] == s@[start + k],
        decreases p@.len() - i,
    {
        proof {
            assert(start + i < s@.len());
        }
        if p[i] != s[start + i] {
            proof {
                assert(p@[i as int] != s@.subrange(
                    s@.len() - p@.len(),
                    s@.len() as int,
                )[i as int]);
            }
            return false;
        }
        i = i + 1;
    }
    proof {
        assert(p@ =~= s@.subrange(s@.len() - p@.len(), s@.len() as int));
    }
    true
}

} // verus!
