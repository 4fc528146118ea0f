//! The template renderer: flat placeholder substitution.
//!
//! A first pass rewrites the foreign placeholder dialect
//! `<%= config[:field] %>` (with optional internal whitespace) into
//! the native delimiter syntax `{{field}}`; the second pass replaces
//! each `{{field}}` with the field's value from the interpolation
//! context, or fails naming the first unknown field.  Text that does
//! not form a complete placeholder passes through unchanged.  Word and
//! whitespace characters are the ASCII ones; that choice is this
//! crate's, made explicit here.

use vstd::prelude::*;

use crate::chars::{chars_of, extend_vec, string_of, subrange_vec, vec_eq_str};
use crate::interpolation_config::InterpolationConfig;

verus! {

/// ASCII whitespace, as tolerated inside the foreign dialect.
pub open spec fn is_ws(c: char) -> bool {
    c == ' ' || c == '\t' || c == '\n' || c == '\r'
}

/// ASCII word characters, the ones a field name is made of.
pub open spec fn is_word(c: char) -> bool {
    ('a' <= c && c <= 'z') || ('A' <= c && c <= 'Z') || ('0' <= c && c <= '9') || c == '_'
}

/// The first position `j >= i` holding a non-whitespace character, or
/// the end.
pub open spec fn skip_ws(s: Seq<char>, i: int) -> int
    decreases s.len() - i,
    when 0 <= i <= s.len()
{
    if i >= s.len() {
        i
    } else if is_ws(s[i]) {
        skip_ws(s, i + 1)
    } else {
        i
    }
}

/// The first position `j >= i` holding a non-word character, or the
/// end.
pub open spec fn word_end(s: Seq<char>, i: int) -> int
    decreases s.len() - i,
    when 0 <= i <= s.len()
{
    if i >= s.len() {
        i
    } else if is_word(s[i]) {
        word_end(s, i + 1)
    } else {
        i
    }
}

pub proof fn lemma_skip_ws(s: Seq<char>, i: int)
    requires
        0 <= i <= s.len(),
    ensures
        i <= skip_ws(s, i) <= s.len(),
    decreases s.len() - i,
{
    if i < s.len() && is_ws(s[i]) {
        lemma_skip_ws(s, i + 1);
    }
}

pub proof fn lemma_word_end(s: Seq<char>, i: int)
    requires
        0 <= i <= s.len(),
    ensures
        i <= word_end(s, i) <= s.len(),
    decreases s.len() - i,
{
    if i < s.len() && is_word(s[i]) {
        lemma_word_end(s, i + 1);
    }
}

/// A match of the foreign dialect `<%= config[:field] %>` starting at
/// `i`: the field name's start and end, and the match's end.
pub open spec fn dialect_at(s: Seq<char>, i: int) -> Option<(int, int, int)>
    recommends
        0 <= i <= s.len(),
{
    if !(i + 3 <= s.len() && s[i] == '<' && s[i + 1] == '%' && s[i + 2] == '=') {
        None
    } else {
        let a = skip_ws(s, i + 3);
        if !(a + 7 <= s.len() && s[a] == 'c' && s[a + 1] == 'o' && s[a + 2] == 'n' && s[a + 3]
            == 'f' && s[a + 4] == 'i' && s[a + 5] == 'g' && s[a + 6] == '[') {
            None
        } else {
            let b = skip_ws(s, a + 7);
            if !(b < s.len() && s[b] == ':') {
                None
            } else {
                let w1 = word_end(s, b + 1);
                if w1 == b + 1 {
                    None
                } else {
                    let c = skip_ws(s, w1);
                    if !(c < s.len() && s[c] == ']') {
                        None
                    } else {
                        let d = skip_ws(s, c + 1);
                        if d + 2 <= s.len() && s[d] == '%' && s[d + 1] == '>' {
                            Some((b + 1, w1, d + 2))
                        } else {
                            None
                        }
                    }
                }
            }
        }
    }
}

pub proof fn lemma_dialect_at(s: Seq<char>, i: int)
    requires
        0 <= i <= s.len(),
    ensures
        dialect_at(s, i) matches Some(m) ==> i < m.0 < m.1 <= m.2 <= s.len(),
{
    if i + 3 <= s.len() && s[i] == '<' && s[i + 1] == '%' && s[i + 2] == '=' {
        let a = skip_ws(s, i + 3);
        lemma_skip_ws(s, i + 3);
        if a + 7 <= s.len() && s[a] == 'c' && s[a + 1] == 'o' && s[a + 2] == 'n' && s[a + 3]
            == 'f' && s[a + 4] == 'i' && s[a + 5] == 'g' && s[a + 6] == '[' {
            let b = skip_ws(s, a + 7);
            lemma_skip_ws(s, a + 7);
            if b < s.len() && s[b] == ':' {
                let w1 = word_end(s, b + 1);
                lemma_word_end(s, b + 1);
                let c = skip_ws(s, w1);
                lemma_skip_ws(s, w1);
                if w1 != b + 1 && c < s.len() && s[c] == ']' {
                    let d = skip_ws(s, c + 1);
                    lemma_skip_ws(s, c + 1);
                }
            }
        }
    }
}

/// The template with every foreign-dialect placeholder from `i` on
/// rewritten into the native `{{field}}` syntax.
pub open spec fn rewrite_from(s: Seq<char>, i: int) -> Seq<char>
    decreases s.len() - i,
    when 0 <= i <= s.len()
    via rewrite_from_decreases
{
    if i >= s.len() {
        Seq::<char>::empty()
    } else {
        match dialect_at(s, i) {
            Some(m) => seq!['{', '{'] + s.subrange(m.0, m.1) + seq!['}', '}'] + rewrite_from(
                s,
                m.2,
            ),
            None => seq![s[i]] + rewrite_from(s, i + 1),
        }
    }
}

#[via_fn]
proof fn rewrite_from_decreases(s: Seq<char>, i: int) {
    lemma_dialect_at(s, i);
}

/// The whole template in the native placeholder syntax.
pub open spec fn rewrite_spec(s: Seq<char>) -> Seq<char> {
    rewrite_from(s, 0)
}

/// A native placeholder `{{field}}` starting at `i`: the field name's
/// start and end, and the match's end.
pub open spec fn placeholder_at(s: Seq<char>, i: int) -> Option<(int, int, int)>
    recommends
        0 <= i <= s.len(),
{
    if !(i + 2 <= s.len() && s[i] == '{' && s[i + 1] == '{') {
        None
    } else {
        let w1 = word_end(s, i + 2);
        if w1 == i + 2 {
            None
        } else if w1 + 2 <= s.len() && s[w1] == '}' && s[w1 + 1] == '}' {
            Some((i + 2, w1, w1 + 2))
        } else {
            None
        }
    }
}

pub proof fn lemma_placeholder_at(s: Seq<char>, i: int)
    requires
        0 <= i <= s.len(),
    ensures
        placeholder_at(s, i) matches Some(m) ==> i < m.0 < m.1 < m.2 <= s.len(),
{
    if i + 2 <= s.len() && s[i] == '{' && s[i + 1] == '{' {
        lemma_word_end(s, i + 2);
    }
}

/// The fixed rendering of a boolean field.
pub open spec fn bool_str(b: bool) -> Seq<char> {
    if b {
        "true"@
    } else {
        "false"@
    }
}

/// The value a field name resolves to in the interpolation context,
/// or `None` for an unknown name.  Every scalar field is addressable;
/// the constant-name parts are structured data and are not.
pub open spec fn lookup_spec(c: InterpolationConfig, key: Seq<char>) -> Option<Seq<char>> {
    if key == "name"@ {
        Some(c.name@)
    } else if key == "title"@ {
        Some(c.title@)
    } else if key == "unprefixed_name"@ {
        Some(c.unprefixed_name@)
    } else if key == "unprefixed_pascal"@ {
        Some(c.unprefixed_pascal@)
    } else if key == "underscored_name"@ {
        Some(c.underscored_name@)
    } else if key == "pascal_name"@ {
        Some(c.pascal_name@)
    } else if key == "camel_name"@ {
        Some(c.camel_name@)
    } else if key == "screamcase_name"@ {
        Some(c.screamcase_name@)
    } else if key == "namespaced_path"@ {
        Some(c.namespaced_path@)
    } else if key == "makefile_path"@ {
        Some(c.makefile_path@)
    } else if key == "constant_name"@ {
        Some(c.constant_name@)
    } else if key == "author"@ {
        Some(c.author@)
    } else if key == "email"@ {
        Some(c.email@)
    } else if key == "git_repo_domain"@ {
        Some(c.git_repo_domain@)
    } else if key == "git_repo_url"@ {
        Some(c.git_repo_url@)
    } else if key == "git_repo_path"@ {
        Some(c.git_repo_path@)
    } else if key == "image_path"@ {
        Some(c.image_path@)
    } else if key == "registry_domain"@ {
        Some(c.registry_domain@)
    } else if key == "registry_repo_path"@ {
        Some(c.registry_repo_path@)
    } else if key == "k8s_domain"@ {
        Some(c.k8s_domain@)
    } else if key == "template"@ {
        Some(c.template@)
    } else if key == "ext"@ {
        Some(c.ext@)
    } else if key == "test"@ {
        Some(bool_str(c.test))
    } else if key == "bin"@ {
        Some(bool_str(c.bin))
    } else {
        None
    }
}

/// The rendering of the template from `i` on: every placeholder
/// replaced by its value, or the name of the first unknown field.
pub open spec fn render_from(s: Seq<char>, i: int, c: InterpolationConfig) -> Result<
    Seq<char>,
    Seq<char>,
>
    decreases s.len() - i,
    when 0 <= i <= s.len()
    via render_from_decreases
{
    if i >= s.len() {
        Ok(Seq::<char>::empty())
    } else {
        match placeholder_at(s, i) {
            Some(m) => {
                let key = s.subrange(m.0, m.1);
                match lookup_spec(c, key) {
                    None => Err(key),
                    Some(v) => match render_from(s, m.2, c) {
                        Ok(rest) => Ok(v + rest),
                        Err(e) => Err(e),
                    },
                }
            },
            None => match render_from(s, i + 1, c) {
                Ok(rest) => Ok(seq![s[i]] + rest),
                Err(e) => Err(e),
            },
        }
    }
}

#[via_fn]
proof fn render_from_decreases(s: Seq<char>, i: int, c: InterpolationConfig) {
    lemma_placeholder_at(s, i);
}

/// The rendering of a whole native-syntax template.
pub open spec fn render_spec(s: Seq<char>, c: InterpolationConfig) -> Result<Seq<char>, Seq<char>> {
    render_from(s, 0, c)
}

/// Both passes: dialect rewrite, then substitution.
pub open spec fn render_template_spec(s: Seq<char>, c: InterpolationConfig) -> Result<
    Seq<char>,
    Seq<char>,
> {
    render_spec(rewrite_spec(s), c)
}

fn is_ws_exec(c: char) -> (r: bool)
    ensures
        r == is_ws(c),
{
    c == ' ' || c == '\t' || c == '\n' || c == '\r'
}

fn is_word_exec(c: char) -> (r: bool)
    ensures
        r == is_word(c),
{
    let u = c as u32;
    (97 <= u && u <= 122) || (65 <= u && u <= 90) || (48 <= u && u <= 57) || u == 95
}

fn skip_ws_exec(s: &Vec<char>, from: usize) -> (j: usize)
    requires
        from <= s@.len(),
    ensures
        j == skip_ws(s@, from as int),
        from <= j <= s@.len(),
{
    proof {
        lemma_skip_ws(s@, from as int);
    }
    let mut j: usize = from;
    while j < s.len()
        invariant
            from <= j <= s@.len(),
            skip_ws(s@, from as int) == skip_ws(s@, j as int),
        decreases s@.len() - j,
    {
        if !is_ws_exec(s[j]) {
            return j;
        }
        j = j + 1;
    }
    j
}

fn word_end_exec(s: &Vec<char>, from: usize) -> (j: usize)
    requires
        from <= s@.len(),
    ensures
        j == word_end(s@, from as int),
        from <= j <= s@.len(),
{
    proof {
        lemma_word_end(s@, from as int);
    }
    let mut j: usize = from;
    while j < s.len()
        invariant
            from <= j <= s@.len(),
            word_end(s@, from as int) == word_end(s@, j as int),
        decreases s@.len() - j,
    {
        if !is_word_exec(s[j]) {
            return j;
        }
        j = j + 1;
    }
    j
}

fn dialect_at_exec(s: &Vec<char>, i: usize) -> (r: Option<(usize, usize, usize)>)
    requires
        i <= s@.len(),
    ensures
        (r is Some <==> dialect_at(s@, i as int) is Some),
        r matches Some(m) ==> dialect_at(s@, i as int) == Some(
            (m.0 as int, m.1 as int, m.2 as int),
        ),
{
    let n = s.len();
    if !(n - i >= 3 && s[i] == '<' && s[i + 1] == '%' && s[i + 2] == '=') {
        return None;
    }
    let a = skip_ws_exec(s, i + 3);
    if !(n - a >= 7 && s[a] == 'c' && s[a + 1] == 'o' && s[a + 2] == 'n' && s[a + 3] == 'f'
        && s[a + 4] == 'i' && s[a + 5] == 'g' && s[a + 6] == '[') {
        return None;
    }
    let b = skip_ws_exec(s, a + 7);
    if !(b < n && s[b] == ':') {
        return None;
    }
    let w1 = word_end_exec(s, b + 1);
    if w1 == b + 1 {
        return None;
    }
    let cpos = skip_ws_exec(s, w1);
    if !(cpos < n && s[cpos] == ']') {
        return None;
    }
    let d = skip_ws_exec(s, cpos + 1);
    if !(n - d >= 2 && s[d] == '%' && s[d + 1] == '>') {
        return None;
    }
    Some((b + 1, w1, d + 2))
}

fn placeholder_at_exec(s: &Vec<char>, i: usize) -> (r: Option<(usize, usize, usize)>)
    requires
        i <= s@.len(),
    ensures
        (r is Some <==> placeholder_at(s@, i as int) is Some),
        r matches Some(m) ==> placeholder_at(s@, i as int) == Some(
            (m.0 as int, m.1 as int, m.2 as int),
        ),
{
    let n = s.len();
    if !(n - i >= 2 && s[i] == '{' && s[i + 1] == '{') {
        return None;
    }
    let w1 = word_end_exec(s, i + 2);
    if w1 == i + 2 {
        return None;
    }
    if n - w1 >= 2 && s[w1] == '}' && s[w1 + 1] == '}' {
        Some((i + 2, w1, w1 + 2))
    } else {
        None
    }
}

/// The dialect rewrite pass, over vectors.
fn rewrite_pass(s: &Vec<char>) -> (r: Vec<char>)
    ensures
        r@ == rewrite_spec(s@),
{
    let mut out: Vec<char> = Vec::new();
    let mut i: usize = 0;
    while i < s.len()
        invariant
            i <= s@.len(),
            rewrite_from(s@, 0) == out@ + rewrite_from(s@, i as int),
        decreases s@.len() - i,
    {
        proof {
            lemma_dialect_at(s@, i as int);
        }
        let ghost out_old = out@;
        let ghost i_old = i as int;
        match dialect_at_exec(s, i) {
            Some(m) => {
                out.push('{');
                out.push('{');
                let ident = subrange_vec(s, m.0, m.1);
                extend_vec(&mut out, &ident);
                out.push('}');
                out.push('}');
                i = m.2;
                proof {
                    let piece = seq!['{', '{'] + s@.subrange(m.0 as int, m.1 as int) + seq![
                        '}',
                        '}',
                    ];
                    assert(out@ =~= out_old + piece);
                    assert(rewrite_from(s@, i_old) == piece + rewrite_from(s@, i as int));
                    assert(out_old + (piece + rewrite_from(s@, i as int)) =~= (out_old + piece)
                        + rewrite_from(s@, i as int));
                }
            },
            None => {
                out.push(s[i]);
                i = i + 1;
                proof {
                    assert(rewrite_from(s@, i_old) == seq![s@[i_old]] + rewrite_from(
                        s@,
                        i as int,
                    ));
                    assert(out@ =~= out_old + seq![s@[i_old]]);
                    assert(out_old + (seq![s@[i_old]] + rewrite_from(s@, i as int)) =~= (out_old
                        + seq![s@[i_old]]) + rewrite_from(s@, i as int));
                }
            },
        }
    }
    proof {
        assert(rewrite_from(s@, i as int) == Seq::<char>::empty());
        assert(out@ + Seq::<char>::empty() =~= out@);
    }
    out
}

/// The value of one field of the context, by name, as characters.
fn lookup_field(c: &InterpolationConfig, key: &Vec<char>) -> (r: Option<Vec<char>>)
    ensures
        (r is Some <==> lookup_spec(*c, key@) is Some),
        r matches Some(v) ==> lookup_spec(*c, key@) == Some(v@),
{
    if vec_eq_str(key, "name") {
        Some(chars_of(c.name.as_str()))
    } else if vec_eq_str(key, "title") {
        Some(chars_of(c.title.as_str()))
    } else if vec_eq_str(key, "unprefixed_name") {
        Some(chars_of(c.unprefixed_name.as_str()))
    } else if vec_eq_str(key, "unprefixed_pascal") {
        Some(chars_of(c.unprefixed_pascal.as_str()))
    } else if vec_eq_str(key, "underscored_name") {
        Some(chars_of(c.underscored_name.as_str()))
    } else if vec_eq_str(key, "pascal_name") {
        Some(chars_of(c.pascal_name.as_str()))
    } else if vec_eq_str(key, "camel_name") {
        Some(chars_of(c.camel_name.as_str()))
    } else if vec_eq_str(key, "screamcase_name") {
        Some(chars_of(c.screamcase_name.as_str()))
    } else if vec_eq_str(key, "namespaced_path") {
        Some(chars_of(c.namespaced_path.as_str()))
    } else if vec_eq_str(key, "makefile_path") {
        Some(chars_of(c.makefile_path.as_str()))
    } else if vec_eq_str(key, "constant_name") {
        Some(chars_of(c.constant_name.as_str()))
    } else if vec_eq_str(key, "author") {
        Some(chars_of(c.author.as_str()))
    } else if vec_eq_str(key, "email") {
        Some(chars_of(c.email.as_str()))
    } else if vec_eq_str(key, "git_repo_domain") {
        Some(chars_of(c.git_repo_domain.as_str()))
    } else if vec_eq_str(key, "git_repo_url") {
        Some(chars_of(c.git_repo_url.as_str()))
    } else if vec_eq_str(key, "git_repo_path") {
        Some(chars_of(c.git_repo_path.as_str()))
    } else if vec_eq_str(key, "image_path") {
        Some(chars_of(c.image_path.as_str()))
    } else if vec_eq_str(key, "registry_domain") {
        Some(chars_of(c.registry_domain.as_str()))
    } else if vec_eq_str(key, "registry_repo_path") {
        Some(chars_of(c.registry_repo_path.as_str()))
    } else if vec_eq_str(key, "k8s_domain") {
        Some(chars_of(c.k8s_domain.as_str()))
    } else if vec_eq_str(key, "template") {
        Some(chars_of(c.template.as_str()))
    } else if vec_eq_str(key, "ext") {
        Some(chars_of(c.ext.as_str()))
    } else if vec_eq_str(key, "test") {
        if c.test {
            Some(chars_of("true"))
        } else {
            Some(chars_of("false"))
        }
    } else if vec_eq_str(key, "bin") {
        if c.bin {
            Some(chars_of("true"))
        } else {
            Some(chars_of("false"))
        }
    } else {
        None
    }
}

/// The substitution pass, over vectors.
fn render_pass(s: &Vec<char>, c: &InterpolationConfig) -> (r: Result<Vec<char>, Vec<char>>)
    ensures
        r matches Ok(v) ==> render_from(s@, 0, *c) == Ok::<Seq<char>, Seq<char>>(v@),
        r matches Err(e) ==> render_from(s@, 0, *c) == Err::<Seq<char>, Seq<char>>(e@),
{
    let mut out: Vec<char> = Vec::new();
    let mut i: usize = 0;
    while i < s.len()
        invariant
            i <= s@.len(),
            render_from(s@, i as int, *c) matches Ok(rest) ==> render_from(s@, 0, *c)
                == Ok::<Seq<char>, Seq<char>>(out@ + rest),
            render_from(s@, i as int, *c) matches Err(e) ==> render_from(s@, 0, *c)
                == Err::<Seq<char>, Seq<char>>(e),
        decreases s@.len() - i,
    {
        proof {
            lemma_placeholder_at(s@, i as int);
        }
        let ghost out_old = out@;
        let ghost i_old = i as int;
        match placeholder_at_exec(s, i) {
            Some(m) => {
                let key = subrange_vec(s, m.0, m.1);
                match lookup_field(c, &key) {
                    Some(v) => {
                        extend_vec(&mut out, &v);
                        i = m.2;
                        proof {
                            let res = render_from(s@, i as int, *c);
                            if res is Ok {
                                let rest = res->Ok_0;
                                assert(render_from(s@, i_old, *c) == Ok::<Seq<char>, Seq<char>>(
                                    v@ + rest,
                                ));
                                assert(out_old + (v@ + rest) =~= (out_old + v@) + rest);
                                assert(render_from(s@, 0, *c) == Ok::<Seq<char>, Seq<char>>(
                                    out_old + (v@ + rest),
                                ));
                                assert(render_from(s@, 0, *c) == Ok::<Seq<char>, Seq<char>>(
                                    out@ + rest,
                                ));
                            } else {
                                let e = res->Err_0;
                                assert(render_from(s@, i_old, *c) == Err::<Seq<char>, Seq<char>>(
                                    e,
                                ));
                            }
                        }
                    },
                    None => {
                        return Err(key);
                    },
                }
            },
            None => {
                out.push(s[i]);
                i = i + 1;
                proof {
                    let res = render_from(s@, i as int, *c);
                    if res is Ok {
                        let rest = res->Ok_0;
                        assert(render_from(s@, i_old, *c) == Ok::<Seq<char>, Seq<char>>(seq![
                            s@[i_old],
                        ] + rest));
                        assert(out_old + (seq![s@[i_old]] + rest) =~= (out_old + seq![
                            s@[i_old],
                        ]) + rest);
                        assert(out@ =~= out_old + seq![s@[i_old]]);
                        assert(render_from(s@, 0, *c) == Ok::<Seq<char>, Seq<char>>(
                            out_old + (seq![s@[i_old]] + rest),
                        ));
                        assert(render_from(s@, 0, *c) == Ok::<Seq<char>, Seq<char>>(
                            out@ + rest,
                        ));
                    } else {
                        let e = res->Err_0;
                        assert(render_from(s@, i_old, *c) == Err::<Seq<char>, Seq<char>>(e));
                    }
                }
            },
        }
    }
    proof {
        assert(render_from(s@, i as int, *c) == Ok::<Seq<char>, Seq<char>>(Seq::<char>::empty()));
        assert(out@ + Seq::<char>::empty() =~= out@);
    }
    Ok(out)
}

/// Renders a template against the interpolation context: the foreign
/// dialect is first rewritten into the native syntax, then every
/// `{{field}}` placeholder is replaced by the field's value.  Fails
/// naming the first unknown field.
pub fn render_template(template: &str, config: &InterpolationConfig) -> (r: Result<String, String>)
    ensures
        r matches Ok(v) ==> render_template_spec(template@, *config) == Ok::<Seq<char>, Seq<char>>(
            v@,
        ),
        r matches Err(e) ==> render_template_spec(template@, *config) == Err::<
            Seq<char>,
            Seq<char>,
        >(e@),
{
    let cs = chars_of(template);
    let native = rewrite_pass(&cs);
    match render_pass(&native, config) {
        Ok(v) => Ok(string_of(v)),
        Err(e) => Err(string_of(e)),
    }
}

} // verus!
