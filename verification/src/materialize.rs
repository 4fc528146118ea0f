//! The materialization planner: destination paths, the never-overwrite
//! rule, rendering, and the import report.
//!
//! The shell walks the selected files in sorted order and, for each,
//! asks for the destination path, checks the filesystem, and hands the
//! file's content in; the decisions — where the file goes, whether it
//! may be written, what bytes it gets — are made and proved here.

use vstd::prelude::*;

use crate::chars::{
    chars_of, ends_with_vec, extend_vec, is_prefix_vec, string_of, subrange_vec, suffix_vec,
};
use crate::interpolation_config::InterpolationConfig;
use crate::template_rendering::{render_template, render_template_spec};

verus! {

/// The marker suffix a template file carries; stripped on
/// materialization.
pub open spec fn marker() -> Seq<char> {
    seq!['.', 't', 't']
}

/// The path with a trailing marker suffix removed, if one is there.
pub open spec fn strip_marker(p: Seq<char>) -> Seq<char> {
    if marker().is_suffix_of(p) {
        p.take(p.len() - 3)
    } else {
        p
    }
}

/// The first position `j >= i` holding `ch`, or the end.
pub open spec fn find_char_from(s: Seq<char>, i: int, ch: char) -> int
    decreases s.len() - i,
    when 0 <= i <= s.len()
{
    if i >= s.len() {
        i
    } else if s[i] == ch {
        i
    } else {
        find_char_from(s, i + 1, ch)
    }
}

pub proof fn lemma_find_char_from(s: Seq<char>, i: int, ch: char)
    requires
        0 <= i <= s.len(),
    ensures
        i <= find_char_from(s, i, ch) <= s.len(),
    decreases s.len() - i,
{
    if i < s.len() && s[i] != ch {
        lemma_find_char_from(s, i + 1, ch);
    }
}

/// The destination path, relative to the working directory, for a
/// selected source file: the path relative to the template root, with
/// the leading template-folder segment dropped and the marker suffix
/// stripped.  `None` when the source does not lie under the root, or
/// lies directly in it with no template-folder segment to drop.
pub open spec fn dest_rel_of(src: Seq<char>, root: Seq<char>) -> Option<Seq<char>> {
    if !(root + seq!['/']).is_prefix_of(src) {
        None
    } else {
        let rel = src.skip((root.len() + 1) as int);
        let k = find_char_from(rel, 0, '/');
        if k >= rel.len() {
            None
        } else {
            Some(strip_marker(rel.skip(k + 1)))
        }
    }
}

fn find_char_exec(s: &Vec<char>, ch: char) -> (j: usize)
    ensures
        j == find_char_from(s@, 0, ch),
        j <= s@.len(),
{
    proof {
        lemma_find_char_from(s@, 0, ch);
    }
    let mut j: usize = 0;
    while j < s.len()
        invariant
            j <= s@.len(),
            find_char_from(s@, 0, ch) == find_char_from(s@, j as int, ch),
        decreases s@.len() - j,
    {
        if s[j] == ch {
            return j;
        }
        j = j + 1;
    }
    j
}

/// The destination path for one selected source file, as
/// [`dest_rel_of`] pins it down.
pub fn destination_of(src: &str, root: &str) -> (r: Option<String>)
    ensures
        (r is Some <==> dest_rel_of(src@, root@) is Some),
        r matches Some(d) ==> dest_rel_of(src@, root@) == Some(d@),
{
    let cs = chars_of(src);
    let mut pre = chars_of(root);
    let root_len = pre.len();
    pre.push('/');
    proof {
        assert(pre@ =~= root@ + seq!['/']);
    }
    if !is_prefix_vec(&cs, &pre) {
        return None;
    }
    let cs_len = cs.len();
    proof {
        assert(pre@.len() == root_len + 1);
        assert(pre@.len() <= cs@.len());
        assert(root_len + 1 <= cs_len);
    }
    let rel = suffix_vec(&cs, root_len + 1);
    let k = find_char_exec(&rel, '/');
    if k >= rel.len() {
        return None;
    }
    let tail = suffix_vec(&rel, k + 1);
    let mut mk: Vec<char> = Vec::new();
    mk.push('.');
    mk.push('t');
    mk.push('t');
    proof {
        assert(mk@ =~= marker());
    }
    if ends_with_vec(&tail, &mk) {
        let stripped = subrange_vec(&tail, 0, tail.len() - 3);
        proof {
            assert(stripped@ =~= strip_marker(tail@));
        }
        Some(string_of(stripped))
    } else {
        Some(string_of(tail))
    }
}

/// The template root under a home directory.
pub fn get_templates_path(home: &str) -> (r: String)
    ensures
        r@ == home@ + "/.dropkick/templates"@,
{
    let mut cs = chars_of(home);
    extend_vec(&mut cs, &chars_of("/.dropkick/templates"));
    string_of(cs)
}

/// A path for display: a leading home directory shortened to `~`.
pub open spec fn clean_path_of(p: Seq<char>, home: Seq<char>) -> Seq<char> {
    if (home + seq!['/']).is_prefix_of(p) {
        seq!['~'] + p.skip(home.len() as int)
    } else if p == home {
        seq!['~']
    } else {
        p
    }
}

/// Shortens a leading home directory to `~`, for the report's
/// per-file progress lines.
pub fn clean_path(path: &str, home: &str) -> (r: String)
    ensures
        r@ == clean_path_of(path@, home@),
{
    let cs = chars_of(path);
    let mut pre = chars_of(home);
    let home_len = pre.len();
    pre.push('/');
    proof {
        assert(pre@ =~= home@ + seq!['/']);
    }
    if is_prefix_vec(&cs, &pre) {
        let mut out: Vec<char> = Vec::new();
        out.push('~');
        let rest = suffix_vec(&cs, home_len);
        extend_vec(&mut out, &rest);
        proof {
            assert(out@ =~= seq!['~'] + path@.skip(home@.len() as int));
        }
        string_of(out)
    } else {
        let hv = chars_of(home);
        if crate::chars::vec_eq_str(&hv, path) {
            proof {
                assert(home@ == path@);
            }
            let mut out: Vec<char> = Vec::new();
            out.push('~');
            proof {
                assert(out@ =~= seq!['~']);
            }
            string_of(out)
        } else {
            string_of(cs)
        }
    }
}

/// What happened to one selected file.
#[derive(Debug)]
pub enum ImportOutcome {
    /// A file already sat at the destination; nothing was written.
    Skipped,
    /// The rendered content to write at the destination.
    Rendered(String),
    /// Rendering failed; the message names the unknown field.
    Failed(String),
}

/// One file's materialization decision.  A pre-existing destination is
/// never overwritten: it is reported skipped, whatever the content;
/// otherwise the content is rendered and either written or reported
/// failed with the unknown field's name.
pub fn import_step(dest_exists: bool, content: &str, config: &InterpolationConfig) -> (r:
    ImportOutcome)
    ensures
        dest_exists ==> r is Skipped,
        !dest_exists ==> (r is Skipped == false),
        !dest_exists && render_template_spec(content@, *config) is Ok ==> (r matches ImportOutcome::Rendered(out)
            && out@ == render_template_spec(content@, *config)->Ok_0),
        !dest_exists && render_template_spec(content@, *config) is Err ==> (r matches ImportOutcome::Failed(m)
            && m@ == render_template_spec(content@, *config)->Err_0),
{
    if dest_exists {
        return ImportOutcome::Skipped;
    }
    match render_template(content, config) {
        Ok(out) => ImportOutcome::Rendered(out),
        Err(msg) => ImportOutcome::Failed(msg),
    }
}

/// How many of the outcomes were actually imported.
pub open spec fn imported_count(s: Seq<ImportOutcome>) -> int
    decreases s.len(),
{
    if s.len() == 0 {
        0
    } else {
        imported_count(s.drop_last()) + if s.last() is Rendered {
            1int
        } else {
            0int
        }
    }
}

/// The summary count of the final report: imported files out of all
/// selected ones.
pub fn count_imported(outcomes: &Vec<ImportOutcome>) -> (n: usize)
    ensures
        n == imported_count(outcomes@),
{
    let mut n: usize = 0;
    let mut i: usize = 0;
    while i < outcomes.len()
        invariant
            i <= outcomes@.len(),
            n <= i,
            n == imported_count(outcomes@.take(i as int)),
        decreases outcomes@.len() - i,
    {
        let imported = match outcomes[i] {
            ImportOutcome::Rendered(_) => true,
            _ => false,
        };
        if imported {
            n = n + 1;
        }
        i = i + 1;
        proof {
            assert(outcomes@.take(i as int).drop_last() =~= outcomes@.take(i - 1));
            assert(outcomes@.take(i as int).last() == outcomes@[i - 1]);
        }
    }
    proof {
        assert(outcomes@.take(outcomes@.len() as int) =~= outcomes@);
    }
    n
}

} // verus!
