//! The directory tree model: an immutable hierarchical view of the
//! template root, filtered by the visibility predicate and sorted by
//! full path for determinism.
//!
//! The shell walks the filesystem once at startup and hands the raw
//! snapshot in as nested [`RawEntry`] values; building the tree —
//! identifiers, filtering, ordering — happens here and is pinned down
//! by the canonical model [`canon_node`].  A missing root becomes a
//! snapshot without children and so an empty tree, not an error.

use vstd::prelude::*;

use crate::chars::{chars_of, ends_with_vec, extend_vec, string_of, vec_eq_str};
use crate::materialize::marker;
use crate::order::{lex_le, str_le};

verus! {

/// What a tree entry is.
#[derive(Clone, Copy, Debug, PartialEq, Eq, Structural)]
pub enum NodeKind {
    Directory,
    File,
}

/// One entry of the raw filesystem snapshot, as the shell read it:
/// unfiltered, in reading order, names only.
#[derive(Debug)]
pub struct RawEntry {
    pub name: String,
    pub kind: NodeKind,
    pub children: Vec<RawEntry>,
}

/// One node of the built tree: a canonical path identifier, a display
/// name, and children sorted by identifier (empty for files).
#[derive(Debug)]
pub struct TreeNode {
    pub id: String,
    pub name: String,
    pub kind: NodeKind,
    pub children: Vec<TreeNode>,
}

/// The mathematical shape of a raw snapshot entry.
pub struct RawModel {
    pub name: Seq<char>,
    pub kind: NodeKind,
    pub children: Seq<RawModel>,
}

/// The mathematical shape of a built tree node.
pub struct NodeModel {
    pub id: Seq<char>,
    pub name: Seq<char>,
    pub kind: NodeKind,
    pub children: Seq<NodeModel>,
}

pub open spec fn raw_model(e: RawEntry) -> RawModel
    decreases e,
{
    RawModel { name: e.name@, kind: e.kind, children: raw_models_of(e.children@) }
}

pub open spec fn raw_models_of(s: Seq<RawEntry>) -> Seq<RawModel>
    decreases s,
{
    if s.len() == 0 {
        Seq::<RawModel>::empty()
    } else {
        raw_models_of(s.drop_last()).push(raw_model(s.last()))
    }
}

pub open spec fn node_model(t: TreeNode) -> NodeModel
    decreases t,
{
    NodeModel { id: t.id@, name: t.name@, kind: t.kind, children: node_models_of(t.children@) }
}

pub open spec fn node_models_of(s: Seq<TreeNode>) -> Seq<NodeModel>
    decreases s,
{
    if s.len() == 0 {
        Seq::<NodeModel>::empty()
    } else {
        node_models_of(s.drop_last()).push(node_model(s.last()))
    }
}

pub proof fn lemma_raw_models_index(s: Seq<RawEntry>)
    ensures
        raw_models_of(s).len() == s.len(),
        forall|k: int| 0 <= k < s.len() ==> raw_models_of(s)[k] == raw_model(s[k]),
    decreases s,
{
    if s.len() > 0 {
        lemma_raw_models_index(s.drop_last());
    }
}

pub proof fn lemma_node_models_index(s: Seq<TreeNode>)
    ensures
        node_models_of(s).len() == s.len(),
        forall|k: int| 0 <= k < s.len() ==> node_models_of(s)[k] == node_model(s[k]),
    decreases s,
{
    if s.len() > 0 {
        lemma_node_models_index(s.drop_last());
    }
}

/// The fixed system entries the tree never shows.
pub open spec fn hidden_name(n: Seq<char>) -> bool {
    n == ".git"@ || n == ".DS_Store"@ || n == "node_modules"@
}

/// The visibility predicate: fixed names are excluded; directories
/// are otherwise always visible; files only when they carry the
/// marker suffix.
pub open spec fn visible_spec(name: Seq<char>, kind: NodeKind) -> bool {
    !hidden_name(name) && (kind is Directory || marker().is_suffix_of(name))
}

/// The identifier of a child: the parent's identifier, a slash, the
/// child's name.
pub open spec fn child_id(pid: Seq<char>, name: Seq<char>) -> Seq<char> {
    pid + seq!['/'] + name
}

/// `x` placed before the first element whose identifier it is at
/// most, everything else kept in order.
pub open spec fn insert_by_id(ms: Seq<NodeModel>, x: NodeModel) -> Seq<NodeModel>
    decreases ms.len(),
{
    if ms.len() == 0 {
        seq![x]
    } else if lex_le(x.id, ms[0].id) {
        seq![x] + ms
    } else {
        seq![ms[0]] + insert_by_id(ms.drop_first(), x)
    }
}

/// The nodes sorted by identifier, by repeated insertion.
pub open spec fn sort_by_id(ms: Seq<NodeModel>) -> Seq<NodeModel>
    decreases ms.len(),
{
    if ms.len() == 0 {
        ms
    } else {
        insert_by_id(sort_by_id(ms.drop_last()), ms.last())
    }
}

/// The canonical built tree of one raw entry with identifier `id`:
/// same name and kind, children the visible raw children, built
/// recursively and sorted by identifier.
pub open spec fn canon_node(id: Seq<char>, r: RawModel) -> NodeModel
    decreases r,
{
    NodeModel { id: id, name: r.name, kind: r.kind, children: sort_by_id(canon_children(id, r.children)) }
}

/// The visible children of a raw entry, in snapshot order, each built
/// canonically under its own identifier.
pub open spec fn canon_children(pid: Seq<char>, rs: Seq<RawModel>) -> Seq<NodeModel>
    decreases rs,
{
    if rs.len() == 0 {
        Seq::<NodeModel>::empty()
    } else {
        canon_children(pid, rs.drop_last()) + if visible_spec(rs.last().name, rs.last().kind) {
            seq![canon_node(child_id(pid, rs.last().name), rs.last())]
        } else {
            Seq::<NodeModel>::empty()
        }
    }
}

/// The identifiers of a node list, in order.
pub open spec fn ids_of(ms: Seq<NodeModel>) -> Seq<Seq<char>> {
    ms.map_values(|m: NodeModel| m.id)
}

proof fn lemma_insert_by_id_props(ms: Seq<NodeModel>, x: NodeModel)
    requires
        crate::order::lex_sorted(ids_of(ms)),
    ensures
        crate::order::lex_sorted(ids_of(insert_by_id(ms, x))),
        insert_by_id(ms, x).to_multiset() == ms.to_multiset().insert(x),
        insert_by_id(ms, x).len() == ms.len() + 1,
    decreases ms.len(),
{
    broadcast use vstd::seq_lib::group_to_multiset_ensures;
    broadcast use vstd::multiset::group_multiset_axioms;

    let r = insert_by_id(ms, x);
    assert(ids_of(ms).len() == ms.len());
    if ms.len() == 0 {
        assert(r =~= Seq::<NodeModel>::empty().push(x));
        assert(ms =~= Seq::<NodeModel>::empty());
        assert(r.to_multiset() =~= ms.to_multiset().insert(x));
        assert(crate::order::lex_sorted(ids_of(r)));
    } else if lex_le(x.id, ms[0].id) {
        assert(r == seq![x] + ms);
        assert(ids_of(r).len() == r.len());
        assert forall|i: int, j: int| 0 <= i < j < r.len() implies lex_le(
            ids_of(r)[i],
            ids_of(r)[j],
        ) by {
            assert(ids_of(r)[i] == r[i].id);
            assert(ids_of(r)[j] == r[j].id);
            if i == 0 {
                if j == 1 {
                    assert(r[j] == ms[0]);
                } else {
                    assert(lex_le(ids_of(ms)[0], ids_of(ms)[j - 1]));
                    crate::order::lemma_lex_trans(x.id, ms[0].id, ms[j - 1].id);
                }
            } else {
                assert(lex_le(ids_of(ms)[i - 1], ids_of(ms)[j - 1]));
            }
        }
        assert(r =~= ms.insert(0, x));
        assert(ms.insert(0, x).to_multiset() == ms.to_multiset().insert(x));
    } else {
        crate::order::lemma_lex_total(x.id, ms[0].id);
        assert(lex_le(ms[0].id, x.id));
        let d = ms.drop_first();
        assert(crate::order::lex_sorted(ids_of(d))) by {
            assert forall|i: int, j: int| 0 <= i < j < d.len() implies lex_le(
                ids_of(d)[i],
                ids_of(d)[j],
            ) by {
                assert(ids_of(d)[i] == d[i].id && d[i] == ms[i + 1]);
                assert(ids_of(d)[j] == d[j].id && d[j] == ms[j + 1]);
                assert(lex_le(ids_of(ms)[i + 1], ids_of(ms)[j + 1]));
            }
        }
        lemma_insert_by_id_props(d, x);
        let inner = insert_by_id(d, x);
        assert(r == seq![ms[0]] + inner);
        assert forall|i: int, j: int| 0 <= i < j < r.len() implies lex_le(
            ids_of(r)[i],
            ids_of(r)[j],
        ) by {
            assert(ids_of(r)[i] == r[i].id);
            assert(ids_of(r)[j] == r[j].id);
            if i == 0 {
                // every element of `inner` is either `x` or an
                // element of `d`; both ids are at least `ms[0].id`
                assert(r[j] == inner[j - 1]);
                assert(inner.contains(inner[j - 1]));
                assert(inner.to_multiset().count(inner[j - 1]) > 0);
                assert(d.to_multiset().insert(x).count(inner[j - 1]) > 0);
                if r[j] == x {
                    assert(lex_le(ms[0].id, x.id));
                } else {
                    assert(d.to_multiset().count(inner[j - 1]) > 0);
                    assert(d.contains(inner[j - 1]));
                    let k = choose|k: int| 0 <= k < d.len() && d[k] == inner[j - 1];
                    assert(lex_le(ids_of(ms)[0], ids_of(ms)[k + 1]));
                }
            } else {
                assert(lex_le(ids_of(inner)[i - 1], ids_of(inner)[j - 1]));
                assert(ids_of(inner)[i - 1] == inner[i - 1].id);
                assert(ids_of(inner)[j - 1] == inner[j - 1].id);
            }
        }
        assert(r.to_multiset() == ms.to_multiset().insert(x)) by {
            assert(r =~= inner.insert(0, ms[0]));
            assert(inner.insert(0, ms[0]).to_multiset() == inner.to_multiset().insert(ms[0]));
            assert(ms =~= d.insert(0, ms[0]));
            assert(d.insert(0, ms[0]).to_multiset() == d.to_multiset().insert(ms[0]));
            assert(inner.to_multiset().insert(ms[0]) =~= d.to_multiset().insert(ms[0]).insert(x));
        }
    }
}

proof fn lemma_sort_by_id_props(ms: Seq<NodeModel>)
    ensures
        crate::order::lex_sorted(ids_of(sort_by_id(ms))),
        sort_by_id(ms).to_multiset() == ms.to_multiset(),
        sort_by_id(ms).len() == ms.len(),
    decreases ms.len(),
{
    broadcast use vstd::seq_lib::group_to_multiset_ensures;

    if ms.len() > 0 {
        lemma_sort_by_id_props(ms.drop_last());
        lemma_insert_by_id_props(sort_by_id(ms.drop_last()), ms.last());
        assert(ms.to_multiset() == ms.drop_last().to_multiset().insert(ms.last())) by {
            assert(ms =~= ms.drop_last().push(ms.last()));
        }
    }
}

/// Law: the children of every built node are sorted by identifier —
/// the full path string — so listings are deterministic.
pub proof fn lemma_canon_children_sorted(id: Seq<char>, r: RawModel)
    ensures
        crate::order::lex_sorted(ids_of(canon_node(id, r).children)),
{
    lemma_sort_by_id_props(canon_children(id, r.children));
}

/// Law: a snapshot without entries — a missing or empty root — builds
/// an empty tree, never an error.
pub proof fn lemma_empty_root(id: Seq<char>, r: RawModel)
    ensures
        r.children.len() == 0 ==> canon_node(id, r).children.len() == 0,
{
    if r.children.len() == 0 {
        assert(canon_children(id, r.children) =~= Seq::<NodeModel>::empty());
    }
}

/// The visibility predicate, executably.
pub fn visible_entry(name: &String, kind: NodeKind) -> (r: bool)
    ensures
        r == visible_spec(name@, kind),
{
    let cs = chars_of(name.as_str());
    if vec_eq_str(&cs, ".git") || vec_eq_str(&cs, ".DS_Store") || vec_eq_str(&cs, "node_modules") {
        return false;
    }
    if matches!(kind, NodeKind::Directory) {
        return true;
    }
    let mut mk: Vec<char> = Vec::new();
    mk.push('.');
    mk.push('t');
    mk.push('t');
    proof {
        assert(mk@ =~= marker());
    }
    ends_with_vec(&cs, &mk)
}

fn make_child_id(pid: &str, name: &String) -> (r: String)
    ensures
        r@ == child_id(pid@, name@),
{
    let mut cs = chars_of(pid);
    cs.push('/');
    extend_vec(&mut cs, &chars_of(name.as_str()));
    proof {
        assert(cs@ =~= child_id(pid@, name@));
    }
    string_of(cs)
}

proof fn lemma_insert_by_id_at(ms: Seq<NodeModel>, x: NodeModel, j: int)
    requires
        0 <= j <= ms.len(),
        forall|k: int| 0 <= k < j ==> !lex_le(x.id, ms[k].id),
        j < ms.len() ==> lex_le(x.id, ms[j].id),
    ensures
        insert_by_id(ms, x) == ms.take(j) + seq![x] + ms.skip(j),
    decreases j,
{
    if j == 0 {
        if ms.len() == 0 {
            assert(insert_by_id(ms, x) =~= ms.take(0) + seq![x] + ms.skip(0));
        } else {
            assert(insert_by_id(ms, x) == seq![x] + ms);
            assert(seq![x] + ms =~= ms.take(0) + seq![x] + ms.skip(0));
        }
    } else {
        assert(!lex_le(x.id, ms[0].id));
        let d = ms.drop_first();
        assert(forall|k: int| 0 <= k < j - 1 ==> d[k] == ms[k + 1] && !lex_le(x.id, d[k].id));
        lemma_insert_by_id_at(d, x, j - 1);
        assert(insert_by_id(ms, x) == seq![ms[0]] + (d.take(j - 1) + seq![x] + d.skip(j - 1)));
        assert(seq![ms[0]] + (d.take(j - 1) + seq![x] + d.skip(j - 1)) =~= ms.take(j) + seq![x]
            + ms.skip(j));
    }
}

fn insert_tree_sorted(v: &mut Vec<TreeNode>, x: TreeNode)
    ensures
        node_models_of(final(v)@) == insert_by_id(node_models_of(old(v)@), node_model(x)),
{
    let mut j: usize = 0;
    let mut found: bool = false;
    while j < v.len() && !found
        invariant
            j <= v@.len(),
            v@ == old(v)@,
            forall|k: int|
                0 <= k < j ==> !lex_le(node_model(x).id, node_models_of(v@)[k].id),
            found ==> j < v@.len() && lex_le(node_model(x).id, node_models_of(v@)[j as int].id),
        decreases v@.len() - j, (if found { 0int } else { 1int }),
    {
        proof {
            lemma_node_models_index(v@);
            assert(node_models_of(v@)[j as int] == node_model(v@[j as int]));
        }
        if str_le(&x.id, &v[j].id) {
            found = true;
        } else {
            j = j + 1;
        }
    }
    proof {
        lemma_node_models_index(v@);
        if !found {
            assert(j == v@.len());
        }
        assert(node_models_of(v@).len() == v@.len());
        lemma_insert_by_id_at(node_models_of(v@), node_model(x), j as int);
    }
    let ghost before = v@;
    v.insert(j, x);
    proof {
        lemma_node_models_index(v@);
        lemma_node_models_index(before);
        let vs_old = node_models_of(before);
        assert(node_models_of(v@) =~= vs_old.take(j as int) + seq![node_model(x)] + vs_old.skip(
            j as int,
        )) by {
            assert(v@ == before.insert(j as int, x));
            assert forall|k: int| 0 <= k < v@.len() implies node_models_of(v@)[k] == (vs_old.take(
                j as int,
            ) + seq![node_model(x)] + vs_old.skip(j as int))[k] by {
                assert(node_models_of(v@)[k] == node_model(v@[k]));
                if k < j {
                    assert(v@[k] == before[k]);
                } else if k == j {
                    assert(v@[k] == x);
                } else {
                    assert(v@[k] == before[k - 1]);
                }
            }
        }
    }
}

/// Builds the tree for one raw entry, under the given identifier:
/// exactly the canonical model — visible children only, each under
/// `id/name`, sorted by identifier.
pub fn build_tree(id: &str, root: &RawEntry) -> (t: TreeNode)
    ensures
        node_model(t) == canon_node(id@, raw_model(*root)),
    decreases *root,
{
    let mut kids: Vec<TreeNode> = Vec::new();
    proof {
        lemma_raw_models_index(root.children@);
        assert(node_models_of(kids@) =~= sort_by_id(
            canon_children(id@, raw_models_of(root.children@).take(0)),
        ));
    }
    let mut i: usize = 0;
    while i < root.children.len()
        invariant
            i <= root.children@.len(),
            raw_models_of(root.children@).len() == root.children@.len(),
            forall|k: int|
                0 <= k < root.children@.len() ==> raw_models_of(root.children@)[k] == raw_model(
                    root.children@[k],
                ),
            node_models_of(kids@) == sort_by_id(
                canon_children(id@, raw_models_of(root.children@).take(i as int)),
            ),
        decreases root.children@.len() - i,
    {
        let ghost rs = raw_models_of(root.children@);
        let entry = &root.children[i];
        if visible_entry(&entry.name, entry.kind) {
            let cid = make_child_id(id, &entry.name);
            let node = build_tree(cid.as_str(), entry);
            let ghost kids_before = node_models_of(kids@);
            insert_tree_sorted(&mut kids, node);
            i = i + 1;
            proof {
                let cur = rs.take(i as int);
                assert(cur.drop_last() =~= rs.take(i - 1));
                assert(cur.last() == rs[i - 1]);
                assert(rs[i - 1] == raw_model(root.children@[i - 1]));
                assert(visible_spec(rs[i - 1].name, rs[i - 1].kind));
                assert(canon_children(id@, cur) == canon_children(id@, rs.take(i - 1)) + seq![
                    canon_node(child_id(id@, rs[i - 1].name), rs[i - 1]),
                ]);
                assert(canon_children(id@, cur).drop_last() =~= canon_children(
                    id@,
                    rs.take(i - 1),
                ));
                assert(canon_children(id@, cur).last() == canon_node(
                    child_id(id@, rs[i - 1].name),
                    rs[i - 1],
                ));
                assert(canon_children(id@, cur).len() > 0);
                assert(sort_by_id(canon_children(id@, cur)) == insert_by_id(
                    sort_by_id(canon_children(id@, rs.take(i - 1))),
                    canon_node(child_id(id@, rs[i - 1].name), rs[i - 1]),
                ));
                assert(node_model(node) == canon_node(child_id(id@, rs[i - 1].name), rs[i - 1]));
            }
        } else {
            i = i + 1;
            proof {
                let cur = rs.take(i as int);
                assert(cur.drop_last() =~= rs.take(i - 1));
                assert(cur.last() == rs[i - 1]);
                assert(rs[i - 1] == raw_model(root.children@[i - 1]));
                assert(!visible_spec(rs[i - 1].name, rs[i - 1].kind));
                assert(canon_children(id@, cur) =~= canon_children(id@, rs.take(i - 1)));
            }
        }
    }
    proof {
        assert(raw_models_of(root.children@).take(root.children@.len() as int) =~= raw_models_of(
            root.children@,
        ));
    }
    let t = TreeNode {
        id: id.to_owned(),
        name: root.name.clone(),
        kind: root.kind,
        children: kids,
    };
    t
}

} // verus!
