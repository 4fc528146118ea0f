//! The browser state machine: two modes — the tree view and the file
//! view — over one tree, one open-set, one cursor and one selection.
//! It consumes one input action at a time and yields a step for the
//! shell to perform; viewing a file is a request to the shell, which
//! reads and highlights the content and hands the styled lines back.

use vstd::prelude::*;

use crate::selection::{toggle_spec, SelectionSet};
use crate::tree::{node_model, node_models_of, NodeKind, NodeModel, TreeNode};

verus! {

/// One rendered line of a viewed file: spans of text, each with a
/// packed RGB colour.
#[derive(Debug, Clone)]
pub struct StyledLine {
    pub spans: Vec<(String, u32)>,
}

/// One visible row of the tree view.
#[derive(Debug)]
pub struct Row {
    pub id: String,
    pub name: String,
    pub kind: NodeKind,
    pub depth: usize,
}

/// The mathematical shape of a visible row.
pub struct RowModel {
    pub id: Seq<char>,
    pub name: Seq<char>,
    pub kind: NodeKind,
    pub depth: int,
}

pub open spec fn row_model(r: Row) -> RowModel {
    RowModel { id: r.id@, name: r.name@, kind: r.kind, depth: r.depth as int }
}

pub open spec fn row_models(s: Seq<Row>) -> Seq<RowModel> {
    s.map_values(|r: Row| row_model(r))
}

/// The rows a node contributes: its own row and, when it is an open
/// directory, the rows of its children, one level deeper.
pub open spec fn rows_of_node(n: NodeModel, open: Set<Seq<char>>, depth: int) -> Seq<RowModel>
    decreases n,
{
    seq![RowModel { id: n.id, name: n.name, kind: n.kind, depth: depth }] + if n.kind
        is Directory && open.contains(n.id) {
        rows_of(n.children, open, depth + 1)
    } else {
        Seq::<RowModel>::empty()
    }
}

/// The rows of a node list, in order.
pub open spec fn rows_of(ns: Seq<NodeModel>, open: Set<Seq<char>>, depth: int) -> Seq<RowModel>
    decreases ns,
{
    if ns.len() == 0 {
        Seq::<RowModel>::empty()
    } else {
        rows_of(ns.drop_last(), open, depth) + rows_of_node(ns.last(), open, depth)
    }
}

/// The two modes of the browser.
#[derive(Debug)]
pub enum Mode {
    TreeView,
    FileView { path: String, lines: Vec<StyledLine>, scroll: usize },
}

/// One discrete input, as the shell maps a key press.
#[derive(Debug, Clone, Copy, PartialEq, Eq, Structural)]
pub enum InputAction {
    Up,
    Down,
    Left,
    Right,
    Toggle,
    Back,
    Quit,
    Export,
}

/// What the shell must do after a step.
#[derive(Debug)]
pub enum Step {
    /// Keep looping.
    Continue,
    /// Leave without exporting.
    Quit,
    /// Leave and materialize the selection.
    Export,
    /// Read the file with this identifier and, if it is text, hand
    /// its highlighted lines back through `enter_file_view`; if it is
    /// binary, do nothing.
    ViewFile(String),
}

/// The browser state.
pub struct BrowserState {
    pub tree: TreeNode,
    pub open: SelectionSet,
    pub cursor: usize,
    pub selection: SelectionSet,
    pub mode: Mode,
}

/// The cursor after a step down: one row further, never past the end.
pub open spec fn cursor_down(rows_len: int, cursor: int) -> int {
    if cursor + 1 < rows_len {
        cursor + 1
    } else {
        cursor
    }
}

/// The cursor after a step up: one row back, never before the start.
pub open spec fn cursor_up(cursor: int) -> int {
    if cursor > 0 {
        cursor - 1
    } else {
        0
    }
}

/// The largest scroll offset: content length beyond the viewport.
pub open spec fn max_scroll(total: int, viewport: int) -> int {
    if total > viewport {
        total - viewport
    } else {
        0
    }
}

/// The scroll offset after one step down, capped at the bottom.
pub open spec fn scroll_down_spec(scroll: int, viewport: int, total: int) -> int {
    if scroll + 1 <= max_scroll(total, viewport) {
        scroll + 1
    } else {
        max_scroll(total, viewport)
    }
}

/// The scroll offset after one step up, floored at the top.
pub open spec fn scroll_up_spec(scroll: int) -> int {
    if scroll > 0 {
        scroll - 1
    } else {
        0
    }
}

/// The scroll position indicator of the file view.
pub enum ScrollIndicator {
    Empty,
    Top,
    Bottom,
    Percent(usize),
}

/// The indicator shown for a scroll state: `Empty` without lines,
/// `Top` at offset zero, `Bottom` once the window reaches the end,
/// else a percentage of the way through.
pub open spec fn indicator_spec(scroll: int, viewport: int, total: int) -> ScrollIndicator {
    if total == 0 {
        ScrollIndicator::Empty
    } else if scroll == 0 {
        ScrollIndicator::Top
    } else if scroll + viewport >= total {
        ScrollIndicator::Bottom
    } else {
        ScrollIndicator::Percent((((scroll + viewport / 2) * 100) / total) as usize)
    }
}

/// Law: once the window reaches the last line, the indicator reads
/// `Bottom` (except at offset zero, where `Top` still wins), and a
/// further step down moves nothing.
pub proof fn lemma_scrolled_to_bottom(scroll: int, viewport: int, total: int)
    requires
        scroll + viewport >= total,
        0 <= scroll <= max_scroll(total, viewport),
        0 <= viewport,
    ensures
        scroll > 0 && total > 0 ==> indicator_spec(scroll, viewport, total)
            is Bottom,
        scroll_down_spec(scroll, viewport, total) == scroll,
{
}

/// The first row index holding `id`; the row count when none does.
pub open spec fn find_row(rows: Seq<RowModel>, i: int, id: Seq<char>) -> int
    decreases rows.len() - i,
    when 0 <= i <= rows.len()
{
    if i >= rows.len() {
        i
    } else if rows[i].id == id {
        i
    } else {
        find_row(rows, i + 1, id)
    }
}

proof fn lemma_find_row(rows: Seq<RowModel>, i: int, id: Seq<char>)
    requires
        0 <= i <= rows.len(),
    ensures
        i <= find_row(rows, i, id) <= rows.len(),
    decreases rows.len() - i,
{
    if i < rows.len() && rows[i].id != id {
        lemma_find_row(rows, i + 1, id);
    }
}

/// The position after the last `/` of `id`; zero when there is none.
pub open spec fn last_slash_end(id: Seq<char>) -> int
    decreases id.len(),
{
    if id.len() == 0 {
        0
    } else if id.last() == '/' {
        id.len() as int
    } else {
        last_slash_end(id.drop_last())
    }
}

/// The identifier of the parent node: everything before the last `/`.
pub open spec fn parent_of(id: Seq<char>) -> Seq<char> {
    if last_slash_end(id) > 0 {
        id.take(last_slash_end(id) - 1)
    } else {
        Seq::<char>::empty()
    }
}

proof fn lemma_last_slash_end(id: Seq<char>)
    ensures
        0 <= last_slash_end(id) <= id.len(),
    decreases id.len(),
{
    if id.len() > 0 && id.last() != '/' {
        lemma_last_slash_end(id.drop_last());
    }
}

/// The selection toggle the browser applies: only a file row flips.
pub open spec fn toggle_row(rows: Seq<RowModel>, cursor: int, sel: Set<Seq<char>>) -> Set<
    Seq<char>,
> {
    if 0 <= cursor < rows.len() && rows[cursor].kind is File {
        toggle_spec(sel, rows[cursor].id)
    } else {
        sel
    }
}

/// The open-set after a step right: a directory row is expanded.
pub open spec fn expand_open(rows: Seq<RowModel>, cursor: int, open: Set<Seq<char>>) -> Set<
    Seq<char>,
> {
    if 0 <= cursor < rows.len() && rows[cursor].kind is Directory {
        open.insert(rows[cursor].id)
    } else {
        open
    }
}

/// The file the shell is asked to show on a step right: a file row.
pub open spec fn view_request(rows: Seq<RowModel>, cursor: int) -> Option<Seq<char>> {
    if 0 <= cursor < rows.len() && rows[cursor].kind is File {
        Some(rows[cursor].id)
    } else {
        None
    }
}

/// The open-set and cursor after a step left: an open directory row
/// collapses in place; any other row collapses its parent and moves
/// the cursor to it, or to the first row when the parent is not shown
/// (the row sat at the top level) — never an empty selection.
pub open spec fn move_left_result(ns: Seq<NodeModel>, open: Set<Seq<char>>, cursor: int) -> (
    Set<Seq<char>>,
    int,
) {
    let rows = rows_of(ns, open, 0);
    if 0 <= cursor < rows.len() {
        let row = rows[cursor];
        if row.kind is Directory && open.contains(row.id) {
            (open.remove(row.id), cursor)
        } else {
            let pid = parent_of(row.id);
            let open2 = open.remove(pid);
            let rows2 = rows_of(ns, open2, 0);
            let k = find_row(rows2, 0, pid);
            if k < rows2.len() {
                (open2, k)
            } else {
                (open2, 0)
            }
        }
    } else {
        (open, 0)
    }
}

/// The open-set of a fresh browser: the first root entry auto-opened
/// when it is a directory.
pub open spec fn initial_open(m: NodeModel) -> Set<Seq<char>> {
    if m.children.len() > 0 && m.children[0].kind is Directory {
        Set::<Seq<char>>::empty().insert(m.children[0].id)
    } else {
        Set::<Seq<char>>::empty()
    }
}

proof fn lemma_row_models_push(s: Seq<Row>, x: Row)
    ensures
        row_models(s.push(x)) == row_models(s).push(row_model(x)),
{
    assert(row_models(s.push(x)) =~= row_models(s).push(row_model(x)));
}

fn collect_rows(nodes: &Vec<TreeNode>, open: &SelectionSet, depth: usize, out: &mut Vec<Row>)
    requires
        depth <= old(out)@.len(),
    ensures
        row_models(final(out)@) == row_models(old(out)@) + rows_of(
            node_models_of(nodes@),
            open.sel(),
            depth as int,
        ),
        final(out)@.len() >= old(out)@.len(),
    decreases nodes@,
{
    proof {
        crate::tree::lemma_node_models_index(nodes@);
    }
    let ghost base = out@;
    let ghost ns = node_models_of(nodes@);
    let mut i: usize = 0;
    proof {
        assert(rows_of(ns.take(0), open.sel(), depth as int) =~= Seq::<RowModel>::empty());
        assert(row_models(out@) =~= row_models(base) + rows_of(
            ns.take(0),
            open.sel(),
            depth as int,
        ));
    }
    while i < nodes.len()
        invariant
            i <= nodes@.len(),
            depth <= base.len(),
            base.len() <= out@.len(),
            ns == node_models_of(nodes@),
            ns.len() == nodes@.len(),
            forall|k: int| 0 <= k < nodes@.len() ==> ns[k] == node_model(nodes@[k]),
            row_models(out@) == row_models(base) + rows_of(
                ns.take(i as int),
                open.sel(),
                depth as int,
            ),
        decreases nodes@.len() - i,
    {
        let node = &nodes[i];
        let ghost out_pre = out@;
        let row = Row {
            id: node.id.clone(),
            name: node.name.clone(),
            kind: node.kind,
            depth,
        };
        proof {
            assert(row_model(row) == RowModel {
                id: ns[i as int].id,
                name: ns[i as int].name,
                kind: ns[i as int].kind,
                depth: depth as int,
            });
        }
        out.push(row);
        proof {
            lemma_row_models_push(out_pre, row);
        }
        let is_open_dir = match node.kind {
            NodeKind::Directory => open.contains(node.id.as_str()),
            NodeKind::File => false,
        };
        let ghost out_mid = out@;
        if is_open_dir {
            let grown = out.len();
            proof {
                assert(decreases_to!(nodes@ => nodes@[i as int].children@));
                assert(depth < grown);
            }
            collect_rows(&node.children, open, depth + 1, out);
        }
        i = i + 1;
        proof {
            let o = open.sel();
            let d = depth as int;
            let cur = ns.take(i as int);
            assert(cur.drop_last() =~= ns.take(i - 1));
            assert(cur.last() == ns[i - 1]);
            assert(rows_of(cur, o, d) == rows_of(ns.take(i - 1), o, d) + rows_of_node(
                ns[i - 1],
                o,
                d,
            ));
            let own = seq![
                RowModel {
                    id: ns[i - 1].id,
                    name: ns[i - 1].name,
                    kind: ns[i - 1].kind,
                    depth: d,
                },
            ];
            assert(row_models(out_mid) =~= row_models(out_pre) + own);
            if is_open_dir {
                assert(ns[i - 1].kind is Directory && o.contains(ns[i - 1].id));
                assert(rows_of_node(ns[i - 1], o, d) == own + rows_of(
                    ns[i - 1].children,
                    o,
                    d + 1,
                ));
                assert(ns[i - 1].children == node_models_of(nodes@[i - 1].children@));
                assert(row_models(out@) == row_models(out_mid) + rows_of(
                    ns[i - 1].children,
                    o,
                    d + 1,
                ));
                assert(row_models(base) + rows_of(ns.take(i - 1), o, d) + own + rows_of(
                    ns[i - 1].children,
                    o,
                    d + 1,
                ) =~= row_models(base) + rows_of(cur, o, d));
                assert(row_models(out@) =~= row_models(base) + rows_of(cur, o, d));
            } else {
                assert(rows_of_node(ns[i - 1], o, d) =~= own);
                assert(row_models(base) + rows_of(ns.take(i - 1), o, d) + own =~= row_models(
                    base,
                ) + rows_of(cur, o, d));
                assert(row_models(out@) =~= row_models(base) + rows_of(cur, o, d));
            }
        }
    }
    proof {
        assert(ns.take(ns.len() as int) =~= ns);
    }
}

impl BrowserState {
    /// The visible rows of this state's tree under its open-set.
    pub open spec fn rows(&self) -> Seq<RowModel> {
        rows_of(node_model(self.tree).children, self.open.sel(), 0)
    }

    /// Both identifier sets keep each identifier once.
    pub open spec fn wf(&self) -> bool {
        self.open.wf() && self.selection.wf()
    }

    /// A fresh browser over a built tree: tree view, cursor on the
    /// first row, nothing selected, the first root entry auto-opened
    /// when it is a directory.
    pub fn new(tree: TreeNode) -> (r: Self)
        ensures
            r.wf(),
            r.tree == tree,
            r.cursor == 0,
            r.selection.sel() == Set::<Seq<char>>::empty(),
            r.open.sel() == initial_open(node_model(tree)),
            r.mode is TreeView,
    {
        proof {
            crate::tree::lemma_node_models_index(tree.children@);
        }
        let mut open = SelectionSet::new();
        if tree.children.len() > 0 {
            let first_is_dir = match tree.children[0].kind {
                NodeKind::Directory => true,
                NodeKind::File => false,
            };
            if first_is_dir {
                open.toggle(tree.children[0].id.as_str());
                proof {
                    assert(node_model(tree).children[0] == node_model(tree.children@[0]));
                }
            }
        }
        BrowserState {
            tree,
            open,
            cursor: 0,
            selection: SelectionSet::new(),
            mode: Mode::TreeView,
        }
    }

    /// The render model of the tree view: the visible rows, in order.
    pub fn visible_rows(&self) -> (r: Vec<Row>)
        ensures
            row_models(r@) == self.rows(),
    {
        let mut out: Vec<Row> = Vec::new();
        proof {
            assert(row_models(out@) =~= Seq::<RowModel>::empty());
        }
        collect_rows(&self.tree.children, &self.open, 0, &mut out);
        proof {
            assert(Seq::<RowModel>::empty() + self.rows() =~= self.rows());
            assert(node_models_of(self.tree.children@) == node_model(self.tree).children);
        }
        out
    }

    /// One row down, never past the last row.
    pub fn move_down(&mut self)
        requires
            old(self).wf(),
        ensures
            final(self).wf(),
            final(self).tree == old(self).tree,
            final(self).open == old(self).open,
            final(self).selection == old(self).selection,
            final(self).mode == old(self).mode,
            final(self).cursor == cursor_down(old(self).rows().len() as int, old(self).cursor as int),
    {
        let rows = self.visible_rows();
        proof {
            assert(row_models(rows@).len() == rows@.len());
        }
        if self.cursor < rows.len() && rows.len() - self.cursor > 1 {
            self.cursor = self.cursor + 1;
        }
    }

    /// One row up, never before the first row.
    pub fn move_up(&mut self)
        requires
            old(self).wf(),
        ensures
            final(self).wf(),
            final(self).tree == old(self).tree,
            final(self).open == old(self).open,
            final(self).selection == old(self).selection,
            final(self).mode == old(self).mode,
            final(self).cursor == cursor_up(old(self).cursor as int),
    {
        if self.cursor > 0 {
            self.cursor = self.cursor - 1;
        }
    }

    /// Flips selection of the file under the cursor; directories are
    /// untouched.
    pub fn toggle_selected(&mut self)
        requires
            old(self).wf(),
        ensures
            final(self).wf(),
            final(self).tree == old(self).tree,
            final(self).open == old(self).open,
            final(self).mode == old(self).mode,
            final(self).cursor == old(self).cursor,
            final(self).selection.sel() == toggle_row(
                old(self).rows(),
                old(self).cursor as int,
                old(self).selection.sel(),
            ),
    {
        let rows = self.visible_rows();
        proof {
            assert(row_models(rows@).len() == rows@.len());
        }
        if self.cursor < rows.len() {
            let is_file = match rows[self.cursor].kind {
                NodeKind::File => true,
                NodeKind::Directory => false,
            };
            proof {
                assert(row_models(rows@)[self.cursor as int] == row_model(
                    rows@[self.cursor as int],
                ));
            }
            if is_file {
                self.selection.toggle(rows[self.cursor].id.as_str());
            }
        }
    }

    /// A step right: expands the directory under the cursor, or asks
    /// the shell to show the file under it.
    pub fn expand_or_view(&mut self) -> (r: Option<String>)
        requires
            old(self).wf(),
        ensures
            final(self).wf(),
            final(self).tree == old(self).tree,
            final(self).selection == old(self).selection,
            final(self).mode == old(self).mode,
            final(self).cursor == old(self).cursor,
            final(self).open.sel() == expand_open(
                old(self).rows(),
                old(self).cursor as int,
                old(self).open.sel(),
            ),
            (r is Some <==> view_request(old(self).rows(), old(self).cursor as int) is Some),
            r matches Some(p) ==> view_request(old(self).rows(), old(self).cursor as int) == Some(
                p@,
            ),
    {
        let rows = self.visible_rows();
        proof {
            assert(row_models(rows@).len() == rows@.len());
        }
        if self.cursor < rows.len() {
            proof {
                assert(row_models(rows@)[self.cursor as int] == row_model(
                    rows@[self.cursor as int],
                ));
            }
            let row = &rows[self.cursor];
            match row.kind {
                NodeKind::Directory => {
                    if !self.open.contains(row.id.as_str()) {
                        self.open.toggle(row.id.as_str());
                    } else {
                        proof {
                            assert(old(self).open.sel().insert(row.id@) =~= old(self).open.sel());
                        }
                    }
                    None
                },
                NodeKind::File => Some(row.id.clone()),
            }
        } else {
            None
        }
    }

    /// A step left: collapses the open directory under the cursor, or
    /// collapses the parent and moves the cursor to it; a top-level
    /// row falls back to the first row.
    pub fn move_left(&mut self)
        requires
            old(self).wf(),
        ensures
            final(self).wf(),
            final(self).tree == old(self).tree,
            final(self).selection == old(self).selection,
            final(self).mode == old(self).mode,
            final(self).open.sel() == move_left_result(
                node_model(old(self).tree).children,
                old(self).open.sel(),
                old(self).cursor as int,
            ).0,
            final(self).cursor as int == move_left_result(
                node_model(old(self).tree).children,
                old(self).open.sel(),
                old(self).cursor as int,
            ).1,
    {
        let rows = self.visible_rows();
        proof {
            assert(row_models(rows@).len() == rows@.len());
        }
        if self.cursor >= rows.len() {
            self.cursor = 0;
            return ;
        }
        proof {
            assert(row_models(rows@)[self.cursor as int] == row_model(rows@[self.cursor as int]));
        }
        let row = &rows[self.cursor];
        let is_dir = match row.kind {
            NodeKind::Directory => true,
            NodeKind::File => false,
        };
        if is_dir && self.open.contains(row.id.as_str()) {
            self.open.toggle(row.id.as_str());
            return ;
        }
        let pid = parent_string(&row.id);
        if self.open.contains(pid.as_str()) {
            self.open.toggle(pid.as_str());
        } else {
            proof {
                assert(old(self).open.sel().remove(pid@) =~= old(self).open.sel());
            }
        }
        let rows2 = self.visible_rows();
        proof {
            assert(row_models(rows2@).len() == rows2@.len());
        }
        match find_row_exec(&rows2, pid.as_str()) {
            Some(k) => {
                self.cursor = k;
            },
            None => {
                self.cursor = 0;
            },
        }
    }

    /// Enters the file view the shell prepared: path, highlighted
    /// lines, scrolled to the top.
    pub fn enter_file_view(&mut self, path: String, lines: Vec<StyledLine>)
        requires
            old(self).wf(),
        ensures
            final(self).wf(),
            final(self).tree == old(self).tree,
            final(self).open == old(self).open,
            final(self).selection == old(self).selection,
            final(self).cursor == old(self).cursor,
            final(self).mode matches Mode::FileView { path: p, lines: l, scroll } && p == path
                && l == lines && scroll == 0,
    {
        self.mode = Mode::FileView { path, lines, scroll: 0 };
    }

    /// Leaves the file view, discarding the cached content.
    pub fn back_to_tree(&mut self)
        requires
            old(self).wf(),
        ensures
            final(self).wf(),
            final(self).tree == old(self).tree,
            final(self).open == old(self).open,
            final(self).selection == old(self).selection,
            final(self).cursor == old(self).cursor,
            final(self).mode is TreeView,
    {
        self.mode = Mode::TreeView;
    }

    /// One line down in the file view, capped at the bottom for the
    /// given viewport height; outside the file view nothing changes.
    pub fn scroll_down(&mut self, viewport: usize)
        requires
            old(self).wf(),
        ensures
            final(self).wf(),
            final(self).tree == old(self).tree,
            final(self).open == old(self).open,
            final(self).selection == old(self).selection,
            final(self).cursor == old(self).cursor,
            old(self).mode matches Mode::FileView { path, lines, scroll } ==> (final(self).mode
                matches Mode::FileView { path: p2, lines: l2, scroll: s2 } && p2 == path && l2
                == lines && s2 as int == scroll_down_spec(
                scroll as int,
                viewport as int,
                lines@.len() as int,
            )),
            old(self).mode is TreeView ==> final(self).mode is TreeView,
    {
        match &mut self.mode {
            Mode::FileView { path: _, lines, scroll } => {
                let total = lines.len();
                let cap = if total > viewport {
                    total - viewport
                } else {
                    0
                };
                if *scroll < cap {
                    *scroll = *scroll + 1;
                } else {
                    *scroll = cap;
                }
            },
            Mode::TreeView => {},
        }
    }

    /// One line up in the file view, floored at the top; outside the
    /// file view nothing changes.
    pub fn scroll_up(&mut self)
        requires
            old(self).wf(),
        ensures
            final(self).wf(),
            final(self).tree == old(self).tree,
            final(self).open == old(self).open,
            final(self).selection == old(self).selection,
            final(self).cursor == old(self).cursor,
            old(self).mode matches Mode::FileView { path, lines, scroll } ==> (final(self).mode
                matches Mode::FileView { path: p2, lines: l2, scroll: s2 } && p2 == path && l2
                == lines && s2 as int == scroll_up_spec(scroll as int)),
            old(self).mode is TreeView ==> final(self).mode is TreeView,
    {
        match &mut self.mode {
            Mode::FileView { path: _, lines: _, scroll } => {
                if *scroll > 0 {
                    *scroll = *scroll - 1;
                }
            },
            Mode::TreeView => {},
        }
    }

    /// The scroll indicator of the file view for a viewport height;
    /// `Empty` outside the file view (nothing is shown).
    pub fn indicator(&self, viewport: usize) -> (r: ScrollIndicator)
        ensures
            self.mode matches Mode::FileView { path, lines, scroll } ==> r == indicator_spec(
                scroll as int,
                viewport as int,
                lines@.len() as int,
            ),
            self.mode is TreeView ==> r is Empty,
    {
        match &self.mode {
            Mode::FileView { path: _, lines, scroll } => {
                let total = lines.len();
                if total == 0 {
                    ScrollIndicator::Empty
                } else if *scroll == 0 {
                    ScrollIndicator::Top
                } else if *scroll >= total || viewport >= total - *scroll {
                    ScrollIndicator::Bottom
                } else {
                    let s = *scroll as u128;
                    let v = viewport as u128;
                    let t = total as u128;
                    let half = v / 2;
                    proof {
                        assert((s as int) + (half as int) < (t as int));
                    }
                    let num = (s + half) * 100;
                    proof {
                        assert(((s as int) + (half as int)) * 100 < (t as int) * 100)
                            by (nonlinear_arith)
                            requires
                                (s as int) + (half as int) < (t as int),
                                (t as int) >= 1,
                        ;
                    }
                    let p = num / t;
                    proof {
                        assert((num as int) / (t as int) < 100) by (nonlinear_arith)
                            requires
                                (num as int) < (t as int) * 100,
                                (t as int) >= 1,
                        ;
                        assert(p as int == ((*scroll as int + (viewport as int) / 2) * 100) / (
                        total as int));
                    }
                    ScrollIndicator::Percent(p as usize)
                }
            },
            Mode::TreeView => ScrollIndicator::Empty,
        }
    }
}

/// Two browser states that agree on every component.
pub open spec fn eq_state(a: BrowserState, b: BrowserState) -> bool {
    &&& a.tree == b.tree
    &&& a.open == b.open
    &&& a.cursor == b.cursor
    &&& a.selection == b.selection
    &&& a.mode == b.mode
}

impl BrowserState {
    /// Consumes one input action: in the tree view the arrows move
    /// the cursor, expand, collapse and re-select; in the file view
    /// the arrows scroll and a step left or back returns to the tree.
    /// Quit and export end the loop in either mode; a step right on a
    /// file asks the shell for its content.
    pub fn handle_action(&mut self, action: InputAction, viewport: usize) -> (r: Step)
        requires
            old(self).wf(),
        ensures
            final(self).wf(),
            final(self).tree == old(self).tree,
            action is Quit ==> (r is Quit && eq_state(*final(self), *old(self))),
            action is Export ==> (r is Export && eq_state(*final(self), *old(self))),
            old(self).mode is TreeView && action is Up ==> (r is Continue && final(self).mode
                == old(self).mode && final(self).open == old(self).open && final(self).selection
                == old(self).selection && final(self).cursor == cursor_up(old(self).cursor as int)),
            old(self).mode is TreeView && action is Down ==> (r is Continue && final(self).mode
                == old(self).mode && final(self).open == old(self).open && final(self).selection
                == old(self).selection && final(self).cursor == cursor_down(
                old(self).rows().len() as int,
                old(self).cursor as int,
            )),
            old(self).mode is TreeView && action is Toggle ==> (r is Continue && final(self).mode
                == old(self).mode && final(self).open == old(self).open && final(self).cursor
                == old(self).cursor && final(self).selection.sel() == toggle_row(
                old(self).rows(),
                old(self).cursor as int,
                old(self).selection.sel(),
            )),
            old(self).mode is TreeView && action is Right ==> (final(self).mode == old(self).mode
                && final(self).selection == old(self).selection && final(self).cursor == old(self).cursor && final(self).open.sel() == expand_open(
                old(self).rows(),
                old(self).cursor as int,
                old(self).open.sel(),
            ) && (match view_request(old(self).rows(), old(self).cursor as int) {
                Some(p) => r matches Step::ViewFile(q) && q@ == p,
                None => r is Continue,
            })),
            old(self).mode is TreeView && action is Left ==> (r is Continue && final(self).mode
                == old(self).mode && final(self).selection == old(self).selection && final(self).open.sel() == move_left_result(
                node_model(old(self).tree).children,
                old(self).open.sel(),
                old(self).cursor as int,
            ).0 && final(self).cursor as int == move_left_result(
                node_model(old(self).tree).children,
                old(self).open.sel(),
                old(self).cursor as int,
            ).1),
            old(self).mode is TreeView && action is Back ==> (r is Continue && eq_state(
                *final(self),
                *old(self),
            )),
            old(self).mode is FileView && (action is Up || action is Down) ==> (r is Continue
                && final(self).open == old(self).open && final(self).selection == old(self).selection && final(self).cursor == old(self).cursor),
            old(self).mode matches Mode::FileView { path, lines, scroll } ==> (action is Up
                ==> (final(self).mode matches Mode::FileView { path: p2, lines: l2, scroll: s2 }
                && p2 == path && l2 == lines && s2 as int == scroll_up_spec(scroll as int))),
            old(self).mode matches Mode::FileView { path, lines, scroll } ==> (action is Down
                ==> (final(self).mode matches Mode::FileView { path: p2, lines: l2, scroll: s2 }
                && p2 == path && l2 == lines && s2 as int == scroll_down_spec(
                scroll as int,
                viewport as int,
                lines@.len() as int,
            ))),
            old(self).mode is FileView && (action is Left || action is Back) ==> (r is Continue
                && final(self).mode is TreeView && final(self).open == old(self).open && final(self).selection == old(self).selection && final(self).cursor == old(self).cursor),
            old(self).mode is FileView && (action is Right || action is Toggle) ==> (r
                is Continue && eq_state(*final(self), *old(self))),
    {
        let in_tree = match self.mode {
            Mode::TreeView => true,
            Mode::FileView { .. } => false,
        };
        match action {
            InputAction::Quit => Step::Quit,
            InputAction::Export => Step::Export,
            InputAction::Up => {
                if in_tree {
                    self.move_up();
                } else {
                    self.scroll_up();
                }
                Step::Continue
            },
            InputAction::Down => {
                if in_tree {
                    self.move_down();
                } else {
                    self.scroll_down(viewport);
                }
                Step::Continue
            },
            InputAction::Left => {
                if in_tree {
                    self.move_left();
                } else {
                    self.back_to_tree();
                }
                Step::Continue
            },
            InputAction::Right => {
                if in_tree {
                    match self.expand_or_view() {
                        Some(p) => Step::ViewFile(p),
                        None => Step::Continue,
                    }
                } else {
                    Step::Continue
                }
            },
            InputAction::Toggle => {
                if in_tree {
                    self.toggle_selected();
                }
                Step::Continue
            },
            InputAction::Back => {
                if !in_tree {
                    self.back_to_tree();
                }
                Step::Continue
            },
        }
    }
}

/// The label of one tree-view row: a file is prefixed with a checkbox
/// glyph reflecting its selection; a directory is unprefixed.
pub open spec fn row_label_spec(name: Seq<char>, kind: NodeKind, selected: bool) -> Seq<char> {
    if kind is File {
        (if selected {
            "[x] "@
        } else {
            "[ ] "@
        }) + name
    } else {
        name
    }
}

/// The window of the file view: the first and one-past-last line
/// index shown for a scroll offset and viewport height, and how many
/// filler rows pad the viewport past the end of the file.
pub fn window_bounds(scroll: usize, viewport: usize, total: usize) -> (r: (usize, usize, usize))
    ensures
        r.0 as int == if scroll < total {
            scroll as int
        } else {
            total as int
        },
        r.1 as int == if scroll + viewport < total {
            scroll + viewport
        } else {
            total as int
        },
        r.0 <= r.1 <= total,
        r.1 - r.0 <= viewport,
        r.2 == viewport - (r.1 - r.0),
{
    let start = if scroll < total {
        scroll
    } else {
        total
    };
    let rem = total - start;
    let shown = if viewport < rem {
        viewport
    } else {
        rem
    };
    (start, start + shown, viewport - shown)
}

/// The label of one row, as the render model shows it.
pub fn row_label(row: &Row, selected: bool) -> (r: String)
    ensures
        r@ == row_label_spec(row.name@, row.kind, selected),
{
    let name = crate::chars::chars_of(row.name.as_str());
    match row.kind {
        NodeKind::File => {
            let mut out = crate::chars::chars_of(if selected {
                "[x] "
            } else {
                "[ ] "
            });
            crate::chars::extend_vec(&mut out, &name);
            crate::chars::string_of(out)
        },
        NodeKind::Directory => crate::chars::string_of(name),
    }
}

fn parent_string(id: &String) -> (r: String)
    ensures
        r@ == parent_of(id@),
{
    proof {
        lemma_last_slash_end(id@);
    }
    let cs = crate::chars::chars_of(id.as_str());
    let e = last_slash_end_exec(&cs);
    if e > 0 {
        crate::chars::string_of(crate::chars::subrange_vec(&cs, 0, e - 1))
    } else {
        crate::chars::string_of(Vec::new())
    }
}

fn last_slash_end_exec(s: &Vec<char>) -> (e: usize)
    ensures
        e == last_slash_end(s@),
        e <= s@.len(),
{
    proof {
        lemma_last_slash_end(s@);
    }
    let mut j: usize = s.len();
    proof {
        assert(s@.take(s@.len() as int) =~= s@);
    }
    while j > 0
        invariant
            j <= s@.len(),
            last_slash_end(s@) == last_slash_end(s@.take(j as int)),
        decreases j,
    {
        if s[j - 1] == '/' {
            proof {
                assert(s@.take(j as int).last() == s@[j - 1]);
            }
            return j;
        }
        j = j - 1;
        proof {
            assert(s@.take(j + 1).drop_last() =~= s@.take(j as int));
            assert(s@.take(j + 1).last() == s@[j as int]);
        }
    }
    proof {
        assert(s@.take(0) =~= Seq::<char>::empty());
    }
    0
}

fn find_row_exec(rows: &Vec<Row>, id: &str) -> (r: Option<usize>)
    ensures
        r matches Some(k) ==> k < rows@.len() && find_row(row_models(rows@), 0, id@) == k,
        r is None ==> find_row(row_models(rows@), 0, id@) == row_models(rows@).len(),
{
    proof {
        lemma_find_row(row_models(rows@), 0, id@);
    }
    let cs = crate::chars::chars_of(id);
    let mut j: usize = 0;
    while j < rows.len()
        invariant
            j <= rows@.len(),
            cs@ == id@,
            row_models(rows@).len() == rows@.len(),
            find_row(row_models(rows@), 0, id@) == find_row(row_models(rows@), j as int, id@),
        decreases rows@.len() - j,
    {
        proof {
            assert(row_models(rows@)[j as int] == row_model(rows@[j as int]));
        }
        if crate::chars::vec_eq_str(&cs, rows[j].id.as_str()) {
            return Some(j);
        }
        j = j + 1;
    }
    None
}

} // verus!
