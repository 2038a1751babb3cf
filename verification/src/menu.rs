//! The menus of tray items: their entries, and the columns in which they are shown.

use vstd::prelude::*;
use crate::monitor::Rect;
use crate::text::Text;
use crate::tray::TrayIcon;

verus! {

/// An entry of a menu.
#[derive(Debug)]
pub struct MenuNode {
    /// The number by which the item is told of a click.
    pub id: i32,
    pub label: String,
    /// Whether it can be clicked.
    pub enabled: bool,
    /// Whether it is shown.
    pub visible: bool,
    /// Whether it is a line between others.
    pub is_separator: bool,
    /// Whether it opens a menu of its own.
    pub has_submenu: bool,
    /// What it can be switched with: nothing, a mark, or one choice among others.
    pub toggle_type: u8,
    /// Whether it is switched on (1) or off (0).
    pub toggle_state: i32,
    pub icon: Option<TrayIcon>,
    pub children: Vec<MenuNode>,
}

/// What is shown of an entry.
#[derive(Debug)]
pub struct MenuLine {
    pub id: i32,
    pub label: String,
    pub enabled: bool,
    pub is_separator: bool,
    pub has_submenu: bool,
    /// Whether it has a switch.
    pub toggle: bool,
    /// Whether the switch is on.
    pub on: bool,
    pub has_icon: bool,
}

/// What is shown of an entry, its string as a text.
#[verifier::ext_equal]
pub ghost struct Line {
    pub id: i32,
    pub label: Text,
    pub enabled: bool,
    pub is_separator: bool,
    pub has_submenu: bool,
    pub toggle: bool,
    pub on: bool,
    pub has_icon: bool,
}

impl DeepView for MenuLine {
    type V = Line;

    open spec fn deep_view(&self) -> Line {
        Line {
            id: self.id,
            label: self.label@,
            enabled: self.enabled,
            is_separator: self.is_separator,
            has_submenu: self.has_submenu,
            toggle: self.toggle,
            on: self.on,
            has_icon: self.has_icon,
        }
    }
}

/// The upper and the lower end of a row.
#[derive(Clone, Copy, Debug, PartialEq, Eq, Structural)]
pub struct MenuRow {
    pub y0: i32,
    pub y1: i32,
}

/// A column of a menu.
#[derive(Debug)]
pub struct MenuColumn {
    pub x: i32,
    pub y: i32,
    pub w: i32,
    pub h: i32,
    pub rows: Vec<MenuRow>,
}

/// A column of a menu as a mathematical value.
#[verifier::ext_equal]
pub ghost struct Column {
    pub x: i32,
    pub y: i32,
    pub w: i32,
    pub h: i32,
    pub rows: Seq<MenuRow>,
}

impl DeepView for MenuColumn {
    type V = Column;

    open spec fn deep_view(&self) -> Column {
        Column { x: self.x, y: self.y, w: self.w, h: self.h, rows: self.rows@ }
    }
}

/// The menu of a tray item while it is open.
#[derive(Debug)]
pub struct TrayMenu {
    /// The item.
    pub key: String,
    pub root: Vec<MenuNode>,
    /// Where the item's icon is.
    pub anchor: (i32, i32),
    /// The monitor that the menu is on.
    pub mon: Rect,
    /// The rows whose menus are open, from the first column on.
    pub open_path: Vec<usize>,
    /// The column and the row under the pointer.
    pub hover: Option<(usize, usize)>,
    /// The columns, from the last time that they were drawn.
    pub columns: Vec<MenuColumn>,
}

/// The menu of a tray item, its strings as texts.
#[verifier::ext_equal]
pub ghost struct MenuModel {
    pub key: Text,
    pub root: Seq<MenuNode>,
    pub anchor: (i32, i32),
    pub mon: Rect,
    pub open_path: Seq<usize>,
    pub hover: Option<(usize, usize)>,
    pub columns: Seq<Column>,
}

impl DeepView for TrayMenu {
    type V = MenuModel;

    open spec fn deep_view(&self) -> MenuModel {
        MenuModel {
            key: self.key@,
            root: self.root@,
            anchor: self.anchor,
            mon: self.mon,
            open_path: self.open_path@,
            hover: self.hover,
            columns: self.columns.deep_view(),
        }
    }
}

// --- what is shown ------------------------------------------------------------------------

/// The entries that are shown.
pub open spec fn shown(nodes: Seq<MenuNode>) -> Seq<MenuNode>
    decreases nodes.len(),
{
    if nodes.len() == 0 {
        Seq::empty()
    } else if nodes.last().visible {
        shown(nodes.drop_last()).push(nodes.last())
    } else {
        shown(nodes.drop_last())
    }
}

/// What is shown of an entry.
pub open spec fn line_of(n: MenuNode) -> Line {
    Line {
        id: n.id,
        label: n.label@,
        enabled: n.enabled,
        is_separator: n.is_separator,
        has_submenu: n.has_submenu,
        toggle: n.toggle_type != 0,
        on: n.toggle_state == 1,
        has_icon: n.icon is Some,
    }
}

/// What is shown of entries.
pub open spec fn lines_of(nodes: Seq<MenuNode>) -> Seq<Line> {
    shown(nodes).map_values(|n: MenuNode| line_of(n))
}

/// The columns that are open: the entries themselves, and after them the menu of the
/// row that the path names first, and so on. A row that is not there, or that has no
/// menu, or whose menu shows nothing, ends them.
pub open spec fn columns_of(nodes: Seq<MenuNode>, path: Seq<usize>) -> Seq<Seq<Line>>
    decreases path.len(),
{
    let here = shown(nodes);
    let first = seq![lines_of(nodes)];
    if path.len() == 0 || path[0] >= here.len() {
        first
    } else {
        let n = here[path[0] as int];
        if !n.has_submenu || shown(n.children@).len() == 0 {
            first
        } else {
            first + columns_of(n.children@, path.drop_first())
        }
    }
}

/// The entries of a column, by the rows whose menus are open.
pub open spec fn column_nodes(nodes: Seq<MenuNode>, path: Seq<usize>, column: nat) -> Option<Seq<MenuNode>>
    decreases column,
{
    if column == 0 {
        Some(nodes)
    } else if path.len() == 0 || path[0] >= shown(nodes).len() {
        None
    } else {
        column_nodes(
            shown(nodes)[path[0] as int].children@,
            path.drop_first(),
            (column - 1) as nat,
        )
    }
}

/// The icon of a row of a column.
pub open spec fn row_icon(nodes: Seq<MenuNode>, path: Seq<usize>, column: nat, row: usize) -> Option<TrayIcon> {
    match column_nodes(nodes, path, column) {
        Some(here) => if row < shown(here).len() {
            shown(here)[row as int].icon
        } else {
            None
        },
        None => None,
    }
}

/// Each row of an open column that shows an icon has one.
pub proof fn law_rows_have_icons(nodes: Seq<MenuNode>, path: Seq<usize>, column: nat, row: usize)
    requires
        column < columns_of(nodes, path).len(),
        row < columns_of(nodes, path)[column as int].len(),
    ensures
        columns_of(nodes, path)[column as int][row as int].has_icon == (row_icon(
            nodes,
            path,
            column,
            row,
        ) is Some),
    decreases column,
{
    if column > 0 {
        let n = shown(nodes)[path[0] as int];
        law_rows_have_icons(n.children@, path.drop_first(), (column - 1) as nat, row);
    }
}

/// What is shown of an entry.
fn make_line(n: &MenuNode) -> (r: MenuLine)
    ensures
        r.deep_view() == line_of(*n),
{
    MenuLine {
        id: n.id,
        label: n.label.clone(),
        enabled: n.enabled,
        is_separator: n.is_separator,
        has_submenu: n.has_submenu,
        toggle: n.toggle_type != 0,
        on: n.toggle_state == 1,
        has_icon: n.icon.is_some(),
    }
}

/// What is shown of entries.
fn make_lines(nodes: &Vec<MenuNode>) -> (r: Vec<MenuLine>)
    ensures
        r.deep_view() == lines_of(nodes@),
        r@.len() == shown(nodes@).len(),
{
    let mut r: Vec<MenuLine> = Vec::new();
    let mut i: usize = 0;
    assert(nodes@.take(0) =~= Seq::<MenuNode>::empty());
    assert(r.deep_view() =~= lines_of(nodes@.take(0)));
    while i < nodes.len()
        invariant
            i <= nodes@.len(),
            r.deep_view() == lines_of(nodes@.take(i as int)),
            r@.len() == shown(nodes@.take(i as int)).len(),
        decreases nodes@.len() - i,
    {
        let ghost before = r.deep_view();
        assert(nodes@.take(i + 1).drop_last() =~= nodes@.take(i as int));
        if nodes[i].visible {
            r.push(make_line(&nodes[i]));
            assert(r.deep_view() =~= before.push(line_of(nodes@[i as int])));
        }
        i += 1;
        assert(r.deep_view() =~= lines_of(nodes@.take(i as int)));
    }
    assert(nodes@.take(i as int) =~= nodes@);
    r
}

/// The place among the entries of the `n`th that is shown.
fn nth_shown(nodes: &Vec<MenuNode>, n: usize) -> (r: Option<usize>)
    ensures
        match r {
            Some(i) => i < nodes@.len() && n < shown(nodes@).len() && shown(nodes@)[n as int] == nodes@[i as int],
            None => n >= shown(nodes@).len(),
        },
{
    let mut left: usize = n;
    let mut i: usize = 0;
    assert(nodes@.take(0) =~= Seq::<MenuNode>::empty());
    while i < nodes.len()
        invariant
            i <= nodes@.len(),
            shown(nodes@.take(i as int)).len() + left == n,
        decreases nodes@.len() - i,
    {
        assert(nodes@.take(i + 1).drop_last() =~= nodes@.take(i as int));
        if nodes[i].visible {
            if left == 0 {
                proof {
                    lemma_shown_grows(nodes@, i + 1);
                    assert(shown(nodes@.take(i + 1))[n as int] == nodes@[i as int]);
                }
                return Some(i);
            }
            left -= 1;
        }
        i += 1;
    }
    assert(nodes@.take(i as int) =~= nodes@);
    None
}

/// What is shown of the first entries is the beginning of what is shown of all.
proof fn lemma_shown_grows(nodes: Seq<MenuNode>, n: int)
    requires
        0 <= n <= nodes.len(),
    ensures
        shown(nodes.take(n)).len() <= shown(nodes).len(),
        forall|k: int|
            0 <= k < shown(nodes.take(n)).len() ==> (#[trigger] shown(nodes.take(n))[k]) == shown(nodes)[k],
    decreases nodes.len(),
{
    if n == nodes.len() {
        assert(nodes.take(n) =~= nodes);
    } else {
        lemma_shown_grows(nodes.drop_last(), n);
        assert(nodes.drop_last().take(n) =~= nodes.take(n));
    }
}

impl TrayMenu {
    /// The columns that are open.
    pub fn columns_nodes(&self) -> (r: Vec<Vec<MenuLine>>)
        ensures
            r.deep_view() == columns_of(self.root@, self.open_path@),
    {
        let mut r: Vec<Vec<MenuLine>> = Vec::new();
        gather_columns(&self.root, &self.open_path, 0, &mut r);
        assert(r.deep_view() =~= columns_of(self.root@, self.open_path@)) by {
            assert(self.open_path@.skip(0) =~= self.open_path@);
        }
        r
    }

    /// The icon of a row of a column.
    pub fn icon_at(&self, column: usize, row: usize) -> (r: Option<&TrayIcon>)
        ensures
            match row_icon(self.root@, self.open_path@, column as nat, row) {
                Some(i) => r is Some && *r->0 == i,
                None => r is None,
            },
    {
        let mut here: &Vec<MenuNode> = &self.root;
        let mut at: usize = 0;
        assert(self.open_path@.skip(0) =~= self.open_path@);
        while at < column
            invariant
                at <= column,
                at <= self.open_path@.len(),
                row_icon(self.root@, self.open_path@, column as nat, row) == row_icon(
                    here@,
                    self.open_path@.skip(at as int),
                    (column - at) as nat,
                    row,
                ),
            decreases column - at,
        {
            let ghost path = self.open_path@.skip(at as int);
            if at == self.open_path.len() {
                return None;
            }
            assert(path.drop_first() =~= self.open_path@.skip(at + 1));
            match nth_shown(here, self.open_path[at]) {
                None => {
                    return None;
                },
                Some(i) => {
                    here = &here[i].children;
                },
            }
            at += 1;
        }
        match nth_shown(here, row) {
            None => None,
            Some(i) => here[i].icon.as_ref(),
        }
    }
}

/// Adds the columns that are open from a place of the path on.
fn gather_columns(nodes: &Vec<MenuNode>, path: &Vec<usize>, at: usize, out: &mut Vec<Vec<MenuLine>>)
    requires
        at <= path@.len(),
    ensures
        final(out).deep_view() == old(out).deep_view() + columns_of(nodes@, path@.skip(at as int)),
    decreases path@.len() - at,
{
    let ghost before = out.deep_view();
    let ghost here = path@.skip(at as int);
    let lines = make_lines(nodes);
    let ghost first = lines.deep_view();
    out.push(lines);
    assert(out.deep_view() =~= before + seq![first]);
    if at < path.len() {
        assert(here[0] == path@[at as int]);
        assert(here.drop_first() =~= path@.skip(at + 1));
        if let Some(i) = nth_shown(nodes, path[at]) {
            let n = &nodes[i];
            if n.has_submenu && any_shown(&n.children) {
                gather_columns(&n.children, path, at + 1, out);
                assert((before + seq![first]) + columns_of(n.children@, here.drop_first()) =~= before
                    + columns_of(nodes@, here));
            }
        }
    }
}

/// Whether any entry is shown.
pub fn any_shown(nodes: &Vec<MenuNode>) -> (r: bool)
    ensures
        r == (shown(nodes@).len() > 0),
{
    nth_shown(nodes, 0).is_some()
}

// --- where the pointer is -----------------------------------------------------------------

/// The row of a column at a height; the number of rows where there is none.
pub open spec fn row_place(rows: Seq<MenuRow>, y: int) -> int
    decreases rows.len(),
{
    if rows.len() == 0 || rows[0].y0 <= y < rows[0].y1 {
        0
    } else {
        1 + row_place(rows.drop_first(), y)
    }
}

/// Whether a point lies in a column.
pub open spec fn in_column(c: Column, x: int, y: int) -> bool {
    c.x <= x < c.x + c.w && c.y <= y < c.y + c.h
}

/// The first column that holds a point; the number of columns where none does.
pub open spec fn column_place(cols: Seq<Column>, x: int, y: int) -> int
    decreases cols.len(),
{
    if cols.len() == 0 || in_column(cols[0], x, y) {
        0
    } else {
        1 + column_place(cols.drop_first(), x, y)
    }
}

/// The column and the row at a point.
pub open spec fn spot(cols: Seq<Column>, x: int, y: int) -> Option<(usize, usize)> {
    let c = column_place(cols, x, y);
    if c >= cols.len() {
        None
    } else {
        let r = row_place(cols[c].rows, y);
        if r < cols[c].rows.len() {
            Some((c as usize, r as usize))
        } else {
            None
        }
    }
}

/// The row of a column at a height.
fn find_row(rows: &Vec<MenuRow>, y: i32) -> (r: usize)
    ensures
        r == row_place(rows@, y as int),
        r <= rows@.len(),
{
    let mut i: usize = 0;
    assert(rows@.skip(0) =~= rows@);
    while i < rows.len() && !(rows[i].y0 <= y && y < rows[i].y1)
        invariant
            i <= rows@.len(),
            row_place(rows@, y as int) == i + row_place(rows@.skip(i as int), y as int),
        decreases rows@.len() - i,
    {
        assert(rows@.skip(i as int)[0] == rows@[i as int]);
        assert(rows@.skip(i as int).drop_first() =~= rows@.skip(i + 1));
        i += 1;
    }
    if i < rows.len() {
        assert(rows@.skip(i as int)[0] == rows@[i as int]);
    }
    i
}

/// The column and the row at a point.
pub fn menu_hit(columns: &Vec<MenuColumn>, sx: i32, sy: i32) -> (r: Option<(usize, usize)>)
    ensures
        r == spot(columns.deep_view(), sx as int, sy as int),
{
    let ghost all = columns.deep_view();
    let mut i: usize = 0;
    assert(all.skip(0) =~= all);
    while i < columns.len()
        invariant
            i <= columns@.len() == all.len(),
            all == columns.deep_view(),
            column_place(all, sx as int, sy as int) == i + column_place(
                all.skip(i as int),
                sx as int,
                sy as int,
            ),
        decreases columns@.len() - i,
    {
        assert(all.skip(i as int)[0] == columns@[i as int].deep_view());
        assert(all.skip(i as int).drop_first() =~= all.skip(i + 1));
        let c = &columns[i];
        let (x, y): (i64, i64) = (sx as i64, sy as i64);
        if c.x as i64 <= x && x < c.x as i64 + c.w as i64 && c.y as i64 <= y && y < c.y as i64
            + c.h as i64 {
            let r: usize = find_row(&c.rows, sy);
            if r < c.rows.len() {
                return Some((i, r));
            }
            return None;
        }
        i += 1;
    }
    None
}

} // verus!
