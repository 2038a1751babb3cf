//! Frame trees as text: the layout strings that are dumped and loaded, and the
//! listing for a reader.

use vstd::prelude::*;
use crate::double::{clamped, double_text, Double};
use crate::frame::{layout_named, Frame, LayoutMode, Leaf, Orientation, Split, WinId};
use crate::number::{parse_u64, parse_usize, push_u64, show, unsigned};
use crate::ratio::show_ratio;
use crate::text::{
    chars_of, fields, find_from, position, same, split, split_nonempty, string_of, words, Class, Text,
};
use crate::tree::{hold, Tree};

verus! {

/// The name of an arrangement.
pub open spec fn layout_name(l: LayoutMode) -> Text {
    match l {
        LayoutMode::Max => "max"@,
        LayoutMode::Vertical => "vertical"@,
        LayoutMode::Horizontal => "horizontal"@,
        LayoutMode::Grid => "grid"@,
    }
}

/// The name of an orientation.
pub open spec fn orient_name(o: Orientation) -> Text {
    match o {
        Orientation::Horizontal => "horizontal"@,
        Orientation::Vertical => "vertical"@,
    }
}

/// Window numbers, each after a space.
pub open spec fn ids_text(windows: Seq<WinId>) -> Text
    decreases windows.len(),
{
    if windows.len() == 0 {
        Seq::empty()
    } else {
        ids_text(windows.drop_last()) + " "@ + show(windows.last() as nat)
    }
}

/// The layout string of a tree.
pub open spec fn sexpr(t: Tree) -> Text
    decreases t,
{
    match t {
        Tree::Leaf { windows, selected, layout } => {
            "(clients "@ + layout_name(layout) + ":"@ + show(selected as nat) + ids_text(windows) + ")"@
        },
        Tree::Split { orient, ratio, selection, first, second } => {
            "(split "@ + orient_name(orient) + ":"@ + show_ratio(ratio, 4) + ":"@ + show(
                selection as nat,
            ) + " "@ + sexpr(*first) + " "@ + sexpr(*second) + ")"@
        },
    }
}

/// The name of an arrangement.
pub fn name_of_layout(l: LayoutMode) -> (r: &'static str)
    ensures
        r@ == layout_name(l),
{
    match l {
        LayoutMode::Max => "max",
        LayoutMode::Vertical => "vertical",
        LayoutMode::Horizontal => "horizontal",
        LayoutMode::Grid => "grid",
    }
}

/// Writes window numbers, each after a space.
fn push_ids(out: &mut String, windows: &Vec<WinId>)
    ensures
        final(out)@ == old(out)@ + ids_text(windows@),
{
    let mut i: usize = 0;
    assert(windows@.take(0) =~= Seq::<WinId>::empty());
    assert(out@ =~= old(out)@ + ids_text(windows@.take(0)));
    while i < windows.len()
        invariant
            i <= windows@.len(),
            out@ == old(out)@ + ids_text(windows@.take(i as int)),
        decreases windows@.len() - i,
    {
        out.append(" ");
        push_u64(out, windows[i]);
        i += 1;
        proof {
            assert(windows@.take(i as int).drop_last() =~= windows@.take(i - 1));
            assert(out@ =~= old(out)@ + ids_text(windows@.take(i as int)));
        }
    }
    assert(windows@.take(i as int) =~= windows@);
}

impl Frame {
    /// The layout string of the tree.
    pub fn serialize(&self) -> (r: String)
        requires
            self@.wf(),
        ensures
            r@ == sexpr(self@),
    {
        let mut s = String::new();
        self.write_sexpr(&mut s);
        assert(Seq::<char>::empty() + sexpr(self@) =~= sexpr(self@));
        s
    }

    fn write_sexpr(&self, out: &mut String)
        requires
            self@.wf(),
        ensures
            final(out)@ == old(out)@ + sexpr(self@),
        decreases self,
    {
        match self {
            Frame::Leaf(l) => {
                out.append("(clients ");
                out.append(name_of_layout(l.layout));
                out.append(":");
                push_u64(out, l.selected as u64);
                push_ids(out, &l.windows);
                out.append(")");
                assert(out@ =~= old(out)@ + sexpr(self@));
            },
            Frame::Split(s) => {
                out.append("(split ");
                out.append(
                    match s.orient {
                        Orientation::Horizontal => "horizontal",
                        Orientation::Vertical => "vertical",
                    },
                );
                out.append(":");
                s.ratio.push_text(out, true);
                out.append(":");
                push_u64(out, s.selection as u64);
                out.append(" ");
                s.first.write_sexpr(out);
                out.append(" ");
                s.second.write_sexpr(out);
                out.append(")");
                assert(out@ =~= old(out)@ + sexpr(self@));
            },
        }
    }
}

// --- reading --------------------------------------------------------------------

/// A bracket with a space on either side; any other character alone.
pub open spec fn spaced_char(c: char) -> Text {
    if c == '(' {
        seq![' ', '(', ' ']
    } else if c == ')' {
        seq![' ', ')', ' ']
    } else {
        seq![c]
    }
}

/// The text with its brackets set apart.
pub open spec fn spaced(s: Text) -> Text
    decreases s.len(),
{
    if s.len() == 0 {
        Seq::empty()
    } else {
        spaced(s.drop_last()) + spaced_char(s.last())
    }
}

/// The brackets and words of a layout string.
pub open spec fn tokens(s: Text) -> Seq<Text> {
    words(spaced(s))
}

/// Window numbers from the `i`-th token up to a closing bracket, and the token after
/// it.
pub open spec fn ids_at(toks: Seq<Text>, i: int) -> Option<(Seq<WinId>, int)>
    decreases toks.len() - i,
{
    if i < 0 || i >= toks.len() {
        None
    } else if toks[i] == ")"@ {
        Some((Seq::empty(), i + 1))
    } else {
        match unsigned(toks[i], u64::MAX as int) {
            None => None,
            Some(w) => match ids_at(toks, i + 1) {
                None => None,
                Some((ws, n)) => Some((seq![w as WinId] + ws, n)),
            },
        }
    }
}

/// The orientation of the given name.
pub open spec fn orient_named(s: Text) -> Option<Orientation> {
    if s == "horizontal"@ {
        Some(Orientation::Horizontal)
    } else if s == "vertical"@ {
        Some(Orientation::Vertical)
    } else {
        None
    }
}

/// The tree that starts at the `i`-th token, and the token after it.
#[verifier::opaque]
pub open spec fn tree_at(toks: Seq<Text>, i: int) -> Option<(Tree, int)>
    decreases toks.len() - i,
{
    if i < 0 || i + 2 >= toks.len() || toks[i] != "("@ {
        None
    } else if toks[i + 1] == "clients"@ {
        let head = toks[i + 2];
        let c = position(head, Class::Is(':'));
        if c >= head.len() {
            None
        } else {
            match (
                layout_named(head.take(c)),
                unsigned(head.skip(c + 1), usize::MAX as int),
                ids_at(toks, i + 3),
            ) {
                (Some(layout), Some(selected), Some((windows, n))) => Some(
                    (Tree::Leaf { windows, selected: hold(selected, windows.len() as int), layout }, n),
                ),
                _ => None,
            }
        }
    } else if toks[i + 1] == "split"@ {
        let parts = fields(toks[i + 2], Class::Is(':'));
        if parts.len() != 3 {
            None
        } else {
            match (
                orient_named(parts[0]),
                double_text(parts[1]),
                unsigned(parts[2], usize::MAX as int),
                tree_at(toks, i + 3),
            ) {
                (Some(orient), Some(ratio), Some(selection), Some((first, n))) => if selection > 1 || !(i
                    + 3 < n <= toks.len()) {
                    None
                } else {
                    match tree_at(toks, n) {
                        Some((second, m)) => if n <= m < toks.len() && toks[m] == ")"@ {
                            Some(
                                (
                                    Tree::Split {
                                        orient,
                                        ratio: clamped(ratio),
                                        selection,
                                        first: Box::new(first),
                                        second: Box::new(second),
                                    },
                                    m + 1,
                                ),
                            )
                        } else {
                            None
                        },
                        None => None,
                    }
                },
                _ => None,
            }
        }
    } else {
        None
    }
}

/// The tree of a layout string that holds nothing else.
pub open spec fn tree_text(s: Text) -> Option<Tree> {
    match tree_at(tokens(s), 0) {
        Some((t, n)) => if n == tokens(s).len() {
            Some(t)
        } else {
            None
        },
        None => None,
    }
}

/// Sets the brackets of a text apart.
fn set_apart(s: &str) -> (r: String)
    ensures
        r@ == spaced(s@),
{
    let v = chars_of(s);
    let mut r = String::new();
    let mut i: usize = 0;
    while i < v.len()
        invariant
            i <= v@.len(),
            r@ == spaced(v@.take(i as int)),
        decreases v@.len() - i,
    {
        let c: char = v[i];
        if c == '(' || c == ')' {
            r.push(' ');
            r.push(c);
            r.push(' ');
        } else {
            r.push(c);
        }
        i += 1;
        proof {
            assert(v@.take(i as int).drop_last() =~= v@.take(i - 1));
            assert(v@.take(i as int).last() == c);
            assert(r@ =~= spaced(v@.take(i as int)));
        }
    }
    assert(v@.take(i as int) =~= v@);
    r
}

/// Reads window numbers up to a closing bracket.
fn parse_ids(toks: &Vec<String>, from: usize) -> (r: Option<(Vec<WinId>, usize)>)
    requires
        from <= toks@.len(),
    ensures
        r is Some <==> ids_at(toks.deep_view(), from as int) is Some,
        r is Some ==> (r->Some_0.0)@ == ids_at(toks.deep_view(), from as int)->Some_0.0,
        r is Some ==> r->Some_0.1 == ids_at(toks.deep_view(), from as int)->Some_0.1,
        r is Some ==> from < r->Some_0.1 <= toks@.len(),
{
    let ghost all = toks.deep_view();
    let mut windows: Vec<WinId> = Vec::new();
    let mut i: usize = from;
    while i < toks.len()
        invariant
            from <= i <= toks@.len(),
            all == toks.deep_view(),
            ids_at(all, from as int) is Some <==> ids_at(all, i as int) is Some,
            ids_at(all, i as int) is Some ==> ids_at(all, from as int)->Some_0.0 == windows@ + ids_at(
                all,
                i as int,
            )->Some_0.0,
            ids_at(all, i as int) is Some ==> ids_at(all, from as int)->Some_0.1 == ids_at(
                all,
                i as int,
            )->Some_0.1,
        decreases toks@.len() - i,
    {
        assert(all[i as int] == toks@[i as int]@);
        if same(toks[i].as_str(), ")") {
            assert(windows@ + Seq::<WinId>::empty() =~= windows@);
            return Some((windows, i + 1));
        }
        match parse_u64(toks[i].as_str()) {
            Some(w) => {
                let ghost before = windows@;
                windows.push(w);
                proof {
                    if ids_at(all, i + 1) is Some {
                        let rest = ids_at(all, i + 1)->Some_0.0;
                        assert(before + (seq![w] + rest) =~= windows@ + rest);
                    }
                }
            },
            None => {
                return None;
            },
        }
        i += 1;
    }
    None
}

/// The orientation of the given name.
fn parse_orient(s: &str) -> (r: Option<Orientation>)
    ensures
        r == orient_named(s@),
{
    if same(s, "horizontal") {
        Some(Orientation::Horizontal)
    } else if same(s, "vertical") {
        Some(Orientation::Vertical)
    } else {
        None
    }
}

/// Reads the leaf whose words start at the `i`-th token.
fn parse_leaf(toks: &Vec<String>, i: usize) -> (r: Option<(Frame, usize)>)
    requires
        i + 2 < toks.len(),
        toks.deep_view()[i as int] == "("@,
        toks.deep_view()[i + 1] == "clients"@,
    ensures
        r is Some <==> tree_at(toks.deep_view(), i as int) is Some,
        r is Some ==> (r->Some_0.0)@ == tree_at(toks.deep_view(), i as int)->Some_0.0,
        r is Some ==> r->Some_0.1 == tree_at(toks.deep_view(), i as int)->Some_0.1,
        r is Some ==> i < r->Some_0.1 <= toks@.len() && (r->Some_0.0)@.wf(),
{
    reveal(tree_at);
    let head = chars_of(toks[i + 2].as_str());
    assert(toks.deep_view()[i + 2] == head@);
    assert(head@.skip(0) =~= head@);
    let c: usize = find_from(&head, 0, Class::Is(':'));
    if c == head.len() {
        return None;
    }
    let name = string_of(&head, 0, c);
    let count = string_of(&head, c + 1, head.len());
    assert(name@ =~= head@.take(c as int));
    assert(count@ =~= head@.skip(c + 1));
    match LayoutMode::parse(name.as_str()) {
        Some(layout) => match parse_usize(count.as_str()) {
            Some(selected) => match parse_ids(toks, i + 3) {
                Some((windows, n)) => {
                    let held: usize = if windows.len() == 0 {
                        0
                    } else if selected < windows.len() {
                        selected
                    } else {
                        windows.len() - 1
                    };
                    Some((Frame::Leaf(Leaf { windows, selected: held, layout }), n))
                },
                None => None,
            },
            None => None,
        },
        None => None,
    }
}

/// Reads the tree that starts at the `i`-th token.
fn parse_node(toks: &Vec<String>, i: usize) -> (r: Option<(Frame, usize)>)
    requires
        i <= toks@.len(),
    ensures
        r is Some <==> tree_at(toks.deep_view(), i as int) is Some,
        r is Some ==> (r->Some_0.0)@ == tree_at(toks.deep_view(), i as int)->Some_0.0,
        r is Some ==> r->Some_0.1 == tree_at(toks.deep_view(), i as int)->Some_0.1,
        r is Some ==> i < r->Some_0.1 <= toks@.len() && (r->Some_0.0)@.wf(),
    decreases toks@.len() - i,
{
    reveal(tree_at);
    let ghost all = toks.deep_view();
    if toks.len() - i <= 2 {
        return None;
    }
    assert(all[i as int] == toks@[i as int]@ && all[i + 1] == toks@[i + 1]@ && all[i + 2] == toks@[i
        + 2]@);
    if !same(toks[i].as_str(), "(") {
        return None;
    }
    if same(toks[i + 1].as_str(), "clients") {
        return parse_leaf(toks, i);
    }
    if !same(toks[i + 1].as_str(), "split") {
        return None;
    }
    let parts = split(toks[i + 2].as_str(), Class::Is(':'));
    let ghost cuts = parts.deep_view();
    assert(cuts == fields(all[i + 2], Class::Is(':')));
    if parts.len() != 3 {
        return None;
    }
    assert(cuts[0] == parts@[0]@ && cuts[1] == parts@[1]@ && cuts[2] == parts@[2]@);
    match (
        parse_orient(parts[0].as_str()),
        Double::parse(parts[1].as_str()),
        parse_usize(parts[2].as_str()),
        parse_node(toks, i + 3),
    ) {
        (Some(orient), Some(ratio), Some(selection), Some((first, n))) => {
            if selection > 1 {
                return None;
            }
            match parse_node(toks, n) {
                Some((second, m)) => if m < toks.len() && same(toks[m].as_str(), ")") {
                    let node = Frame::Split(
                        Split {
                            orient,
                            ratio: ratio.clamp(),
                            selection,
                            first: Box::new(first),
                            second: Box::new(second),
                        },
                    );
                    Some((node, m + 1))
                } else {
                    None
                },
                None => None,
            }
        },
        _ => None,
    }
}

impl Frame {
    /// Reads a layout string; none where it is not one.
    pub fn deserialize(s: &str) -> (r: Option<Frame>)
        ensures
            r is Some <==> tree_text(s@) is Some,
            r is Some ==> r->0@ == tree_text(s@)->0,
            r is Some ==> r->0@.wf(),
    {
        let apart = set_apart(s);
        let toks = split_nonempty(apart.as_str(), Class::White);
        match parse_node(&toks, 0) {
            Some((frame, n)) => if n == toks.len() {
                Some(frame)
            } else {
                None
            },
            None => None,
        }
    }
}

// --- a listing for a reader -------------------------------------------------------

/// Two spaces for each level.
pub open spec fn indent(depth: nat) -> Text
    decreases depth,
{
    if depth == 0 {
        Seq::empty()
    } else {
        indent((depth - 1) as nat) + "  "@
    }
}

/// Window numbers with a comma and a space between each two.
pub open spec fn list_text(windows: Seq<WinId>) -> Text
    decreases windows.len(),
{
    if windows.len() == 0 {
        Seq::empty()
    } else if windows.len() == 1 {
        show(windows[0] as nat)
    } else {
        list_text(windows.drop_last()) + ", "@ + show(windows.last() as nat)
    }
}

/// The name of an arrangement in a listing.
pub open spec fn layout_label(l: LayoutMode) -> Text {
    match l {
        LayoutMode::Max => "Max"@,
        LayoutMode::Vertical => "Vertical"@,
        LayoutMode::Horizontal => "Horizontal"@,
        LayoutMode::Grid => "Grid"@,
    }
}

/// The name of an orientation in a listing.
pub open spec fn orient_label(o: Orientation) -> Text {
    match o {
        Orientation::Horizontal => "Horizontal"@,
        Orientation::Vertical => "Vertical"@,
    }
}

/// A line for each node, the children of a split one level in.
pub open spec fn listing(t: Tree, depth: nat) -> Text
    decreases t,
{
    match t {
        Tree::Leaf { windows, selected, layout } => {
            indent(depth) + "leaf layout="@ + layout_label(layout) + " selected="@ + show(
                selected as nat,
            ) + " windows=["@ + list_text(windows) + "]\n"@
        },
        Tree::Split { orient, ratio, selection, first, second } => {
            indent(depth) + "split "@ + orient_label(orient) + " ratio="@ + show_ratio(ratio, 2)
                + " focus=child"@ + show(selection as nat) + "\n"@ + listing(*first, depth + 1)
                + listing(*second, depth + 1)
        },
    }
}

/// Writes two spaces for each level; a level is counted by an item of `depth`.
fn push_indent(out: &mut String, depth: &Vec<()>)
    ensures
        final(out)@ == old(out)@ + indent(depth@.len()),
{
    let mut i: usize = 0;
    assert(out@ =~= old(out)@ + indent(0));
    while i < depth.len()
        invariant
            i <= depth@.len(),
            out@ == old(out)@ + indent(i as nat),
        decreases depth@.len() - i,
    {
        out.append("  ");
        i += 1;
        assert(out@ =~= old(out)@ + indent(i as nat));
    }
}

/// Writes window numbers with a comma and a space between each two.
fn push_list(out: &mut String, windows: &Vec<WinId>)
    ensures
        final(out)@ == old(out)@ + list_text(windows@),
{
    let mut i: usize = 0;
    assert(windows@.take(0) =~= Seq::<WinId>::empty());
    assert(out@ =~= old(out)@ + list_text(windows@.take(0)));
    while i < windows.len()
        invariant
            i <= windows@.len(),
            out@ == old(out)@ + list_text(windows@.take(i as int)),
        decreases windows@.len() - i,
    {
        if i > 0 {
            out.append(", ");
        }
        push_u64(out, windows[i]);
        i += 1;
        proof {
            assert(windows@.take(i as int).drop_last() =~= windows@.take(i - 1));
            assert(out@ =~= old(out)@ + list_text(windows@.take(i as int)));
        }
    }
    assert(windows@.take(i as int) =~= windows@);
}

impl Frame {
    /// A listing of the tree, a line for each node.
    pub fn describe(&self) -> (r: String)
        requires
            self@.wf(),
        ensures
            r@ == listing(self@, 0),
    {
        let mut out = String::new();
        let mut depth: Vec<()> = Vec::new();
        self.write_listing(&mut depth, &mut out);
        assert(Seq::<char>::empty() + listing(self@, 0) =~= listing(self@, 0));
        out
    }

    fn write_listing(&self, depth: &mut Vec<()>, out: &mut String)
        requires
            self@.wf(),
        ensures
            final(depth)@ == old(depth)@,
            final(out)@ == old(out)@ + listing(self@, old(depth)@.len()),
        decreases self,
    {
        push_indent(out, depth);
        match self {
            Frame::Leaf(l) => {
                out.append("leaf layout=");
                out.append(
                    match l.layout {
                        LayoutMode::Max => "Max",
                        LayoutMode::Vertical => "Vertical",
                        LayoutMode::Horizontal => "Horizontal",
                        LayoutMode::Grid => "Grid",
                    },
                );
                out.append(" selected=");
                push_u64(out, l.selected as u64);
                out.append(" windows=[");
                push_list(out, &l.windows);
                out.append("]\n");
                assert(out@ =~= old(out)@ + listing(self@, depth@.len()));
            },
            Frame::Split(s) => {
                out.append("split ");
                out.append(
                    match s.orient {
                        Orientation::Horizontal => "Horizontal",
                        Orientation::Vertical => "Vertical",
                    },
                );
                out.append(" ratio=");
                s.ratio.push_text(out, false);
                out.append(" focus=child");
                push_u64(out, s.selection as u64);
                out.append("\n");
                depth.push(());
                s.first.write_listing(depth, out);
                s.second.write_listing(depth, out);
                depth.pop();
                assert(depth@ =~= old(depth)@);
                assert(out@ =~= old(out)@ + listing(self@, old(depth)@.len()));
            },
        }
    }
}

} // verus!
