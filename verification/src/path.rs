//! File names and paths.

use vstd::prelude::*;
use crate::text::{chars_of, lower, lowered, nonempty, same, split_nonempty, string_of, Class, Text};

verus! {

/// A path and a name below it; a name that starts at the root stands for itself.
pub open spec fn below(dir: Text, name: Text) -> Text {
    if dir.len() == 0 || (name.len() > 0 && name[0] == '/') {
        name
    } else if dir.last() == '/' {
        dir + name
    } else {
        dir.push('/') + name
    }
}

/// Puts a name below a path.
pub fn join_path(dir: &str, name: &str) -> (r: String)
    ensures
        r@ == below(dir@, name@),
{
    let d = chars_of(dir);
    let n = chars_of(name);
    if d.len() == 0 || (n.len() > 0 && n[0] == '/') {
        return name.to_owned();
    }
    let mut r = dir.to_owned();
    if d[d.len() - 1] != '/' {
        r.push('/');
    }
    r.append(name);
    r
}

/// Whether a path starts at the root.
pub open spec fn from_root(path: Text) -> bool {
    path.len() > 0 && path[0] == '/'
}

/// Tells whether a path starts at the root.
pub fn starts_at_root(path: &str) -> (r: bool)
    ensures
        r == from_root(path@),
{
    let v = chars_of(path);
    v.len() > 0 && v[0] == '/'
}

/// The last of the steps of a path that goes somewhere: one that is not `.`.
pub open spec fn last_step(steps: Seq<Text>) -> Option<Text>
    decreases steps.len(),
{
    if steps.len() == 0 {
        None
    } else if steps.last() == "."@ {
        last_step(steps.drop_last())
    } else {
        Some(steps.last())
    }
}

/// The name of the file that a path leads to. None where it leads to no named one.
pub open spec fn file_name_of(path: Text) -> Option<Text> {
    match last_step(nonempty(crate::text::fields(path, Class::Is('/')))) {
        Some(name) => if name == ".."@ {
            None
        } else {
            Some(name)
        },
        None => None,
    }
}

/// Tells the name of the file that a path leads to.
pub fn file_name(path: &str) -> (r: Option<String>)
    ensures
        r.deep_view() == file_name_of(path@),
{
    let steps = split_nonempty(path, Class::Is('/'));
    let ghost all = steps.deep_view();
    let mut n: usize = steps.len();
    assert(all.take(n as int) =~= all);
    while n > 0 && same(steps[n - 1].as_str(), ".")
        invariant
            n <= steps@.len(),
            all == steps.deep_view(),
            last_step(all.take(n as int)) == last_step(all),
        decreases n,
    {
        assert(all.take(n as int).drop_last() =~= all.take(n - 1));
        assert(all.take(n as int).last() == steps@[n - 1]@);
        n -= 1;
    }
    if n == 0 {
        return None;
    }
    assert(all.take(n as int).last() == steps@[n - 1]@);
    if same(steps[n - 1].as_str(), "..") {
        None
    } else {
        Some(steps[n - 1].clone())
    }
}

/// The name by which a path is shown: that of the file, or all of the path.
pub open spec fn label_of(path: Text) -> Text {
    match file_name_of(path) {
        Some(name) => name,
        None => path,
    }
}

/// Tells the name by which a path is shown.
pub fn file_label(path: &str) -> (r: String)
    ensures
        r@ == label_of(path@),
{
    match file_name(path) {
        Some(name) => name,
        None => path.to_owned(),
    }
}

/// Where the last dot of a name stands; its length where there is none.
pub open spec fn last_dot(name: Text) -> int
    decreases name.len(),
{
    if name.len() == 0 {
        0
    } else if name.last() == '.' {
        name.len() - 1
    } else {
        let before = last_dot(name.drop_last());
        if before == name.len() - 1 {
            name.len() as int
        } else {
            before
        }
    }
}

/// What stands behind the last dot of the name of a file, but for a dot that starts it.
pub open spec fn extension_of(path: Text) -> Option<Text> {
    match file_name_of(path) {
        Some(name) => {
            let at = last_dot(name);
            if 0 < at < name.len() {
                Some(name.skip(at + 1))
            } else {
                None
            }
        },
        None => None,
    }
}

proof fn lemma_last_dot(name: Text)
    ensures
        0 <= last_dot(name) <= name.len(),
    decreases name.len(),
{
    if name.len() > 0 {
        lemma_last_dot(name.drop_last());
    }
}

/// Finds the last dot of a name.
fn find_last_dot(v: &Vec<char>) -> (r: usize)
    ensures
        r == last_dot(v@),
        r <= v@.len(),
{
    let mut n: usize = v.len();
    assert(v@.take(n as int) =~= v@);
    while n > 0
        invariant
            n <= v@.len(),
            last_dot(v@) == if last_dot(v@.take(n as int)) == n {
                v@.len() as int
            } else {
                last_dot(v@.take(n as int))
            },
        decreases n,
    {
        assert(v@.take(n as int).drop_last() =~= v@.take(n - 1));
        assert(v@.take(n as int).last() == v@[n - 1]);
        proof {
            lemma_last_dot(v@.take(n - 1));
        }
        if v[n - 1] == '.' {
            return n - 1;
        }
        n -= 1;
    }
    v.len()
}

/// Tells what stands behind the last dot of the name of a file.
pub fn extension(path: &str) -> (r: Option<String>)
    ensures
        r.deep_view() == extension_of(path@),
{
    match file_name(path) {
        Some(name) => {
            let v = chars_of(name.as_str());
            let at: usize = find_last_dot(&v);
            if 0 < at && at < v.len() {
                assert(v@.subrange(at + 1, v@.len() as int) =~= v@.skip(at + 1));
                Some(string_of(&v, at + 1, v.len()))
            } else {
                None
            }
        },
        None => None,
    }
}

/// Whether a file holds a drawing, by its name, and not an image of pixels.
pub open spec fn named_svg(path: Text) -> bool {
    match extension_of(path) {
        Some(e) => lower(e) == "svg"@,
        None => false,
    }
}

/// Tells whether a file holds a drawing, by its name.
pub fn is_svg(path: &str) -> (r: bool)
    ensures
        r == named_svg(path@),
{
    match extension(path) {
        Some(e) => same(lowered(e.as_str()).as_str(), "svg"),
        None => false,
    }
}

/// Whether a file holds an image, by its name.
pub open spec fn named_image(path: Text) -> bool {
    match extension_of(path) {
        Some(e) => {
            let l = lower(e);
            l == "png"@ || l == "jpg"@ || l == "jpeg"@ || l == "webp"@ || l == "bmp"@ || l
                == "gif"@
        },
        None => false,
    }
}

/// Tells whether a file holds an image, by its name.
pub fn has_image_ext(path: &str) -> (r: bool)
    ensures
        r == named_image(path@),
{
    match extension(path) {
        Some(e) => {
            let l = lowered(e.as_str());
            let s = l.as_str();
            same(s, "png") || same(s, "jpg") || same(s, "jpeg") || same(s, "webp") || same(s, "bmp")
                || same(s, "gif")
        },
        None => false,
    }
}

/// A label of at most `max` characters: one that is longer ends in an ellipsis.
pub open spec fn elided(s: Text, max: int) -> Text {
    if s.len() <= max {
        s
    } else if max > 0 {
        s.take(max - 1).push('\u{2026}')
    } else {
        seq!['\u{2026}']
    }
}

/// Cuts a label to at most `max` characters.
pub fn elide(s: &str, max: usize) -> (r: String)
    ensures
        r@ == elided(s@, max as int),
        max > 0 ==> r@.len() <= max,
{
    let v = chars_of(s);
    if v.len() <= max {
        return s.to_owned();
    }
    let keep: usize = if max > 0 { max - 1 } else { 0 };
    assert(v@.subrange(0, keep as int) =~= s@.take(keep as int));
    let mut r = string_of(&v, 0, keep);
    r.push('\u{2026}');
    assert(max == 0 ==> r@ =~= seq!['\u{2026}']);
    r
}

/// The name that is put below a path is the name of the file there, unless it has steps
/// of its own.
pub proof fn law_name_below(dir: Text, name: Text)
    requires
        name.len() > 0,
        !name.contains('/'),
        name != "."@,
        name != ".."@,
    ensures
        file_name_of(below(dir, name)) == Some(name),
{
    let sep = Class::Is('/');
    crate::text::lemma_uncut(name, '/');
    assert(name[0] != '/') by {
        assert(name.contains(name[0]));
    }
    if dir.len() == 0 {
        assert(nonempty(seq![name]) =~= seq![name]) by {
            assert(seq![name].drop_last() =~= Seq::<Text>::empty());
            assert(nonempty(Seq::<Text>::empty()) =~= Seq::<Text>::empty());
            assert(seq![name].last() == name);
        }
    } else {
        let head = if dir.last() == '/' {
            dir.drop_last()
        } else {
            dir
        };
        assert(below(dir, name) =~= head.push('/') + name);
        crate::text::lemma_last_cut(head, '/', name);
        let fs = crate::text::fields(head, sep);
        assert(fs.push(name).drop_last() =~= fs);
        assert(nonempty(fs.push(name)).last() == name);
    }
}

} // verus!
