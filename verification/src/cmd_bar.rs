//! Commands on the bar.

use vstd::prelude::*;
use crate::bar::{Bar, BarModel, BarModule, ExecMode, Executor, Part, Reader, SepStyle, Zone};
use crate::cmd_set::at_least;
use crate::double::{writes_at_least, written, Double, WHOLE};
use crate::number::{parse_i32, parse_u64, parse_usize, signed32, unsigned};
use crate::reply::{err, err3, err_about, err_text, ok, ok_text};
use crate::rules::DockAnchor;
use crate::state::{bump, bumped, Deed, Effect, State, World};
use crate::text::{after, same, strip_prefix, Text};
use crate::theme::{color_text, parse_color, Color};

verus! {

// --- creating ---------------------------------------------------------------------------------

/// What `bar create` is told.
#[derive(Debug)]
pub struct BarOptions {
    pub anchor: DockAnchor,
    pub mon: usize,
    pub height: i32,
    pub margin_x: i32,
    pub margin_y: i32,
    pub bg: Color,
    pub fg: Color,
    pub font: Option<String>,
}

/// What `bar create` is told, a string as a text.
#[verifier::ext_equal]
pub ghost struct BarWish {
    pub anchor: DockAnchor,
    pub mon: usize,
    pub height: i32,
    pub margin_x: i32,
    pub margin_y: i32,
    pub bg: Color,
    pub fg: Color,
    pub font: Option<Text>,
}

impl View for BarOptions {
    type V = BarWish;

    open spec fn view(&self) -> BarWish {
        BarWish {
            anchor: self.anchor,
            mon: self.mon,
            height: self.height,
            margin_x: self.margin_x,
            margin_y: self.margin_y,
            bg: self.bg,
            fg: self.fg,
            font: self.font.deep_view(),
        }
    }
}

/// A bar that nothing is told of.
pub open spec fn plain_bar() -> BarWish {
    BarWish {
        anchor: DockAnchor::Top,
        mon: 0,
        height: 26,
        margin_x: 0,
        margin_y: 0,
        bg: (0xf7u8, 0xf8u8, 0xf3u8, 0xffu8),
        fg: (0x1du8, 0x25u8, 0x2bu8, 0xffu8),
        font: None,
    }
}

/// The number that a text writes, not below a least one; the old one where it writes
/// none.
pub open spec fn number_or(s: Text, least: int, old: i32) -> i32 {
    match signed32(s) {
        Some(n) => at_least(n, least),
        None => old,
    }
}

/// The colour that a text writes; the old one where it writes none.
pub open spec fn color_or(s: Text, old: Color) -> Color {
    match color_text(s) {
        Some(c) => c,
        None => old,
    }
}

/// What one more word makes of a bar; none where the word says nothing. A value that
/// cannot be read leaves the old one.
pub open spec fn bar_word(o: BarWish, word: Text) -> Option<BarWish> {
    if word == "top"@ {
        Some(BarWish { anchor: DockAnchor::Top, ..o })
    } else if word == "bottom"@ {
        Some(BarWish { anchor: DockAnchor::Bottom, ..o })
    } else if let Some(v) = after(word, "height="@) {
        Some(BarWish { height: number_or(v, 1, o.height), ..o })
    } else if let Some(v) = after(word, "mon="@) {
        Some(
            BarWish {
                mon: match unsigned(v, usize::MAX as int) {
                    Some(n) => n as usize,
                    None => o.mon,
                },
                ..o
            },
        )
    } else if let Some(v) = after(word, "marginx="@) {
        Some(BarWish { margin_x: number_or(v, 0, o.margin_x), ..o })
    } else if let Some(v) = after(word, "marginy="@) {
        Some(BarWish { margin_y: number_or(v, 0, o.margin_y), ..o })
    } else if let Some(v) = after(word, "margin="@) {
        Some(
            BarWish {
                margin_x: number_or(v, 0, o.margin_x),
                margin_y: number_or(v, 0, o.margin_y),
                ..o
            },
        )
    } else if let Some(v) = after(word, "bg="@) {
        Some(BarWish { bg: color_or(v, o.bg), ..o })
    } else if let Some(v) = after(word, "fg="@) {
        Some(BarWish { fg: color_or(v, o.fg), ..o })
    } else if let Some(v) = after(word, "font="@) {
        Some(
            BarWish {
                font: if written(v) is Some {
                    Some(v)
                } else {
                    o.font
                },
                ..o
            },
        )
    } else {
        None
    }
}

/// What words make of a bar, or the first of them that says nothing.
pub open spec fn bar_words(words: Seq<Text>) -> Result<BarWish, Text>
    decreases words.len(),
{
    if words.len() == 0 {
        Ok(plain_bar())
    } else {
        match bar_words(words.drop_last()) {
            Err(e) => Err(e),
            Ok(o) => match bar_word(o, words.last()) {
                Some(n) => Ok(n),
                None => Err(words.last()),
            },
        }
    }
}

/// A bar as it is wished, without modules.
pub open spec fn bare_bar(o: BarWish) -> BarModel {
    BarModel {
        mon: o.mon,
        anchor: o.anchor,
        height: o.height,
        margin_x: o.margin_x,
        margin_y: o.margin_y,
        bg: o.bg,
        fg: o.fg,
        font: o.font,
        parts: Seq::empty(),
        hit: Seq::empty(),
        origin: (0, 0),
    }
}

/// The bar's modules gone, and their commands stopped.
pub open spec fn bar_cleared(w: World) -> World {
    match w.bar {
        Some(b) => (World { bar: Some(BarModel { parts: Seq::empty(), ..b }), ..w }).then_do(
            Deed::StopModules,
        ),
        None => w,
    }
}

/// `bar create [word]...`. The bar that there is already is made over.
pub open spec fn bar_create(w: World, a: Seq<Text>) -> (World, Text) {
    if !w.globals.compositor {
        (w, err_text("bar: no wl_compositor"@))
    } else if !w.globals.wm {
        (w, err_text("bar: no window manager"@))
    } else if !w.globals.shm {
        (w, err_text("bar: no wl_shm"@))
    } else {
        match bar_words(a) {
            Err(e) => (w, err_about("bar create: unknown option '"@, e, "'"@)),
            Ok(o) => {
                let v = bar_cleared(w);
                let u = World { bar: Some(bare_bar(o)), ..v };
                (
                    (if w.bar is None {
                        u.then_do(Deed::ShowBar)
                    } else {
                        u
                    }).manage(),
                    ok_text(),
                )
            },
        }
    }
}

/// The number that a string writes, not below a least one.
fn read_number(s: &str, least: i32, old: i32) -> (r: i32)
    ensures
        r == number_or(s@, least as int, old),
{
    match parse_i32(s) {
        Some(n) => if n > least {
            n
        } else {
            least
        },
        None => old,
    }
}

/// The colour that a string writes.
fn read_color(s: &str, old: Color) -> (r: Color)
    ensures
        r == color_or(s@, old),
{
    match parse_color(s) {
        Some(c) => c,
        None => old,
    }
}

impl BarOptions {
    /// Takes one more word; says whether it says something.
    pub fn take_word(&mut self, word: &str) -> (r: bool)
        ensures
            r == (bar_word(old(self)@, word@) is Some),
            r ==> final(self)@ == bar_word(old(self)@, word@)->0,
            !r ==> final(self)@ == old(self)@,
    {
        if same(word, "top") {
            self.anchor = DockAnchor::Top;
            return true;
        }
        if same(word, "bottom") {
            self.anchor = DockAnchor::Bottom;
            return true;
        }
        if let Some(v) = strip_prefix(word, "height=") {
            self.height = read_number(v.as_str(), 1, self.height);
            return true;
        }
        if let Some(v) = strip_prefix(word, "mon=") {
            if let Some(n) = parse_usize(v.as_str()) {
                self.mon = n;
            }
            return true;
        }
        if let Some(v) = strip_prefix(word, "marginx=") {
            self.margin_x = read_number(v.as_str(), 0, self.margin_x);
            return true;
        }
        if let Some(v) = strip_prefix(word, "marginy=") {
            self.margin_y = read_number(v.as_str(), 0, self.margin_y);
            return true;
        }
        if let Some(v) = strip_prefix(word, "margin=") {
            self.margin_x = read_number(v.as_str(), 0, self.margin_x);
            self.margin_y = read_number(v.as_str(), 0, self.margin_y);
            return true;
        }
        if let Some(v) = strip_prefix(word, "bg=") {
            self.bg = read_color(v.as_str(), self.bg);
            return true;
        }
        if let Some(v) = strip_prefix(word, "fg=") {
            self.fg = read_color(v.as_str(), self.fg);
            return true;
        }
        if let Some(v) = strip_prefix(word, "font=") {
            if Double::parse(v.as_str()).is_some() {
                self.font = Some(v);
            }
            return true;
        }
        false
    }
}

proof fn lemma_bar_word_stops(words: Seq<Text>, i: int)
    requires
        0 <= i < words.len(),
        bar_words(words.take(i + 1)) is Err,
    ensures
        bar_words(words) == bar_words(words.take(i + 1)),
    decreases words.len(),
{
    if i + 1 < words.len() {
        assert(words.drop_last().take(i + 1) =~= words.take(i + 1));
        lemma_bar_word_stops(words.drop_last(), i);
    } else {
        assert(words.take(i + 1) =~= words);
    }
}

/// Reads what `bar create` is told, or the first word that says nothing.
pub fn parse_bar_words(a: &[String]) -> (r: Result<BarOptions, String>)
    ensures
        match bar_words(a.deep_view()) {
            Ok(o) => r is Ok && r->Ok_0@ == o,
            Err(e) => r is Err && r->Err_0@ == e,
        },
{
    let ghost all = a.deep_view();
    let mut o = BarOptions {
        anchor: DockAnchor::Top,
        mon: 0,
        height: 26,
        margin_x: 0,
        margin_y: 0,
        bg: (0xf7, 0xf8, 0xf3, 0xff),
        fg: (0x1d, 0x25, 0x2b, 0xff),
        font: None,
    };
    let mut i: usize = 0;
    assert(all.take(0) =~= Seq::<Text>::empty());
    while i < a.len()
        invariant
            i <= a@.len(),
            all == a.deep_view(),
            bar_words(all.take(i as int)) == Ok::<BarWish, Text>(o@),
        decreases a@.len() - i,
    {
        assert(all.take(i + 1).drop_last() =~= all.take(i as int));
        assert(all.take(i + 1).last() == a@[i as int]@);
        if !o.take_word(a[i].as_str()) {
            proof {
                lemma_bar_word_stops(all, i as int);
            }
            return Err(a[i].clone());
        }
        i += 1;
    }
    assert(all.take(i as int) =~= all);
    Ok(o)
}

impl State {
    /// Takes the bar's modules away and stops their commands.
    pub fn teardown_bar_modules(&mut self)
        requires
            old(self)@.wf(),
        ensures
            final(self)@ == bar_cleared(old(self)@),
            final(self)@.wf(),
    {
        let mut there: bool = false;
        if let Some(bar) = &mut self.bar {
            bar.modules.clear();
            there = true;
        }
        proof {
            if there {
                assert(self@.bar->0.parts =~= Seq::empty());
                assert(self@.bar =~= Some(BarModel { parts: Seq::empty(), ..old(self)@.bar->0 }));
            }
        }
        if there {
            self.perform(Effect::StopModules);
        }
    }
}

pub fn cmd_bar_create(state: &mut State, a: &[String]) -> (r: String)
    requires
        old(state)@.wf(),
    ensures
        (final(state)@, r@) == bar_create(old(state)@, a.deep_view()),
        final(state)@.wf(),
{
    if !state.globals.compositor {
        return err("bar: no wl_compositor");
    }
    if !state.globals.wm {
        return err("bar: no window manager");
    }
    if !state.globals.shm {
        return err("bar: no wl_shm");
    }
    match parse_bar_words(a) {
        Err(e) => err3("bar create: unknown option '", e.as_str(), "'"),
        Ok(o) => {
            let fresh: bool = state.bar.is_none();
            state.teardown_bar_modules();
            let bar = Bar {
                mon: o.mon,
                anchor: o.anchor,
                height: o.height,
                margin_x: o.margin_x,
                margin_y: o.margin_y,
                bg: o.bg,
                fg: o.fg,
                font: o.font,
                modules: Vec::new(),
                hit: Vec::new(),
                origin: (0, 0),
            };
            proof {
                assert(bar.modules.deep_view() =~= Seq::<Part>::empty());
                assert(bar.hit.deep_view() =~= Seq::<Zone>::empty());
            }
            state.bar = Some(bar);
            if fresh {
                state.perform(Effect::ShowBar);
            }
            state.request_manage();
            ok()
        },
    }
}

// --- adding -------------------------------------------------------------------------------------

/// The bar with one more module.
pub open spec fn with_part(w: World, p: Part) -> World {
    match w.bar {
        Some(b) => World { bar: Some(BarModel { parts: b.parts.push(p), ..b }), ..w },
        None => w,
    }
}

/// Adds a module to the bar.
fn push_module(state: &mut State, m: BarModule)
    requires
        old(state)@.wf(),
    ensures
        final(state)@ == with_part(old(state)@, m.deep_view()),
        final(state)@.wf(),
{
    if let Some(bar) = &mut state.bar {
        bar.modules.push(m);
        assert(bar.modules.deep_view() =~= old(state).bar->0.modules.deep_view().push(m.deep_view()));
    }
}

/// What one more word makes of a separator, or what is said of it.
pub open spec fn separator_word(
    p: (i32, Color, SepStyle),
    word: Text,
) -> Result<(i32, Color, SepStyle), Text> {
    if let Some(v) = after(word, "size="@) {
        Ok((number_or(v, 0, p.0), p.1, p.2))
    } else if let Some(v) = after(word, "color="@) {
        Ok((p.0, color_or(v, p.1), p.2))
    } else if let Some(v) = after(word, "style="@) {
        if v == "line"@ {
            Ok((p.0, p.1, SepStyle::Line))
        } else if v == "empty"@ || v == "none"@ || v == "invisible"@ {
            Ok((p.0, p.1, SepStyle::Empty))
        } else if v == "dot"@ {
            Ok((p.0, p.1, SepStyle::Dot))
        } else {
            Err(err_about("bar add separator: unknown style '"@, v, "'"@))
        }
    } else {
        Err(err_about("bar add separator: unknown option '"@, word, "'"@))
    }
}

/// What words make of a separator.
pub open spec fn separator_words(words: Seq<Text>) -> Result<(i32, Color, SepStyle), Text>
    decreases words.len(),
{
    if words.len() == 0 {
        Ok((6i32, (0x77u8, 0x77u8, 0x77u8, 0xffu8), SepStyle::Line))
    } else {
        match separator_words(words.drop_last()) {
            Err(e) => Err(e),
            Ok(p) => separator_word(p, words.last()),
        }
    }
}

/// What one more word makes of a tray's size and spacing, or what is said of it.
pub open spec fn tray_word(p: (i32, i32), word: Text) -> Result<(i32, i32), Text> {
    if let Some(v) = after(word, "size="@) {
        Ok((number_or(v, 0, p.0), p.1))
    } else if let Some(v) = after(word, "spacing="@) {
        Ok((p.0, number_or(v, 0, p.1)))
    } else {
        Err(err_about("bar add tray: unknown option '"@, word, "'"@))
    }
}

/// What words make of a tray's size and spacing.
pub open spec fn tray_words(words: Seq<Text>) -> Result<(i32, i32), Text>
    decreases words.len(),
{
    if words.len() == 0 {
        Ok((0i32, 6i32))
    } else {
        match tray_words(words.drop_last()) {
            Err(e) => Err(e),
            Ok(p) => tray_word(p, words.last()),
        }
    }
}

/// The least size of a font, in units of 2^-111: 1 - 2^-25, the least that is one as a
/// floating point number of single precision.
pub const LEAST_SIZE: u128 = WHOLE - 77371252455336267181195264;

/// Whether the text writes a number that is at least one in single precision.
pub open spec fn is_size(s: Text) -> bool {
    writes_at_least(s, LEAST_SIZE)
}

/// A module as its words make it: how often its command runs, and the rest.
pub ghost struct ReaderWish {
    pub mode: ExecMode,
    pub reader: Reader,
}

/// What one more word makes of a module, or what is said of it.
pub open spec fn reader_word(p: ReaderWish, word: Text) -> Result<ReaderWish, Text> {
    let e = p.reader;
    if word == "continuous"@ {
        Ok(ReaderWish { mode: ExecMode::Continuous, ..p })
    } else if let Some(v) = after(word, "interval="@) {
        match unsigned(v, u64::MAX as int) {
            Some(n) => Ok(ReaderWish { mode: ExecMode::Interval(n as u64), ..p }),
            None => Err(err_about("bar add executor: bad interval '"@, v, "'"@)),
        }
    } else if let Some(v) = after(word, "fg="@) {
        Ok(ReaderWish { reader: Reader { fg: color_text(v), ..e }, ..p })
    } else if let Some(v) = after(word, "bg="@) {
        Ok(ReaderWish { reader: Reader { bg: color_text(v), ..e }, ..p })
    } else if let Some(v) = after(word, "pad="@) {
        Ok(ReaderWish { reader: Reader { pad: number_or(v, 0, e.pad), ..e }, ..p })
    } else if let Some(v) = after(word, "lclick="@) {
        Ok(ReaderWish { reader: Reader { lclick: Some(v), ..e }, ..p })
    } else if let Some(v) = after(word, "rclick="@) {
        Ok(ReaderWish { reader: Reader { rclick: Some(v), ..e }, ..p })
    } else if let Some(v) = after(word, "family="@) {
        Ok(ReaderWish { reader: Reader { family: Some(v), ..e }, ..p })
    } else if let Some(v) = after(word, "size="@) {
        if is_size(v) {
            Ok(ReaderWish { reader: Reader { size: Some(v), ..e }, ..p })
        } else {
            Err(err_about("bar add executor: bad size '"@, v, "'"@))
        }
    } else {
        Err(err_about("bar add executor: unknown option '"@, word, "'"@))
    }
}

/// A module that nothing is told of.
pub open spec fn plain_reader(id: u64) -> ReaderWish {
    ReaderWish {
        mode: ExecMode::Interval(0),
        reader: Reader {
            id,
            fg: None,
            bg: None,
            pad: 4,
            family: None,
            size: None,
            lclick: None,
            rclick: None,
            text: Seq::empty(),
        },
    }
}

/// What words make of a module.
pub open spec fn reader_words(id: u64, words: Seq<Text>) -> Result<ReaderWish, Text>
    decreases words.len(),
{
    if words.len() == 0 {
        Ok(plain_reader(id))
    } else {
        match reader_words(id, words.drop_last()) {
            Err(e) => Err(e),
            Ok(p) => reader_word(p, words.last()),
        }
    }
}

/// `bar add executor <command> [word]...`.
pub open spec fn add_executor(w: World, a: Seq<Text>) -> (World, Text) {
    if a.len() == 0 {
        (w, err_text("bar add executor: expected a command"@))
    } else {
        match reader_words(w.next_bar_module, a.skip(1)) {
            Err(e) => (w, e),
            Ok(p) => {
                let v = (World { next_bar_module: bump(w.next_bar_module), ..w }).then_do(
                    Deed::StartModule { id: w.next_bar_module, command: a[0], mode: p.mode },
                );
                (with_part(v, Part::Reader(p.reader)).manage(), ok_text())
            },
        }
    }
}

/// `bar add <module> [word]...`.
pub open spec fn bar_add(w: World, a: Seq<Text>) -> (World, Text) {
    if w.bar is None {
        (w, err_text("bar add: no bar yet (run 'bar create' first)"@))
    } else if a.len() == 0 {
        (w, err_text("bar add: expected executor|separator|spacer|tray"@))
    } else if a[0] == "executor"@ {
        add_executor(w, a.skip(1))
    } else if a[0] == "separator"@ {
        match separator_words(a.skip(1)) {
            Err(e) => (w, e),
            Ok((size, color, style)) => (
                with_part(w, Part::Separator { size, color, style }).manage(),
                ok_text(),
            ),
        }
    } else if a[0] == "spacer"@ {
        (with_part(w, Part::Spacer).manage(), ok_text())
    } else if a[0] == "tray"@ {
        match tray_words(a.skip(1)) {
            Err(e) => (w, e),
            Ok((size, spacing)) => (with_part(w, Part::Tray { size, spacing }).manage(), ok_text()),
        }
    } else {
        (w, err_about("bar add: unknown module '"@, a[0], "'"@))
    }
}

fn take_separator_word(p: (i32, Color, SepStyle), word: &str) -> (r: Result<(i32, Color, SepStyle), String>)
    ensures
        match separator_word(p, word@) {
            Ok(q) => r == Ok::<(i32, Color, SepStyle), String>(q),
            Err(e) => r is Err && r->Err_0@ == e,
        },
{
    if let Some(v) = strip_prefix(word, "size=") {
        return Ok((read_number(v.as_str(), 0, p.0), p.1, p.2));
    }
    if let Some(v) = strip_prefix(word, "color=") {
        return Ok((p.0, read_color(v.as_str(), p.1), p.2));
    }
    if let Some(v) = strip_prefix(word, "style=") {
        let s = v.as_str();
        return if same(s, "line") {
            Ok((p.0, p.1, SepStyle::Line))
        } else if same(s, "empty") || same(s, "none") || same(s, "invisible") {
            Ok((p.0, p.1, SepStyle::Empty))
        } else if same(s, "dot") {
            Ok((p.0, p.1, SepStyle::Dot))
        } else {
            Err(err3("bar add separator: unknown style '", s, "'"))
        };
    }
    Err(err3("bar add separator: unknown option '", word, "'"))
}

proof fn lemma_separator_stops(words: Seq<Text>, i: int)
    requires
        0 <= i < words.len(),
        separator_words(words.take(i + 1)) is Err,
    ensures
        separator_words(words) == separator_words(words.take(i + 1)),
    decreases words.len(),
{
    if i + 1 < words.len() {
        assert(words.drop_last().take(i + 1) =~= words.take(i + 1));
        lemma_separator_stops(words.drop_last(), i);
    } else {
        assert(words.take(i + 1) =~= words);
    }
}

fn parse_separator(a: &[String], from: usize) -> (r: Result<(i32, Color, SepStyle), String>)
    requires
        from <= a@.len(),
    ensures
        match separator_words(a.deep_view().skip(from as int)) {
            Ok(q) => r == Ok::<(i32, Color, SepStyle), String>(q),
            Err(e) => r is Err && r->Err_0@ == e,
        },
{
    let ghost all = a.deep_view().skip(from as int);
    let mut p: (i32, Color, SepStyle) = (6, (0x77, 0x77, 0x77, 0xff), SepStyle::Line);
    let mut i: usize = from;
    assert(all.take(0) =~= Seq::<Text>::empty());
    while i < a.len()
        invariant
            from <= i <= a@.len(),
            all == a.deep_view().skip(from as int),
            separator_words(all.take(i - from)) == Ok::<(i32, Color, SepStyle), Text>(p),
        decreases a@.len() - i,
    {
        assert(all.take(i - from + 1).drop_last() =~= all.take(i - from));
        assert(all.take(i - from + 1).last() == a@[i as int]@);
        match take_separator_word(p, a[i].as_str()) {
            Ok(q) => {
                p = q;
            },
            Err(e) => {
                proof {
                    lemma_separator_stops(all, i - from);
                }
                return Err(e);
            },
        }
        i += 1;
    }
    assert(all.take(i - from) =~= all);
    Ok(p)
}

proof fn lemma_tray_stops(words: Seq<Text>, i: int)
    requires
        0 <= i < words.len(),
        tray_words(words.take(i + 1)) is Err,
    ensures
        tray_words(words) == tray_words(words.take(i + 1)),
    decreases words.len(),
{
    if i + 1 < words.len() {
        assert(words.drop_last().take(i + 1) =~= words.take(i + 1));
        lemma_tray_stops(words.drop_last(), i);
    } else {
        assert(words.take(i + 1) =~= words);
    }
}

fn parse_tray(a: &[String], from: usize) -> (r: Result<(i32, i32), String>)
    requires
        from <= a@.len(),
    ensures
        match tray_words(a.deep_view().skip(from as int)) {
            Ok(q) => r == Ok::<(i32, i32), String>(q),
            Err(e) => r is Err && r->Err_0@ == e,
        },
{
    let ghost all = a.deep_view().skip(from as int);
    let mut p: (i32, i32) = (0, 6);
    let mut i: usize = from;
    assert(all.take(0) =~= Seq::<Text>::empty());
    while i < a.len()
        invariant
            from <= i <= a@.len(),
            all == a.deep_view().skip(from as int),
            tray_words(all.take(i - from)) == Ok::<(i32, i32), Text>(p),
        decreases a@.len() - i,
    {
        assert(all.take(i - from + 1).drop_last() =~= all.take(i - from));
        assert(all.take(i - from + 1).last() == a@[i as int]@);
        let word = a[i].as_str();
        if let Some(v) = strip_prefix(word, "size=") {
            p = (read_number(v.as_str(), 0, p.0), p.1);
        } else if let Some(v) = strip_prefix(word, "spacing=") {
            p = (p.0, read_number(v.as_str(), 0, p.1));
        } else {
            proof {
                lemma_tray_stops(all, i - from);
            }
            return Err(err3("bar add tray: unknown option '", word, "'"));
        }
        i += 1;
    }
    assert(all.take(i - from) =~= all);
    Ok(p)
}

/// A module as its words make it.
pub struct ExecutorOptions {
    pub mode: ExecMode,
    pub executor: Executor,
}

impl View for ExecutorOptions {
    type V = ReaderWish;

    open spec fn view(&self) -> ReaderWish {
        ReaderWish { mode: self.mode, reader: self.executor.deep_view() }
    }
}

/// Whether the string writes a number of at least one.
fn reads_size(s: &str) -> (r: bool)
    ensures
        r == is_size(s@),
{
    Double::reads_at_least(s, LEAST_SIZE)
}

impl ExecutorOptions {
    /// Takes one more word, or says what is wrong with it.
    pub fn take_word(&mut self, word: &str) -> (r: Result<(), String>)
        ensures
            match reader_word(old(self)@, word@) {
                Ok(q) => r is Ok && final(self)@ == q,
                Err(e) => r is Err && r->Err_0@ == e && final(self)@ == old(self)@,
            },
    {
        if same(word, "continuous") {
            self.mode = ExecMode::Continuous;
            return Ok(());
        }
        if let Some(v) = strip_prefix(word, "interval=") {
            return match parse_u64(v.as_str()) {
                Some(n) => {
                    self.mode = ExecMode::Interval(n);
                    Ok(())
                },
                None => Err(err3("bar add executor: bad interval '", v.as_str(), "'")),
            };
        }
        if let Some(v) = strip_prefix(word, "fg=") {
            self.executor.fg = parse_color(v.as_str());
            return Ok(());
        }
        if let Some(v) = strip_prefix(word, "bg=") {
            self.executor.bg = parse_color(v.as_str());
            return Ok(());
        }
        if let Some(v) = strip_prefix(word, "pad=") {
            self.executor.pad = read_number(v.as_str(), 0, self.executor.pad);
            return Ok(());
        }
        if let Some(v) = strip_prefix(word, "lclick=") {
            self.executor.lclick = Some(v);
            return Ok(());
        }
        if let Some(v) = strip_prefix(word, "rclick=") {
            self.executor.rclick = Some(v);
            return Ok(());
        }
        if let Some(v) = strip_prefix(word, "family=") {
            self.executor.family = Some(v);
            return Ok(());
        }
        if let Some(v) = strip_prefix(word, "size=") {
            if reads_size(v.as_str()) {
                self.executor.size = Some(v);
                return Ok(());
            }
            return Err(err3("bar add executor: bad size '", v.as_str(), "'"));
        }
        Err(err3("bar add executor: unknown option '", word, "'"))
    }
}

proof fn lemma_reader_stops(id: u64, words: Seq<Text>, i: int)
    requires
        0 <= i < words.len(),
        reader_words(id, words.take(i + 1)) is Err,
    ensures
        reader_words(id, words) == reader_words(id, words.take(i + 1)),
    decreases words.len(),
{
    if i + 1 < words.len() {
        assert(words.drop_last().take(i + 1) =~= words.take(i + 1));
        lemma_reader_stops(id, words.drop_last(), i);
    } else {
        assert(words.take(i + 1) =~= words);
    }
}

/// Reads what a module is told.
pub fn parse_executor(id: u64, a: &[String], from: usize) -> (r: Result<ExecutorOptions, String>)
    requires
        from <= a@.len(),
    ensures
        match reader_words(id, a.deep_view().skip(from as int)) {
            Ok(q) => r is Ok && r->Ok_0@ == q,
            Err(e) => r is Err && r->Err_0@ == e,
        },
{
    let ghost all = a.deep_view().skip(from as int);
    let mut p = ExecutorOptions {
        mode: ExecMode::Interval(0),
        executor: Executor {
            id,
            fg: None,
            bg: None,
            pad: 4,
            family: None,
            size: None,
            lclick: None,
            rclick: None,
            text: String::new(),
        },
    };
    let mut i: usize = from;
    assert(all.take(0) =~= Seq::<Text>::empty());
    assert(p@ == plain_reader(id));
    while i < a.len()
        invariant
            from <= i <= a@.len(),
            all == a.deep_view().skip(from as int),
            reader_words(id, all.take(i - from)) == Ok::<ReaderWish, Text>(p@),
        decreases a@.len() - i,
    {
        assert(all.take(i - from + 1).drop_last() =~= all.take(i - from));
        assert(all.take(i - from + 1).last() == a@[i as int]@);
        if let Err(e) = p.take_word(a[i].as_str()) {
            proof {
                lemma_reader_stops(id, all, i - from);
            }
            return Err(e);
        }
        i += 1;
    }
    assert(all.take(i - from) =~= all);
    Ok(p)
}

/// Carries out `bar add executor`, whose words start at `from`.
fn cmd_bar_add_executor(state: &mut State, a: &[String], from: usize) -> (r: String)
    requires
        old(state)@.wf(),
        from <= a.len(),
    ensures
        (final(state)@, r@) == add_executor(old(state)@, a.deep_view().skip(from as int)),
        final(state)@.wf(),
{
    let ghost all = a.deep_view().skip(from as int);
    if from == a.len() {
        return err("bar add executor: expected a command");
    }
    assert(all[0] == a@[from as int]@);
    assert(all.skip(1) =~= a.deep_view().skip(from + 1));
    let id: u64 = state.next_bar_module;
    match parse_executor(id, a, from + 1) {
        Err(e) => e,
        Ok(p) => {
            state.next_bar_module = bumped(id);
            state.perform(Effect::StartModule { id, command: a[from].clone(), mode: p.mode });
            push_module(state, BarModule::Executor(p.executor));
            state.request_manage();
            ok()
        },
    }
}

/// Carries out `bar add`, whose words start at `from`.
pub fn cmd_bar_add(state: &mut State, a: &[String], from: usize) -> (r: String)
    requires
        old(state)@.wf(),
        from <= a.len(),
    ensures
        (final(state)@, r@) == bar_add(old(state)@, a.deep_view().skip(from as int)),
        final(state)@.wf(),
{
    let ghost all = a.deep_view().skip(from as int);
    if state.bar.is_none() {
        return err("bar add: no bar yet (run 'bar create' first)");
    }
    if from == a.len() {
        return err("bar add: expected executor|separator|spacer|tray");
    }
    assert(all[0] == a@[from as int]@);
    assert(all.skip(1) =~= a.deep_view().skip(from + 1));
    let kind = a[from].as_str();
    if same(kind, "executor") {
        cmd_bar_add_executor(state, a, from + 1)
    } else if same(kind, "separator") {
        match parse_separator(a, from + 1) {
            Err(e) => e,
            Ok((size, color, style)) => {
                push_module(state, BarModule::Separator { size, color, style });
                state.request_manage();
                ok()
            },
        }
    } else if same(kind, "spacer") {
        push_module(state, BarModule::Spacer);
        state.request_manage();
        ok()
    } else if same(kind, "tray") {
        match parse_tray(a, from + 1) {
            Err(e) => e,
            Ok((size, spacing)) => {
                push_module(state, BarModule::Tray { size, spacing });
                state.request_manage();
                ok()
            },
        }
    } else {
        err3("bar add: unknown module '", kind, "'")
    }
}

// --- the command ----------------------------------------------------------------------------------

/// The bar taken away.
pub open spec fn bar_destroyed(w: World) -> World {
    let v = bar_cleared(w);
    if v.bar is Some {
        (World { bar: None, ..v }).then_do(Deed::HideBar)
    } else {
        v
    }
}

/// `bar <create|add|clear|destroy> ...`.
pub open spec fn bar(w: World, a: Seq<Text>) -> (World, Text) {
    if a.len() == 0 {
        (w, err_text("bar: expected a subcommand (create/add/clear)"@))
    } else if a[0] == "create"@ {
        bar_create(w, a.skip(1))
    } else if a[0] == "add"@ {
        bar_add(w, a.skip(1))
    } else if a[0] == "clear"@ {
        (bar_cleared(w).manage(), ok_text())
    } else if a[0] == "destroy"@ {
        (bar_destroyed(w).manage(), ok_text())
    } else {
        (w, err_about("bar: unknown subcommand '"@, a[0], "'"@))
    }
}

pub fn cmd_bar(state: &mut State, a: &[String]) -> (r: String)
    requires
        old(state)@.wf(),
    ensures
        (final(state)@, r@) == bar(old(state)@, a.deep_view()),
        final(state)@.wf(),
{
    if a.len() == 0 {
        return err("bar: expected a subcommand (create/add/clear)");
    }
    assert(a.deep_view()[0] == a@[0]@);
    let what = a[0].as_str();
    if same(what, "create") {
        let rest = vstd::slice::slice_subrange(a, 1, a.len());
        assert(rest.deep_view() =~= a.deep_view().skip(1));
        cmd_bar_create(state, rest)
    } else if same(what, "add") {
        cmd_bar_add(state, a, 1)
    } else if same(what, "clear") {
        state.teardown_bar_modules();
        state.request_manage();
        ok()
    } else if same(what, "destroy") {
        state.teardown_bar_modules();
        if state.bar.is_some() {
            state.bar = None;
            state.perform(Effect::HideBar);
        }
        state.request_manage();
        ok()
    } else {
        err3("bar: unknown subcommand '", what, "'")
    }
}

} // verus!
