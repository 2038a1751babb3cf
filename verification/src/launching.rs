//! Opening, using and closing the launcher.

use vstd::prelude::*;
use crate::launcher::{chosen, keyed, opened, Launcher, LauncherKey, LauncherModel, Stroke};
use crate::state::{Deed, Effect, State, World};
use crate::text::Text;

verus! {

/// The launcher taken away, where it is open.
pub open spec fn launcher_closed(w: World) -> World {
    if w.launcher is Some {
        (World { launcher: None, ..w }).then_do(Deed::HideLauncher).manage()
    } else {
        w
    }
}

/// The launcher opened on entries, where the display offers what it takes.
pub open spec fn launcher_opened(w: World, entries: Seq<Text>, execs: Option<Seq<Text>>) -> World {
    if w.globals.compositor && w.globals.wm {
        (World { launcher: Some(opened(entries, execs)), ..w }).then_do(Deed::ShowLauncher).manage()
    } else {
        w
    }
}

/// The names of applications.
pub open spec fn app_names(apps: Seq<(Text, Text)>) -> Seq<Text> {
    apps.map_values(|p: (Text, Text)| p.0)
}

/// The commands of applications.
pub open spec fn app_commands(apps: Seq<(Text, Text)>) -> Seq<Text> {
    apps.map_values(|p: (Text, Text)| p.1)
}

/// The launcher opened on the applications that are known.
pub open spec fn apps_opened(w: World) -> World {
    launcher_opened(w, app_names(w.apps), Some(app_commands(w.apps)))
}

/// The launcher opened on lines to pick one from, in place of any that is open.
pub open spec fn menu_opened(w: World, items: Seq<Text>) -> World {
    launcher_opened(launcher_closed(w), items, None)
}

impl State {
    /// Takes the launcher away, where it is open.
    pub fn close_launcher(&mut self)
        requires
            old(self)@.wf(),
        ensures
            final(self)@ == launcher_closed(old(self)@),
            final(self)@.wf(),
    {
        if self.launcher.is_some() {
            self.launcher = None;
            self.perform(Effect::HideLauncher);
            self.request_manage();
        }
    }

    /// Opens the launcher on entries.
    pub fn open_launcher_with(&mut self, entries: Vec<String>, execs: Option<Vec<String>>)
        requires
            old(self)@.wf(),
        ensures
            final(self)@ == launcher_opened(old(self)@, entries.deep_view(), execs.deep_view()),
            final(self)@.wf(),
    {
        if !self.globals.compositor || !self.globals.wm {
            return;
        }
        self.launcher = Some(Launcher::open(entries, execs));
        self.perform(Effect::ShowLauncher);
        self.request_manage();
    }

    /// Opens the launcher on the applications that are known.
    pub fn open_apps(&mut self)
        requires
            old(self)@.wf(),
        ensures
            final(self)@ == apps_opened(old(self)@),
            final(self)@.wf(),
    {
        let ghost all = self@.apps;
        let mut names: Vec<String> = Vec::new();
        let mut commands: Vec<String> = Vec::new();
        let mut i: usize = 0;
        assert(names.deep_view() =~= app_names(all).take(0));
        assert(commands.deep_view() =~= app_commands(all).take(0));
        while i < self.apps.len()
            invariant
                i <= self.apps@.len() == all.len(),
                all == self@.apps,
                self@ == old(self)@,
                self@.wf(),
                names.deep_view() == app_names(all).take(i as int),
                commands.deep_view() == app_commands(all).take(i as int),
            decreases self.apps@.len() - i,
        {
            let ghost n0 = names.deep_view();
            let ghost c0 = commands.deep_view();
            assert(all[i as int] == self.apps@[i as int].deep_view());
            names.push(self.apps[i].name.clone());
            commands.push(self.apps[i].command.clone());
            i += 1;
            proof {
                assert(names.deep_view() =~= n0.push(all[i - 1].0));
                assert(commands.deep_view() =~= c0.push(all[i - 1].1));
                assert(app_names(all).take(i as int) =~= n0.push(all[i - 1].0));
                assert(app_commands(all).take(i as int) =~= c0.push(all[i - 1].1));
            }
        }
        proof {
            assert(app_names(all).take(i as int) =~= app_names(all));
            assert(app_commands(all).take(i as int) =~= app_commands(all));
        }
        self.open_launcher_with(names, Some(commands));
    }

    /// Opens the launcher on lines to pick one from.
    pub fn open_launcher_menu(&mut self, items: Vec<String>)
        requires
            old(self)@.wf(),
        ensures
            final(self)@ == menu_opened(old(self)@, items.deep_view()),
            final(self)@.wf(),
    {
        self.close_launcher();
        self.open_launcher_with(items, None);
    }
}

/// What comes of a key while the launcher is open.
#[derive(Debug)]
pub enum Launch {
    /// Nothing more is to be done.
    Nothing,
    /// A command is to be run.
    Run(String),
    /// A line was picked.
    Pick(String),
}

/// What comes of a key, a string as a text.
pub ghost enum Upshot {
    Nothing,
    Run(Text),
    Pick(Text),
}

impl View for Launch {
    type V = Upshot;

    open spec fn view(&self) -> Upshot {
        match self {
            Launch::Nothing => Upshot::Nothing,
            Launch::Run(s) => Upshot::Run(s@),
            Launch::Pick(s) => Upshot::Pick(s@),
        }
    }
}

/// What the marked match comes to.
pub open spec fn launch_of(l: LauncherModel) -> Upshot {
    match chosen(l) {
        Some(t) => if l.execs is Some {
            Upshot::Run(t)
        } else {
            Upshot::Pick(t)
        },
        None => Upshot::Nothing,
    }
}

/// A key taken while the launcher is open: one closes it, one acts on the marked match
/// and closes it, and any other changes the search.
pub open spec fn launcher_keyed(w: World, k: Stroke) -> (World, Upshot) {
    match w.launcher {
        None => (w, Upshot::Nothing),
        Some(l) => match k {
            Stroke::Escape => (launcher_closed(w), Upshot::Nothing),
            Stroke::Enter => (launcher_closed(w), launch_of(l)),
            _ => (
                (World { launcher: Some(keyed(l, k)), ..w }).manage(),
                Upshot::Nothing,
            ),
        },
    }
}

/// Takes a key while the launcher is open.
pub fn launcher_key(state: &mut State, k: &LauncherKey) -> (r: Launch)
    requires
        old(state)@.wf(),
    ensures
        (final(state)@, r@) == launcher_keyed(old(state)@, k@),
        final(state)@.wf(),
{
    match k {
        LauncherKey::Escape => {
            state.close_launcher();
            Launch::Nothing
        },
        LauncherKey::Enter => {
            let r = match &state.launcher {
                None => Launch::Nothing,
                Some(l) => match l.choice() {
                    Some(t) => if l.execs.is_some() {
                        Launch::Run(t)
                    } else {
                        Launch::Pick(t)
                    },
                    None => Launch::Nothing,
                },
            };
            state.close_launcher();
            r
        },
        _ => {
            let mut open: bool = false;
            if let Some(l) = &mut state.launcher {
                l.key(k);
                open = true;
            }
            if open {
                state.request_manage();
            }
            Launch::Nothing
        },
    }
}

} // verus!
