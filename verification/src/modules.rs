use crate::grammar::parse_spec;
use crate::parser::ParseError;
use crate::segment::{views, SegmentView};
use crate::slots::{Action, CommandOutput};
use crate::template::{compile, Template};
use vstd::prelude::*;
use vstd::std_specs::convert::FromSpecImpl;

verus! {

/// How a command is run: once, again and again at an interval, or once with
/// its output watched line by line.
#[derive(Debug, Clone, Copy, PartialEq, Eq)]
pub enum ScriptMode {
    Once,
    Poll,
    Watch,
}

/// A command made ready to run.
#[derive(Debug, Clone, PartialEq, Eq)]
pub struct Script {
    pub mode: ScriptMode,
    pub cmd: String,
    /// Milliseconds between two runs.
    pub interval: u64,
}

/// A label that shows what a script prints.
#[derive(Debug, Clone, PartialEq, Eq)]
pub struct ScriptModule {
    /// Path to the script to execute.
    pub cmd: String,
    /// Script execution mode.
    pub mode: ScriptMode,
    /// Time in milliseconds between executions.
    pub interval: u64,
}

/// The mode of a script module that names none: polling.
pub fn default_mode() -> (res: ScriptMode)
    ensures
        res == ScriptMode::Poll,
{
    ScriptMode::Poll
}

/// The interval of a script module that names none: 5000 ms.
pub fn default_interval() -> (res: u64)
    ensures
        res == 5000,
{
    5000
}

impl From<&ScriptModule> for Script {
    fn from(module: &ScriptModule) -> (res: Script) {
        Script { mode: module.mode, cmd: module.cmd.clone(), interval: module.interval }
    }
}

impl FromSpecImpl<&ScriptModule> for Script {
    open spec fn obeys_from_spec() -> bool {
        true
    }

    open spec fn from_spec(module: &ScriptModule) -> Script {
        Script { mode: module.mode, cmd: module.cmd, interval: module.interval }
    }
}

impl ScriptModule {
    /// The module for `cmd`, polled at the default interval.
    pub fn new(cmd: String) -> (res: ScriptModule)
        ensures
            res == (ScriptModule { cmd, mode: ScriptMode::Poll, interval: 5000 }),
    {
        ScriptModule { cmd, mode: default_mode(), interval: default_interval() }
    }

    /// The name under which the module is configured.
    pub fn name() -> (res: &'static str)
        ensures
            res@ == "script"@,
    {
        "script"
    }

    /// What to do with a line the script has produced: primary output becomes
    /// the label's text, diagnostics are passed on for reporting.
    pub fn on_output(output: CommandOutput) -> (res: Action)
        ensures
            match output {
                CommandOutput::Primary(line) => res == Action::Render(line),
                CommandOutput::Diagnostic(message) => res == Action::Report(message),
            },
    {
        match output {
            CommandOutput::Primary(line) => Action::Render(line),
            CommandOutput::Diagnostic(message) => Action::Report(message),
        }
    }
}

/// What is known of one open window.
#[derive(Debug, Clone, PartialEq, Eq)]
pub struct ToplevelInfo {
    pub title: String,
    pub app_id: String,
    pub focused: bool,
}

/// What the focused-window widget is to show after an update. `None` leaves
/// that part of the widget alone.
#[derive(Debug, Clone, PartialEq, Eq)]
pub struct FocusedView {
    /// Whether the icon is visible.
    pub icon_visible: Option<bool>,
    /// The label's text.
    pub label: Option<String>,
}

/// Shows the title and icon of the focused window.
#[derive(Debug, Clone, PartialEq, Eq)]
pub struct FocusedModule {
    /// Whether to show the icon on the bar.
    pub show_icon: bool,
    /// Whether to show the app name on the bar.
    pub show_title: bool,
    /// Icon size in pixels.
    pub icon_size: i32,
}

/// The icon size of a focused-window module that names none: 32 pixels.
pub fn default_icon_size() -> (res: i32)
    ensures
        res == 32,
{
    32
}

impl Default for FocusedModule {
    fn default() -> (res: FocusedModule)
        ensures
            res == (FocusedModule { show_icon: true, show_title: true, icon_size: 32 }),
    {
        FocusedModule { show_icon: true, show_title: true, icon_size: default_icon_size() }
    }
}

/// `i` is the first window of `windows` that is known and focused.
pub open spec fn first_focused(windows: Seq<Option<ToplevelInfo>>, i: int) -> bool {
    &&& 0 <= i < windows.len()
    &&& windows[i] matches Some(info) && info.focused
    &&& forall|j: int| 0 <= j < i ==> !(#[trigger] windows[j] matches Some(info) && info.focused)
}

impl FocusedModule {
    /// The name under which the module is configured.
    pub fn name() -> (res: &'static str)
        ensures
            res@ == "focused"@,
    {
        "focused"
    }

    /// The title and app id to show at the start: those of the first window in
    /// `windows` that is known and focused, if there is one.
    pub fn initial_focus(windows: &Vec<Option<ToplevelInfo>>) -> (res: Option<(String, String)>)
        ensures
            match res {
                Some((title, app_id)) => exists|i: int|
                    first_focused(windows@, i) && windows@[i]->0.title == title && windows@[i]->0.app_id
                        == app_id,
                None => forall|j: int|
                    0 <= j < windows@.len() ==> !(#[trigger] windows@[j] matches Some(info)
                        && info.focused),
            },
    {
        let n: usize = windows.len();
        let mut i: usize = 0;
        while i < n
            invariant
                n == windows@.len(),
                i <= n,
                forall|j: int|
                    0 <= j < i ==> !(#[trigger] windows@[j] matches Some(info) && info.focused),
            decreases n - i,
        {
            match &windows[i] {
                Some(info) => {
                    if info.focused {
                        assert(first_focused(windows@, i as int));
                        return Some((info.title.clone(), info.app_id.clone()));
                    }
                },
                None => {},
            }
            i += 1;
        }
        None
    }

    /// What to pass on when a window has changed: its title and app id if it
    /// is known and focused, nothing otherwise.
    pub fn on_toplevel_update(info: Option<ToplevelInfo>) -> (res: Option<(String, String)>)
        ensures
            match info {
                Some(info) if info.focused => res == Some((info.title, info.app_id)),
                _ => res is None,
            },
    {
        match info {
            Some(info) => {
                if info.focused {
                    Some((info.title, info.app_id))
                } else {
                    None
                }
            },
            None => None,
        }
    }

    /// What the widget shows for a newly focused window. The icon, where the
    /// module shows one, is visible if it could be loaded; the label, where
    /// the module shows one, is the window's name.
    pub fn view_for(&self, name: String, icon_loaded: bool) -> (res: FocusedView)
        ensures
            res.icon_visible == (if self.show_icon {
                Some(icon_loaded)
            } else {
                None
            }),
            res.label == (if self.show_title {
                Some(name)
            } else {
                None
            }),
    {
        FocusedView {
            icon_visible: if self.show_icon {
                Some(icon_loaded)
            } else {
                None
            },
            label: if self.show_title {
                Some(name)
            } else {
                None
            },
        }
    }
}

/// An image whose source is a template, drawn again whenever the template
/// renders anew.
#[derive(Debug, Clone, PartialEq, Eq)]
pub struct ImageWidget {
    pub name: Option<String>,
    pub class: Option<String>,
    pub src: String,
    pub size: i32,
}

/// The size of an image widget that names none: 32 pixels.
pub fn default_size() -> (res: i32)
    ensures
        res == 32,
{
    32
}

impl ImageWidget {
    /// The widget for the template `src`, at the default size.
    pub fn new(src: String) -> (res: ImageWidget)
        ensures
            res == (ImageWidget { name: None, class: None, src, size: 32 }),
    {
        ImageWidget { name: None, class: None, src, size: default_size() }
    }

    /// Compiles the source template, with variable references.
    pub fn source(&self) -> (res: Result<Template, ParseError>)
        ensures
            match res {
                Ok(template) => {
                    &&& parse_spec(self.src@, true) == Ok::<Seq<SegmentView>, int>(
                        views(template.segments@),
                    )
                    &&& template.ready()
                },
                Err(ParseError::UnterminatedCommand { at }) => parse_spec(self.src@, true) == Err::<
                    Seq<SegmentView>,
                    int,
                >(at as int),
            },
    {
        compile(self.src.as_str(), true)
    }
}

} // verus!
