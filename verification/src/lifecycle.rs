//! The lifecycle and tray controller decisions: every tray/window event is
//! mapped to the window state and host actions it demands. The host performs
//! the actions (show/hide/focus, emit, timers) and owns the event loop.

use crate::errors::VaultError;
use crate::text::{ends_with, str_ends_with};
use vstd::prelude::*;
use vstd::string::*;

verus! {

/// Milliseconds the quit path waits after asking the UI layer to flush
/// unsaved work, before the process exits unconditionally.
pub const QUIT_GRACE_MS: u64 = 600;

/// Milliseconds startup waits before forwarding a launch file to the UI
/// layer, so the webview can finish initializing.
pub const OPEN_FILE_DELAY_MS: u64 = 1500;

/// An event the host environment delivers to the controller.
#[derive(Clone, Copy, Debug, PartialEq, Eq, Structural)]
pub enum LifecycleEvent {
    MenuShowHide,
    MenuNewNote,
    MenuDailyNote,
    MenuQuit,
    TrayLeftClick,
    CloseRequested,
}

/// A notification forwarded to the UI layer.
#[derive(Clone, Copy, Debug, PartialEq, Eq, Structural)]
pub enum UiNotice {
    TrayNewNote,
    TrayDailyNote,
    FlushSave,
}

/// What the host must do in response to one event.
#[derive(Clone, Copy, Debug, PartialEq, Eq, Structural)]
pub struct Reaction {
    /// Whether the main window is visible afterwards.
    pub visible: bool,
    /// Whether the window must also be focused.
    pub focus: bool,
    /// A notification to emit to the UI layer, if any.
    pub notice: Option<UiNotice>,
    /// Whether to start the detached quit timer: the process exits after
    /// [`QUIT_GRACE_MS`], waiting for no acknowledgment.
    pub schedule_quit: bool,
}

/// Decides the transition for one event against the current visibility:
/// show/hide toggles, note intents force the window up, quit asks for a
/// flush and schedules termination, and a window close becomes a hide,
/// never a terminate.
pub fn handle_event(visible: bool, event: LifecycleEvent) -> (r: Reaction)
    ensures
        event == LifecycleEvent::MenuShowHide ==> r == (Reaction {
            visible: !visible,
            focus: !visible,
            notice: None::<UiNotice>,
            schedule_quit: false,
        }),
        event == LifecycleEvent::MenuNewNote ==> r == (Reaction {
            visible: true,
            focus: true,
            notice: Some(UiNotice::TrayNewNote),
            schedule_quit: false,
        }),
        event == LifecycleEvent::MenuDailyNote ==> r == (Reaction {
            visible: true,
            focus: true,
            notice: Some(UiNotice::TrayDailyNote),
            schedule_quit: false,
        }),
        event == LifecycleEvent::MenuQuit ==> r == (Reaction {
            visible: visible,
            focus: false,
            notice: Some(UiNotice::FlushSave),
            schedule_quit: true,
        }),
        event == LifecycleEvent::TrayLeftClick ==> r == (Reaction {
            visible: true,
            focus: true,
            notice: None::<UiNotice>,
            schedule_quit: false,
        }),
        event == LifecycleEvent::CloseRequested ==> r == (Reaction {
            visible: false,
            focus: false,
            notice: None::<UiNotice>,
            schedule_quit: false,
        }),
{
    match event {
        LifecycleEvent::MenuShowHide => Reaction {
            visible: !visible,
            focus: !visible,
            notice: None,
            schedule_quit: false,
        },
        LifecycleEvent::MenuNewNote => Reaction {
            visible: true,
            focus: true,
            notice: Some(UiNotice::TrayNewNote),
            schedule_quit: false,
        },
        LifecycleEvent::MenuDailyNote => Reaction {
            visible: true,
            focus: true,
            notice: Some(UiNotice::TrayDailyNote),
            schedule_quit: false,
        },
        LifecycleEvent::MenuQuit => Reaction {
            visible,
            focus: false,
            notice: Some(UiNotice::FlushSave),
            schedule_quit: true,
        },
        LifecycleEvent::TrayLeftClick => Reaction {
            visible: true,
            focus: true,
            notice: None,
            schedule_quit: false,
        },
        LifecycleEvent::CloseRequested => Reaction {
            visible: false,
            focus: false,
            notice: None,
            schedule_quit: false,
        },
    }
}

/// The window theme the UI layer can request.
#[derive(Clone, Copy, Debug, PartialEq, Eq, Structural)]
pub enum ThemeChoice {
    Dark,
    Light,
}

/// Maps the UI layer's boolean theme request to the theme the host must set
/// on the window.
pub fn theme_for(dark: bool) -> (t: ThemeChoice)
    ensures
        t == if dark {
            ThemeChoice::Dark
        } else {
            ThemeChoice::Light
        },
{
    if dark {
        ThemeChoice::Dark
    } else {
        ThemeChoice::Light
    }
}

/// Whether a launch argument names a markdown document to forward.
pub open spec fn is_markdown_launch_path(s: Seq<char>) -> bool {
    ends_with(s, ".md"@) || ends_with(s, ".markdown"@)
}

/// The open-file path a process launch carries: the first real argument
/// (after the executable's own name), when it names a markdown document.
/// Used both at startup and when a second instance forwards its arguments.
pub fn launch_open_file(args: &Vec<String>) -> (r: Option<String>)
    ensures
        match r {
            Some(p) => args@.len() > 1 && p@ == args@[1]@ && is_markdown_launch_path(args@[1]@),
            None => args@.len() <= 1 || !is_markdown_launch_path(args@[1]@),
        },
{
    if args.len() > 1 {
        let p = &args[1];
        if str_ends_with(p.as_str(), ".md") || str_ends_with(p.as_str(), ".markdown") {
            return Some(p.clone());
        }
    }
    None
}

/// Converts the folder picker's outcome: a missing choice is the user's
/// cancellation, not a crash.
pub fn folder_pick_result(choice: Option<String>) -> (r: Result<String, VaultError>)
    ensures
        match choice {
            Some(p) => r is Ok && r->Ok_0@ == p@,
            None => r == Err::<String, VaultError>(VaultError::Cancelled),
        },
{
    match choice {
        Some(p) => Ok(p),
        None => Err(VaultError::Cancelled),
    }
}

} // verus!
