//! Application state and input handling: the mode/lifecycle state machine,
//! the event vocabulary, and the key-to-event mapping for each mode.
//!
//! Everything here is a pure decision; reading keys, drawing frames and
//! sleeping between them belong to the embedding program.

use vstd::prelude::*;

verus! {

/// The input mode the interface is in.
#[derive(Clone, Copy, PartialEq, Eq, Structural, Debug)]
pub enum AppMode {
    Normal,
    Input,
    Command,
}

impl Default for AppMode {
    fn default() -> (r: Self)
        ensures
            r is Normal,
    {
        AppMode::Normal
    }
}

impl AppMode {
    /// The mode's label for the status line.
    pub fn display_text(&self) -> (r: &str)
        ensures
            match self {
                AppMode::Normal => r@ == "NORMAL"@,
                AppMode::Input => r@ == "INPUT"@,
                AppMode::Command => r@ == "COMMAND"@,
            },
    {
        match self {
            AppMode::Normal => "NORMAL",
            AppMode::Input => "INPUT",
            AppMode::Command => "COMMAND",
        }
    }
}

/// A signed step: an increment, a decrement, or nothing.
#[derive(Clone, Copy, PartialEq, Eq, Structural, Debug)]
pub enum Delta {
    Inc(usize),
    Dec(usize),
    Zero,
}

/// The signed value of a step, saturated to the machine range.
pub open spec fn delta_int(d: Delta) -> int {
    match d {
        Delta::Inc(v) => if v > isize::MAX {
            isize::MAX as int
        } else {
            v as int
        },
        Delta::Dec(v) => if v as int > -(isize::MIN as int) {
            isize::MIN as int
        } else {
            -(v as int)
        },
        Delta::Zero => 0,
    }
}

impl Delta {
    /// The step as a saturated signed offset.
    pub fn to_isize(&self) -> (r: isize)
        ensures
            r == delta_int(*self),
    {
        match self {
            Delta::Inc(v) => {
                if *v > isize::MAX as usize {
                    isize::MAX
                } else {
                    *v as isize
                }
            },
            Delta::Dec(v) => {
                if *v > isize::MAX as usize {
                    isize::MIN
                } else {
                    -(*v as isize)
                }
            },
            Delta::Zero => 0,
        }
    }
}

/// Everything the interface reacts to.
#[derive(Clone, Copy, PartialEq, Eq, Structural, Debug)]
pub enum AppEvent {
    ChangeMode(AppMode),
    Exit,
    Submit,
    Load,
    CursorY(Delta),
    CursorX(Delta),
    ScrollX(Delta),
    ScrollY(Delta),
    TerminalResize,
    LoadSpec,
    Info,
    Write,
}

/// A pressed key, reduced to what the mappings distinguish.
#[derive(Clone, Copy, PartialEq, Eq, Structural, Debug)]
pub enum Key {
    Enter,
    Esc,
    Up,
    Down,
    Left,
    Right,
    PageUp,
    PageDown,
    Char(char),
}

/// The modifier state of a key press.
#[derive(Clone, Copy, PartialEq, Eq, Structural, Debug)]
pub struct Modifiers {
    pub shift: bool,
    pub control: bool,
}

pub open spec fn ctrl_only(m: Modifiers) -> bool {
    m.control && !m.shift
}

pub open spec fn shift_only(m: Modifiers) -> bool {
    m.shift && !m.control
}

/// The normal-mode key bindings, first matching rule wins.
pub open spec fn normal_mode_spec(key: Key, m: Modifiers) -> Option<AppEvent> {
    if key is Enter {
        Some(AppEvent::ChangeMode(AppMode::Input))
    } else if key == Key::Char('q') {
        Some(AppEvent::Exit)
    } else if key == Key::Char('l') && ctrl_only(m) {
        Some(AppEvent::Load)
    } else if key == Key::Char('s') && ctrl_only(m) {
        Some(AppEvent::Write)
    } else if key == Key::Char('s') && shift_only(m) {
        Some(AppEvent::LoadSpec)
    } else if key == Key::Char('K') && shift_only(m) {
        Some(AppEvent::ScrollY(Delta::Dec(1)))
    } else if key == Key::Char('J') && shift_only(m) {
        Some(AppEvent::ScrollY(Delta::Inc(1)))
    } else if key == Key::Char('H') && shift_only(m) {
        Some(AppEvent::ScrollX(Delta::Dec(1)))
    } else if key == Key::Char('L') && shift_only(m) {
        Some(AppEvent::ScrollX(Delta::Inc(1)))
    } else if key is Up || key == Key::Char('k') {
        Some(AppEvent::CursorY(Delta::Dec(1)))
    } else if key is Down || key == Key::Char('j') {
        Some(AppEvent::CursorY(Delta::Inc(1)))
    } else if key is Left || key == Key::Char('h') {
        Some(AppEvent::CursorX(Delta::Dec(1)))
    } else if key is Right || key == Key::Char('l') {
        Some(AppEvent::CursorX(Delta::Inc(1)))
    } else if key is PageUp && shift_only(m) {
        Some(AppEvent::ScrollX(Delta::Dec(10)))
    } else if key is PageDown && shift_only(m) {
        Some(AppEvent::ScrollX(Delta::Inc(10)))
    } else if key is PageUp {
        Some(AppEvent::ScrollY(Delta::Dec(10)))
    } else if key is PageDown {
        Some(AppEvent::ScrollY(Delta::Inc(10)))
    } else if key == Key::Char('i') {
        Some(AppEvent::Info)
    } else {
        None
    }
}

/// The input-mode key bindings.
pub open spec fn input_mode_spec(key: Key) -> Option<AppEvent> {
    if key is Esc {
        Some(AppEvent::ChangeMode(AppMode::Normal))
    } else if key is Enter {
        Some(AppEvent::Submit)
    } else if key == Key::Char('i') {
        Some(AppEvent::Info)
    } else {
        None
    }
}

/// Maps a key press to an event in normal mode.
pub fn handle_normal_mode(key: Key, m: Modifiers) -> (r: Option<AppEvent>)
    ensures
        r == normal_mode_spec(key, m),
{
    let ctrl = m.control && !m.shift;
    let shift = m.shift && !m.control;
    if matches!(key, Key::Enter) {
        Some(AppEvent::ChangeMode(AppMode::Input))
    } else if key == Key::Char('q') {
        Some(AppEvent::Exit)
    } else if key == Key::Char('l') && ctrl {
        Some(AppEvent::Load)
    } else if key == Key::Char('s') && ctrl {
        Some(AppEvent::Write)
    } else if key == Key::Char('s') && shift {
        Some(AppEvent::LoadSpec)
    } else if key == Key::Char('K') && shift {
        Some(AppEvent::ScrollY(Delta::Dec(1)))
    } else if key == Key::Char('J') && shift {
        Some(AppEvent::ScrollY(Delta::Inc(1)))
    } else if key == Key::Char('H') && shift {
        Some(AppEvent::ScrollX(Delta::Dec(1)))
    } else if key == Key::Char('L') && shift {
        Some(AppEvent::ScrollX(Delta::Inc(1)))
    } else if matches!(key, Key::Up) || key == Key::Char('k') {
        Some(AppEvent::CursorY(Delta::Dec(1)))
    } else if matches!(key, Key::Down) || key == Key::Char('j') {
        Some(AppEvent::CursorY(Delta::Inc(1)))
    } else if matches!(key, Key::Left) || key == Key::Char('h') {
        Some(AppEvent::CursorX(Delta::Dec(1)))
    } else if matches!(key, Key::Right) || key == Key::Char('l') {
        Some(AppEvent::CursorX(Delta::Inc(1)))
    } else if matches!(key, Key::PageUp) && shift {
        Some(AppEvent::ScrollX(Delta::Dec(10)))
    } else if matches!(key, Key::PageDown) && shift {
        Some(AppEvent::ScrollX(Delta::Inc(10)))
    } else if matches!(key, Key::PageUp) {
        Some(AppEvent::ScrollY(Delta::Dec(10)))
    } else if matches!(key, Key::PageDown) {
        Some(AppEvent::ScrollY(Delta::Inc(10)))
    } else if key == Key::Char('i') {
        Some(AppEvent::Info)
    } else {
        None
    }
}

/// Maps a key press to an event in input mode.
pub fn handle_input_mode(key: Key) -> (r: Option<AppEvent>)
    ensures
        r == input_mode_spec(key),
{
    if matches!(key, Key::Esc) {
        Some(AppEvent::ChangeMode(AppMode::Normal))
    } else if matches!(key, Key::Enter) {
        Some(AppEvent::Submit)
    } else if key == Key::Char('i') {
        Some(AppEvent::Info)
    } else {
        None
    }
}

/// Maps a key press to an event in command mode: nothing is bound yet.
pub fn handle_command_mode(_key: Key) -> (r: Option<AppEvent>)
    ensures
        r is None,
{
    None
}

/// Maps a key press to an event under the current mode.
pub fn event_for_mode(mode: &AppMode, key: Key, m: Modifiers) -> (r: Option<AppEvent>)
    ensures
        match mode {
            AppMode::Normal => r == normal_mode_spec(key, m),
            AppMode::Input => r == input_mode_spec(key),
            AppMode::Command => r is None,
        },
{
    match mode {
        AppMode::Normal => handle_normal_mode(key, m),
        AppMode::Input => handle_input_mode(key),
        AppMode::Command => handle_command_mode(key),
    }
}

/// Relies on `std::io::Error` as an opaque payload: the lifecycle error type
/// carries the terminal backend's failure through untouched.
#[verifier::external_type_specification]
#[verifier::external_body]
pub struct ExIoError(std::io::Error);

/// Why a lifecycle step was refused.
#[derive(Debug)]
pub enum AppError {
    AlreadyInitialized,
    NotInitialized,
    IoError(std::io::Error),
}

impl AppError {
    /// A short description of the failure.
    pub fn message(&self) -> (r: &str)
        ensures
            match self {
                AppError::AlreadyInitialized => r@ == "Terminal already initialized"@,
                AppError::NotInitialized => r@ == "Terminal not initialized"@,
                AppError::IoError(_) => r@ == "IO error"@,
            },
    {
        match self {
            AppError::AlreadyInitialized => "Terminal already initialized",
            AppError::NotInitialized => "Terminal not initialized",
            AppError::IoError(_) => "IO error",
        }
    }
}

/// The application's lifecycle and mode state.
#[derive(Clone, Copy, PartialEq, Eq, Structural, Debug)]
pub struct AppState {
    pub mode: AppMode,
    pub initialized: bool,
    pub dirty: bool,
    pub quitting: bool,
}

impl Default for AppState {
    fn default() -> (r: Self)
        ensures
            r.mode is Normal,
            !r.initialized,
            !r.dirty,
            !r.quitting,
    {
        AppState { mode: AppMode::Normal, initialized: false, dirty: false, quitting: false }
    }
}

impl AppState {
    /// A fresh application starts in normal mode and wants a first frame.
    pub fn new() -> (r: AppState)
        ensures
            r.mode is Normal,
            !r.initialized,
            r.dirty,
            !r.quitting,
    {
        AppState { mode: AppMode::Normal, initialized: false, dirty: true, quitting: false }
    }

    /// The startup decision: refuse a second initialization, otherwise mark
    /// the terminal initialized; the caller then sets the terminal up.
    pub fn begin_startup(&mut self) -> (r: Result<(), AppError>)
        ensures
            old(self).initialized ==> (r matches Err(e) && e is AlreadyInitialized && *final(self)
                == *old(self)),
            !old(self).initialized ==> (r matches Ok(_) && *final(self) == (AppState {
                initialized: true,
                ..*old(self)
            })),
    {
        if self.initialized {
            return Err(AppError::AlreadyInitialized);
        }
        self.initialized = true;
        Ok(())
    }

    /// The run-loop entry decision: the terminal must have been set up.
    pub fn begin_run(&self) -> (r: Result<(), AppError>)
        ensures
            self.initialized ==> (r matches Ok(_)),
            !self.initialized ==> (r matches Err(e) && e is NotInitialized),
    {
        if !self.initialized {
            return Err(AppError::NotInitialized);
        }
        Ok(())
    }

    /// Shutdown: forget the terminal; the caller restores the screen.
    pub fn shutdown(&mut self)
        ensures
            *final(self) == (AppState { initialized: false, ..*old(self) }),
    {
        self.initialized = false;
    }

    /// The application-level reaction to an event: mode changes, resize
    /// redraws, exit requests, and schema loads (the fetch itself is the
    /// embedding program's work, so the state is untouched). Returns whether
    /// a redraw is needed; any other event is left for the components.
    pub fn handle_app_event(&mut self, event: &AppEvent) -> (r: bool)
        ensures
            match *event {
                AppEvent::ChangeMode(m) => r && *final(self) == (AppState {
                    mode: m,
                    ..*old(self)
                }),
                AppEvent::TerminalResize => r && *final(self) == *old(self),
                AppEvent::LoadSpec => r && *final(self) == *old(self),
                AppEvent::Exit => r && *final(self) == (AppState {
                    quitting: true,
                    ..*old(self)
                }),
                _ => !r && *final(self) == *old(self),
            },
    {
        match event {
            AppEvent::ChangeMode(m) => {
                self.mode = *m;
                true
            },
            AppEvent::TerminalResize => true,
            AppEvent::LoadSpec => true,
            AppEvent::Exit => {
                self.quitting = true;
                true
            },
            _ => false,
        }
    }
}

/// The status-line component; its drawing lives with the renderer backend.
pub struct Airline {}

impl Airline {
    pub fn new(_state: AppState) -> (r: Airline) {
        Airline {  }
    }
}

/// The help-line component; its drawing lives with the renderer backend.
pub struct Info {}

impl Info {
    pub fn new(_state: AppState) -> (r: Info) {
        Info {  }
    }
}

} // verus!
