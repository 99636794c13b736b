//! What an attached client does with what comes in: input from the keyboard,
//! events from the daemon, and changes of the terminal's size.
//!
//! The client's loop performs what is asked for here and reports back; every
//! decision is made here.

use crate::config::{Action, TymuxConfig};
use crate::copy_mode;
use crate::copy_mode::{
    extract_selection, render_status_line, CellPos, CopyModeEvent, CopyModeState,
};
use crate::input;
use crate::input::{KeystrokeReassembler, Output, Reassembler, ReassembledOutput, Scan};
use crate::layout::Orientation;
use crate::status_bar;
use crate::status_bar::{
    decstbm_reserve, pty_rows, redraw_status_line, DisplayMode, StatusBarConfig,
};
use crate::text::bytes_of;
use vstd::prelude::*;
use vstd::utf8::*;

verus! {

/// Something that the daemon sends.
#[derive(Debug, PartialEq)]
pub enum ServerEvent {
    /// Output of the pane.
    Output(Vec<u8>),
    /// The pane's process has exited.
    Exited,
    /// Some output was lost.
    OutputGap,
    /// Anything else.
    Other,
}

/// What to do about something that the daemon sends.
#[derive(Debug, PartialEq)]
pub enum ServerReaction {
    /// Write the bytes to the terminal.
    Write(Vec<u8>),
    /// Give the terminal back, write the bytes, and leave.
    Leave(Vec<u8>),
    Ignore,
}

/// What is written for an event, and whether the client leaves with it; nothing where
/// the event is not shown.
pub open spec fn shown(copying: bool, event: ServerEvent) -> Option<(bool, Seq<u8>)> {
    match event {
        ServerEvent::Output(bytes) => if copying {
            None
        } else {
            Some((false, bytes@))
        },
        ServerEvent::OutputGap => if copying {
            None
        } else {
            Some((false, encode_utf8("\r\n[tymux: output dropped]\r\n"@)))
        },
        ServerEvent::Exited => Some((true, encode_utf8("\r\n[tymux: pane exited]\n"@ + "\n"@))),
        ServerEvent::Other => None,
    }
}

/// What is told of an event, if anything is.
pub open spec fn chrome_text(event: ServerEvent) -> Option<Seq<char>> {
    match event {
        ServerEvent::Exited => Some("\r\n[tymux: pane exited]\n"@),
        ServerEvent::OutputGap => Some("\r\n[tymux: output dropped]\r\n"@),
        _ => None,
    }
}

/// What is told of an event, if anything is.
pub fn chrome_message_for_event(event: &ServerEvent) -> (message: Option<&'static str>)
    ensures
        match message {
            Some(message) => chrome_text(*event) == Some(message@),
            None => chrome_text(*event) is None,
        },
{
    match event {
        ServerEvent::Exited => Some("\r\n[tymux: pane exited]\n"),
        ServerEvent::OutputGap => Some("\r\n[tymux: output dropped]\r\n"),
        _ => None,
    }
}

/// Something that a key asks for.
#[derive(Debug, PartialEq)]
pub enum AttachCommand {
    /// Send the bytes to the pane.
    Send(Vec<u8>),
    /// Give the terminal back, tell that the client is detached, and leave.
    Detach,
    /// Capture the pane and enter copy mode.
    EnterCopyMode,
    Split(Orientation),
    KillPane,
    NewWindow,
    /// Go to the next window, or to the one before.
    SwitchWindow { forward: bool },
    Nothing,
}

/// What [`AttachCommand`] stands for.
pub enum Command {
    Send(Seq<u8>),
    Detach,
    EnterCopyMode,
    Split(Orientation),
    KillPane,
    NewWindow,
    SwitchWindow { forward: bool },
    Nothing,
}

impl View for AttachCommand {
    type V = Command;

    open spec fn view(&self) -> Command {
        match self {
            AttachCommand::Send(bytes) => Command::Send(bytes@),
            AttachCommand::Detach => Command::Detach,
            AttachCommand::EnterCopyMode => Command::EnterCopyMode,
            AttachCommand::Split(orientation) => Command::Split(*orientation),
            AttachCommand::KillPane => Command::KillPane,
            AttachCommand::NewWindow => Command::NewWindow,
            AttachCommand::SwitchWindow { forward } => Command::SwitchWindow { forward: *forward },
            AttachCommand::Nothing => Command::Nothing,
        }
    }
}

/// What an action asks for.
pub open spec fn command_of(action: Action) -> Command {
    match action {
        Action::Detach => Command::Detach,
        Action::EnterCopyMode => Command::EnterCopyMode,
        Action::SplitHorizontal => Command::Split(Orientation::Horizontal),
        Action::SplitVertical => Command::Split(Orientation::Vertical),
        Action::KillPane => Command::KillPane,
        Action::NewWindow => Command::NewWindow,
        Action::NextWindow => Command::SwitchWindow { forward: true },
        Action::PrevWindow => Command::SwitchWindow { forward: false },
        Action::ExitCopyMode | Action::SendPrefixLiteral => Command::Nothing,
    }
}

/// What an output of the reassembler asks for.
pub open spec fn command_for(output: Output) -> Command {
    match output {
        Output::Forward(bytes) => Command::Send(bytes),
        Output::Action(action) => command_of(action),
    }
}

/// What a row of bytes in copy mode comes to.
#[derive(Debug)]
pub struct CopyStep {
    /// The selection to be copied out of the grid on display, if one is.
    pub yank: Option<(CellPos, CellPos)>,
    /// How far back the grid on display is.
    pub offset: usize,
    /// Whether copy mode is left.
    pub exit: bool,
    /// Whether the grid is to be drawn again.
    pub redraw: bool,
}

/// What a row of input bytes comes to.
#[derive(Debug)]
pub enum InputStep {
    /// Copy mode took the bytes.
    Copy(CopyStep),
    /// The bytes ask for these, in order. Once they are done, or given up, the
    /// status bar is to be settled.
    Keys { commands: Vec<AttachCommand>, was_armed: bool },
}

/// What is to be drawn after a row of bytes in copy mode.
#[derive(Debug, Clone, Copy, PartialEq, Eq, Structural)]
pub enum CopyDisplay {
    /// The live screen and the status bar: copy mode is left.
    Live,
    /// The grid that is this far back.
    Grid { offset: usize },
    Nothing,
}

/// What is to be drawn after a row of bytes in copy mode.
pub open spec fn display_after(exit: bool, redraw: bool, offset: usize) -> CopyDisplay {
    if exit {
        CopyDisplay::Live
    } else if redraw {
        CopyDisplay::Grid { offset }
    } else {
        CopyDisplay::Nothing
    }
}

/// Where copy mode stands after some of the bytes.
pub struct CopyProgress {
    pub cursor: CellPos,
    pub offset: int,
    pub selecting_from: Option<CellPos>,
    pub yank: Option<(CellPos, CellPos)>,
    pub exit: bool,
    pub redraw: bool,
}

/// Where copy mode stands before any byte.
pub open spec fn copy_start(state: CopyModeState) -> CopyProgress {
    CopyProgress {
        cursor: state.cursor,
        offset: state.scrollback_offset as int,
        selecting_from: state.selecting_from,
        yank: None,
        exit: false,
        redraw: false,
    }
}

/// The state of copy mode, part of the way.
pub open spec fn copy_state(state: CopyModeState, progress: CopyProgress) -> CopyModeState {
    CopyModeState {
        cursor: progress.cursor,
        scrollback_offset: progress.offset as usize,
        selecting_from: progress.selecting_from,
        ..state
    }
}

/// What a row of bytes does in copy mode: the bytes after one that leaves are of
/// no account.
pub open spec fn copy_run(state: CopyModeState, bytes: Seq<u8>) -> CopyProgress
    decreases bytes.len(),
{
    if bytes.len() == 0 {
        copy_start(state)
    } else {
        let before = copy_run(state, bytes.drop_last());
        if before.exit {
            before
        } else {
            copy_byte(copy_state(state, before), before, bytes.last())
        }
    }
}

/// What a byte does in copy mode.
pub open spec fn copy_byte(now: CopyModeState, before: CopyProgress, b: u8) -> CopyProgress {
    let (cursor, offset) = now.moved(b);
    let selecting_from = if b == 0x76 {
        Some(now.cursor)
    } else {
        now.selecting_from
    };
    let event = now.event(b);
    CopyProgress {
        cursor,
        offset,
        selecting_from,
        yank: if event == CopyModeEvent::Yanked {
            match selecting_from {
                Some(from) => Some((from, cursor)),
                None => before.yank,
            }
        } else {
            before.yank
        },
        exit: event == CopyModeEvent::Exit || event == CopyModeEvent::Yanked,
        redraw: before.redraw || event == CopyModeEvent::Redraw,
    }
}

/// What the status bar is to show for what keys do: those of copy mode while it is
/// on, and otherwise those that follow the leader while it is armed.
pub open spec fn mode_for(copying: bool, armed: bool) -> DisplayMode {
    if copying {
        DisplayMode::CopyMode
    } else if armed {
        DisplayMode::PrefixArmed
    } else {
        DisplayMode::Normal
    }
}

/// An attached client: the reassembler of its input, copy mode if it is in it,
/// and what the status bar shows.
#[derive(Debug)]
pub struct AttachState {
    pub reassembler: KeystrokeReassembler,
    pub copy_mode: Option<CopyModeState>,
    pub mode: DisplayMode,
}

impl AttachState {
    /// Whether the status bar shows what keys do.
    pub open spec fn shows_what_keys_do(self) -> bool {
        self.mode == mode_for(self.copy_mode is Some, self.reassembler@.armed is Some)
    }

    /// A client that has just attached.
    pub fn new(config: &TymuxConfig) -> (state: Self)
        ensures
            state.reassembler@ == (Reassembler {
                bindings: config@.bindings,
                leader: input::leader_key(config@.leader),
                armed: None,
                scan: Scan::Normal,
            }),
            state.copy_mode is None,
            state.mode == DisplayMode::Normal,
            state.shows_what_keys_do(),
    {
        AttachState {
            reassembler: KeystrokeReassembler::new(config),
            copy_mode: None,
            mode: DisplayMode::Normal,
        }
    }

    /// What to do about something that the daemon sends. While copy mode has the
    /// screen, output is not shown.
    pub fn on_server_event(&self, event: ServerEvent) -> (reaction: ServerReaction)
        ensures
            match event {
                ServerEvent::Output(bytes) => if self.copy_mode is None {
                    reaction == ServerReaction::Write(bytes)
                } else {
                    reaction is Ignore
                },
                ServerEvent::Exited => reaction matches ServerReaction::Leave(bytes) && bytes@
                    == encode_utf8("\r\n[tymux: pane exited]\n"@ + "\n"@),
                ServerEvent::OutputGap => if self.copy_mode is None {
                    reaction matches ServerReaction::Write(bytes) && bytes@ == encode_utf8(
                        "\r\n[tymux: output dropped]\r\n"@,
                    )
                } else {
                    reaction is Ignore
                },
                ServerEvent::Other => reaction is Ignore,
            },
            match reaction {
                ServerReaction::Write(bytes) => shown(self.copy_mode is Some, event) == Some(
                    (false, bytes@),
                ),
                ServerReaction::Leave(bytes) => shown(self.copy_mode is Some, event) == Some(
                    (true, bytes@),
                ),
                ServerReaction::Ignore => shown(self.copy_mode is Some, event) is None,
            },
    {
        let message = chrome_message_for_event(&event);
        match event {
            ServerEvent::Output(bytes) => if self.copy_mode.is_none() {
                ServerReaction::Write(bytes)
            } else {
                ServerReaction::Ignore
            },
            ServerEvent::Exited => {
                let mut line: String = message.unwrap().to_owned();
                line.append("\n");
                ServerReaction::Leave(bytes_of(line.as_str().as_bytes()))
            },
            ServerEvent::OutputGap => if self.copy_mode.is_none() {
                ServerReaction::Write(bytes_of(message.unwrap().as_bytes()))
            } else {
                ServerReaction::Ignore
            },
            ServerEvent::Other => ServerReaction::Ignore,
        }
    }

    /// Takes in a row of input bytes. In copy mode they go nowhere else: no
    /// leader can be armed and no binding fires.
    pub fn on_input(&mut self, bytes: &[u8]) -> (step: InputStep)
        requires
            old(self).copy_mode matches Some(state) ==> state.movable()
                && state.scrollback_offset + bytes@.len() <= usize::MAX,
        ensures
            final(self).mode == old(self).mode,
            match old(self).copy_mode {
                Some(state) => {
                    let progress = copy_run(state, bytes@);
                    &&& final(self).reassembler == old(self).reassembler
                    &&& final(self).copy_mode == Some(copy_state(state, progress))
                    &&& copy_state(state, progress).movable()
                    &&& old(self).shows_what_keys_do() ==> final(self).shows_what_keys_do()
                    &&& step matches InputStep::Copy(step)
                    &&& step.yank == progress.yank
                    &&& step.offset == progress.offset
                    &&& step.exit == progress.exit
                    &&& step.redraw == progress.redraw
                },
                None => {
                    let (after, outputs) = old(self).reassembler@.run(bytes@);
                    &&& final(self).copy_mode is None
                    &&& final(self).reassembler@ == after
                    &&& step matches InputStep::Keys { commands, was_armed }
                    &&& commands@.map_values(|command: AttachCommand| command@)
                        == outputs.map_values(|output: Output| command_for(output))
                    &&& was_armed == old(self).reassembler@.armed is Some
                    &&& old(self).shows_what_keys_do() ==> final(self).mode == mode_for(
                        false,
                        was_armed,
                    )
                },
            },
    {
        let mut copy_mode: Option<CopyModeState> = None;
        std::mem::swap(&mut copy_mode, &mut self.copy_mode);
        match copy_mode {
            Some(state) => {
                let mut state = state;
                let step = copy_input(&mut state, bytes);
                self.copy_mode = Some(state);
                InputStep::Copy(step)
            },
            None => {
                let was_armed: bool = self.reassembler.is_armed();
                let outputs = self.reassembler.process(bytes);
                InputStep::Keys { commands: commands_for(outputs), was_armed }
            },
        }
    }

    /// Enters copy mode on a grid of this size.
    pub fn enter_copy_mode(&mut self, rows: u16, cols: u16)
        ensures
            final(self).reassembler == old(self).reassembler,
            final(self).mode == DisplayMode::CopyMode,
            final(self).copy_mode matches Some(state) && state.cursor == (CellPos {
                row: 0,
                col: 0,
            }) && state.scrollback_offset == 0 && state.selecting_from is None && state.rows == rows
                && state.cols == cols && state.movable() && state.yanked@ == Seq::<u8>::empty(),
            final(self).shows_what_keys_do(),
    {
        self.copy_mode = Some(CopyModeState::new(rows, cols));
        self.mode = DisplayMode::CopyMode;
    }

    /// Keeps what is selected in the grid on display, if copy mode is on.
    pub fn yank(&mut self, grid: &[Vec<String>], from: CellPos, to: CellPos)
        ensures
            final(self).reassembler == old(self).reassembler,
            final(self).mode == old(self).mode,
            match old(self).copy_mode {
                Some(state) => {
                    let (start, end) = copy_mode::ordered(from, to);
                    &&& final(self).copy_mode matches Some(after)
                    &&& after.yanked@ == encode_utf8(
                        copy_mode::selected(grid@, grid@.len() as int, start, end),
                    )
                    &&& after == (CopyModeState { yanked: after.yanked, ..state })
                },
                None => final(self).copy_mode is None,
            },
            old(self).shows_what_keys_do() ==> final(self).shows_what_keys_do(),
    {
        if let Some(state) = &mut self.copy_mode {
            state.yanked = extract_selection(grid, from, to);
        }
    }

    /// Leaves copy mode if the row of bytes asked for it, and says what is to be
    /// drawn.
    pub fn finish_copy(&mut self, step: &CopyStep) -> (display: CopyDisplay)
        ensures
            final(self).reassembler == old(self).reassembler,
            if step.exit {
                &&& display == CopyDisplay::Live
                &&& final(self).copy_mode is None
                &&& final(self).mode == mode_for(false, old(self).reassembler@.armed is Some)
            } else {
                &&& *final(self) == *old(self)
                &&& display == if step.redraw {
                    CopyDisplay::Grid { offset: step.offset }
                } else {
                    CopyDisplay::Nothing
                }
            },
            display == display_after(step.exit, step.redraw, step.offset),
            old(self).shows_what_keys_do() ==> final(self).shows_what_keys_do(),
    {
        if step.exit {
            self.leave_copy_mode();
            CopyDisplay::Live
        } else if step.redraw {
            CopyDisplay::Grid { offset: step.offset }
        } else {
            CopyDisplay::Nothing
        }
    }

    /// Leaves copy mode. A leader that was armed behind the key that entered it is
    /// still armed.
    pub fn leave_copy_mode(&mut self)
        ensures
            final(self).reassembler == old(self).reassembler,
            final(self).mode == mode_for(false, old(self).reassembler@.armed is Some),
            final(self).copy_mode is None,
            final(self).shows_what_keys_do(),
    {
        self.copy_mode = None;
        self.mode = self.current_mode();
    }

    /// What the status bar is to show now.
    fn current_mode(&self) -> (mode: DisplayMode)
        ensures
            mode == mode_for(self.copy_mode is Some, self.reassembler@.armed is Some),
    {
        if self.copy_mode.is_some() {
            DisplayMode::CopyMode
        } else if self.reassembler.is_armed() {
            DisplayMode::PrefixArmed
        } else {
            DisplayMode::Normal
        }
    }

    /// Settles what the status bar shows after a row of keys, and says whether it
    /// is to be painted: whenever a leader has been armed, or is no longer. What
    /// was right for the leader as it was before the keys is then right again.
    pub fn settle(&mut self, was_armed: bool) -> (repaint: bool)
        ensures
            final(self).reassembler == old(self).reassembler,
            final(self).copy_mode == old(self).copy_mode,
            repaint == (was_armed != (old(self).reassembler@.armed is Some)),
            final(self).mode == if !repaint {
                old(self).mode
            } else if old(self).copy_mode is Some {
                DisplayMode::CopyMode
            } else if old(self).reassembler@.armed is Some {
                DisplayMode::PrefixArmed
            } else {
                DisplayMode::Normal
            },
            old(self).mode == mode_for(old(self).copy_mode is Some, was_armed)
                ==> final(self).shows_what_keys_do(),
    {
        let is_armed: bool = self.reassembler.is_armed();
        if is_armed == was_armed {
            return false;
        }
        self.mode = self.current_mode();
        true
    }
}

/// What a row of bytes in copy mode comes to.
fn copy_input(state: &mut CopyModeState, bytes: &[u8]) -> (step: CopyStep)
    requires
        old(state).movable(),
        old(state).scrollback_offset + bytes@.len() <= usize::MAX,
    ensures
        ({
            let progress = copy_run(*old(state), bytes@);
            &&& *final(state) == copy_state(*old(state), progress)
            &&& final(state).movable()
            &&& step.yank == progress.yank
            &&& step.offset == progress.offset
            &&& step.exit == progress.exit
            &&& step.redraw == progress.redraw
        }),
{
    let mut yank: Option<(CellPos, CellPos)> = None;
    let mut exit: bool = false;
    let mut redraw: bool = false;
    let mut i: usize = 0;
    assert(bytes@.take(0) =~= seq![]);
    while i < bytes.len()
        invariant
            i <= bytes.len(),
            state.movable(),
            state.scrollback_offset <= old(state).scrollback_offset + i,
            old(state).scrollback_offset + bytes@.len() <= usize::MAX,
            ({
                let progress = copy_run(*old(state), bytes@.take(i as int));
                &&& *state == copy_state(*old(state), progress)
                &&& state.scrollback_offset == progress.offset
                &&& yank == progress.yank
                &&& exit == progress.exit
                &&& redraw == progress.redraw
            }),
        decreases bytes.len() - i,
    {
        proof {
            assert(bytes@.take(i + 1).drop_last() =~= bytes@.take(i as int));
            assert(bytes@.take(i + 1).last() == bytes@[i as int]);
        }
        if !exit {
            match state.handle_byte(bytes[i]) {
                CopyModeEvent::Exit => {
                    exit = true;
                },
                CopyModeEvent::Redraw => {
                    redraw = true;
                },
                CopyModeEvent::Yanked => {
                    if let Some(from) = state.selecting_from {
                        yank = Some((from, state.cursor));
                    }
                    exit = true;
                },
                CopyModeEvent::Consumed => {},
            }
        }
        i = i + 1;
    }
    assert(bytes@.take(i as int) =~= bytes@);
    CopyStep { yank, offset: state.scrollback_offset, exit, redraw }
}

/// What an action asks for.
fn action_command(action: Action) -> (command: AttachCommand)
    ensures
        command@ == command_of(action),
{
    match action {
        Action::Detach => AttachCommand::Detach,
        Action::EnterCopyMode => AttachCommand::EnterCopyMode,
        Action::SplitHorizontal => AttachCommand::Split(Orientation::Horizontal),
        Action::SplitVertical => AttachCommand::Split(Orientation::Vertical),
        Action::KillPane => AttachCommand::KillPane,
        Action::NewWindow => AttachCommand::NewWindow,
        Action::NextWindow => AttachCommand::SwitchWindow { forward: true },
        Action::PrevWindow => AttachCommand::SwitchWindow { forward: false },
        Action::ExitCopyMode => AttachCommand::Nothing,
        Action::SendPrefixLiteral => AttachCommand::Nothing,
    }
}

/// What a row of outputs asks for.
fn commands_for(outputs: Vec<ReassembledOutput>) -> (commands: Vec<AttachCommand>)
    ensures
        commands@.map_values(|command: AttachCommand| command@) == input::outputs_view(
            outputs@,
        ).map_values(|output: Output| command_for(output)),
{
    let mut commands: Vec<AttachCommand> = Vec::new();
    let mut i: usize = 0;
    while i < outputs.len()
        invariant
            i <= outputs.len(),
            commands@.len() == i,
            forall|j: int| 0 <= j < i ==> (#[trigger] commands@[j])@ == command_for(outputs@[j]@),
        decreases outputs.len() - i,
    {
        let command = match &outputs[i] {
            ReassembledOutput::Forward(bytes) => AttachCommand::Send(bytes_of(bytes.as_slice())),
            ReassembledOutput::Action(action) => action_command(*action),
        };
        commands.push(command);
        i = i + 1;
    }
    assert(commands@.map_values(|command: AttachCommand| command@) =~= input::outputs_view(
        outputs@,
    ).map_values(|output: Output| command_for(output)));
    commands
}

/// What a change of the terminal's size comes to.
#[derive(Debug, PartialEq)]
pub struct ResizePlan {
    /// The size to be sent to the pane.
    pub rows: u32,
    pub cols: u32,
    /// The bytes that set the scroll region and paint the status bar.
    pub repaint: Vec<u8>,
}

/// What a terminal of this size comes to: the pane gets the rows that the status
/// bar leaves, and the status bar is painted along with it.
pub fn plan_resize(
    term_rows: u16,
    term_cols: u16,
    cfg: &StatusBarConfig,
    mode: DisplayMode,
    config: &TymuxConfig,
    session_name: &str,
) -> (plan: ResizePlan)
    ensures
        plan.rows == status_bar::pane_rows(term_rows, *cfg),
        plan.cols == term_cols,
        plan.repaint@ == encode_utf8(status_bar::scroll_region(term_rows, *cfg)) + encode_utf8(
            status_bar::bar_paint(term_rows, mode, config@.bindings, *cfg, session_name@),
        ),
        !cfg.enabled ==> plan.repaint@.len() == 0,
{
    let mut repaint = decstbm_reserve(term_rows, cfg);
    let mut paint = redraw_status_line(term_rows, mode, config, cfg, session_name);
    repaint.append(&mut paint);
    ResizePlan { rows: pty_rows(term_rows, cfg) as u32, cols: term_cols as u32, repaint }
}

/// A row of cells as plain text: a space for each empty cell.
pub open spec fn plain_row(cells: Seq<String>) -> Seq<char>
    decreases cells.len(),
{
    if cells.len() == 0 {
        seq![]
    } else {
        plain_row(cells.drop_last()) + if cells.last()@.len() == 0 {
            " "@
        } else {
            cells.last()@
        }
    }
}

/// A grid as plain text, with a line break at the end of each row.
pub open spec fn plain_rows(grid: Seq<Vec<String>>) -> Seq<char>
    decreases grid.len(),
{
    if grid.len() == 0 {
        seq![]
    } else {
        plain_rows(grid.drop_last()) + plain_row(grid.last()@) + "\r\n"@
    }
}

/// What draws a grid as plain text on a cleared screen.
pub open spec fn plain_grid(grid: Seq<Vec<String>>) -> Seq<char> {
    "\x1b[2J\x1b[H"@ + plain_rows(grid)
}

fn push_plain_row(out: &mut String, cells: &Vec<String>)
    ensures
        final(out)@ == old(out)@ + plain_row(cells@),
{
    let mut i: usize = 0;
    assert(cells@.take(0) =~= seq![]);
    assert(out@ =~= old(out)@ + plain_row(cells@.take(0)));
    while i < cells.len()
        invariant
            i <= cells.len(),
            out@ == old(out)@ + plain_row(cells@.take(i as int)),
        decreases cells.len() - i,
    {
        assert(cells@.take(i + 1).drop_last() =~= cells@.take(i as int));
        if cells[i].as_str().unicode_len() == 0 {
            out.append(" ");
        } else {
            out.append(cells[i].as_str());
        }
        assert(out@ =~= old(out)@ + plain_row(cells@.take(i + 1)));
        i = i + 1;
    }
    assert(cells@.take(i as int) =~= cells@);
}

fn push_plain_grid(out: &mut String, grid: &Vec<Vec<String>>)
    ensures
        final(out)@ == old(out)@ + plain_grid(grid@),
{
    out.append("\x1b[2J\x1b[H");
    let mut i: usize = 0;
    assert(grid@.take(0) =~= seq![]);
    assert(out@ =~= old(out)@ + ("\x1b[2J\x1b[H"@ + plain_rows(grid@.take(0))));
    while i < grid.len()
        invariant
            i <= grid.len(),
            out@ == old(out)@ + ("\x1b[2J\x1b[H"@ + plain_rows(grid@.take(i as int))),
        decreases grid.len() - i,
    {
        assert(grid@.take(i + 1).drop_last() =~= grid@.take(i as int));
        push_plain_row(out, &grid[i]);
        out.append("\r\n");
        assert(out@ =~= old(out)@ + ("\x1b[2J\x1b[H"@ + plain_rows(grid@.take(i + 1))));
        i = i + 1;
    }
    assert(grid@.take(i as int) =~= grid@);
}

/// The bytes that draw a captured grid as plain text.
pub fn render_plain_grid(grid: &Vec<Vec<String>>) -> (bytes: Vec<u8>)
    ensures
        bytes@ == encode_utf8(plain_grid(grid@)),
{
    let mut out = String::new();
    push_plain_grid(&mut out, grid);
    assert(out@ =~= plain_grid(grid@));
    bytes_of(out.as_str().as_bytes())
}

/// A captured grid in copy mode, with copy mode's status line below it.
pub open spec fn copy_screen(grid: Seq<Vec<String>>, live: bool, offset: nat) -> Seq<char> {
    plain_grid(grid) + "\r\n"@ + copy_mode::status_line(live, offset) + "\n"@
}

/// The bytes that draw a captured grid in copy mode, with copy mode's status line
/// below it.
pub fn redraw_copy_mode(grid: &Vec<Vec<String>>, live: bool, offset: usize) -> (bytes: Vec<u8>)
    ensures
        bytes@ == encode_utf8(
            plain_grid(grid@) + "\r\n"@ + copy_mode::status_line(live, offset as nat) + "\n"@,
        ),
        bytes@ == encode_utf8(copy_screen(grid@, live, offset as nat)),
{
    let mut out = String::new();
    push_plain_grid(&mut out, grid);
    out.append("\r\n");
    out.append(render_status_line(live, offset).as_str());
    out.append("\n");
    assert(out@ =~= plain_grid(grid@) + "\r\n"@ + copy_mode::status_line(live, offset as nat)
        + "\n"@);
    bytes_of(out.as_str().as_bytes())
}

/// What is told when the client detaches.
pub fn detached_message() -> (message: &'static str)
    ensures
        message@ == "\r\n[tymux: detached]\n"@,
{
    "\r\n[tymux: detached]\n"
}

} // verus!
