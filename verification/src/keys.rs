//! Key handling: the board's keymap, the pickers' keys, and the editing
//! overlays (the filter builder, the create-ticket form and the start-work
//! prompt), which return what the caller must do next (keep going, submit, or
//! close) with every edit applied here.
use vstd::prelude::*;
use crate::app::{CreateDraft, FilterDraft, InputMode, Modal, clamp};
use crate::text::{chars_of, push_char, string_of_range};

verus! {

/// A key press, as the overlays see it. `Char` carries whether Ctrl was held.
#[derive(Debug, Clone, Copy, PartialEq, Eq, Structural)]
pub enum Key {
    Char(char, bool),
    Enter,
    Esc,
    Tab,
    BackTab,
    Up,
    Down,
    Left,
    Right,
    Backspace,
    PageUp,
    PageDown,
    Other,
}

/// What an overlay asks of its caller after a key.
#[derive(Debug, Clone, Copy, PartialEq, Eq, Structural)]
pub enum Outcome {
    /// Stay open; any edit has been applied.
    Continue,
    /// Commit the overlay (save the filter, create the ticket, start work).
    Submit,
    /// Close the overlay without committing.
    Close,
}

/// `s` without its last character (unchanged when empty).
pub open spec fn popped(s: Seq<char>) -> Seq<char> {
    if s.len() > 0 {
        s.drop_last()
    } else {
        s
    }
}

/// Remove the last character of `s`, if any.
fn pop_char(s: &mut String)
    ensures
        final(s)@ == popped(old(s)@),
{
    let cs = chars_of(s.as_str());
    if cs.len() > 0 {
        *s = string_of_range(cs.as_slice(), 0, cs.len() - 1);
        assert(s@ =~= old(s)@.drop_last());
    }
}

impl FilterDraft {
    /// The draft with focus moved by `delta`, clamped.
    pub open spec fn moved(self, delta: int) -> FilterDraft {
        FilterDraft { focus: clamp(self.focus + delta, 0, self.count_spec()) as usize, ..self }
    }

    /// The draft with focus jumped `delta` sections.
    pub open spec fn jumped(self, delta: int) -> FilterDraft {
        FilterDraft {
            focus: self.section_starts()[clamp(
                self.section_at() + delta,
                0,
                self.section_starts().len() - 1,
            )] as usize,
            ..self
        }
    }

    /// `self` is `old` with the name replaced by one whose characters are `name`.
    pub open spec fn renamed_from(self, old: FilterDraft, name: Seq<char>) -> bool {
        self.name@ == name && self == (FilterDraft { name: self.name, ..old })
    }

    /// What a key does in the filter builder. Esc closes, Enter saves; Tab/Down
    /// and BackTab/Up move the focus, Right/Left jump sections. On the name
    /// field printable keys type and Backspace deletes; on an option row space
    /// toggles, `j`/`k` move and `l`/`h` jump.
    pub fn on_key(&mut self, key: Key) -> (r: Outcome)
        requires
            old(self).count_spec() < isize::MAX,
            old(self).focus < isize::MAX,
        ensures
            match key {
                Key::Esc => r == Outcome::Close && *final(self) == *old(self),
                Key::Enter => r == Outcome::Submit && *final(self) == *old(self),
                Key::Tab | Key::Down => r == Outcome::Continue && *final(self) == old(self).moved(1),
                Key::BackTab | Key::Up => r == Outcome::Continue && *final(self) == old(self).moved(-1),
                Key::Right => r == Outcome::Continue && *final(self) == old(self).jumped(1),
                Key::Left => r == Outcome::Continue && *final(self) == old(self).jumped(-1),
                Key::Backspace => r == Outcome::Continue && if old(self).focus == 0 {
                    final(self).renamed_from(*old(self), popped(old(self).name@))
                } else {
                    *final(self) == *old(self)
                },
                Key::Char(c, _) => r == Outcome::Continue && if old(self).focus == 0 {
                    final(self).renamed_from(*old(self), old(self).name@.push(c))
                } else if c == ' ' {
                    final(self).name == old(self).name && final(self).focus == old(self).focus
                        && final(self).original == old(self).original
                        && final(self).statuses@ == crate::app::toggled(
                        old(self).statuses@,
                        old(self).focus - 1,
                    ) && final(self).labels@ == crate::app::toggled(
                        old(self).labels@,
                        old(self).focus - 1 - old(self).statuses@.len(),
                    ) && final(self).assignees@ == crate::app::toggled(
                        old(self).assignees@,
                        old(self).focus - 1 - old(self).statuses@.len() - old(self).labels@.len(),
                    ) && final(self).grouping@ == crate::app::toggled(
                        old(self).grouping@,
                        old(self).focus - 1 - old(self).statuses@.len() - old(self).labels@.len()
                            - old(self).assignees@.len(),
                    )
                } else if c == 'j' {
                    *final(self) == old(self).moved(1)
                } else if c == 'k' {
                    *final(self) == old(self).moved(-1)
                } else if c == 'l' {
                    *final(self) == old(self).jumped(1)
                } else if c == 'h' {
                    *final(self) == old(self).jumped(-1)
                } else {
                    *final(self) == *old(self)
                },
                _ => r == Outcome::Continue && *final(self) == *old(self),
            },
    {
        proof {
            old(self).lemma_section_at_bound();
        }
        match key {
            Key::Esc => Outcome::Close,
            Key::Enter => Outcome::Submit,
            Key::Tab | Key::Down => {
                self.move_focus(1);
                Outcome::Continue
            },
            Key::BackTab | Key::Up => {
                self.move_focus(-1);
                Outcome::Continue
            },
            Key::Right => {
                self.jump_section(1);
                Outcome::Continue
            },
            Key::Left => {
                self.jump_section(-1);
                Outcome::Continue
            },
            Key::Backspace => {
                if self.focus == 0 {
                    pop_char(&mut self.name);
                }
                Outcome::Continue
            },
            Key::Char(c, _) => {
                if self.focus == 0 {
                    push_char(&mut self.name, c);
                } else if c == ' ' {
                    self.toggle_focused();
                } else if c == 'j' {
                    self.move_focus(1);
                } else if c == 'k' {
                    self.move_focus(-1);
                } else if c == 'l' {
                    self.jump_section(1);
                } else if c == 'h' {
                    self.jump_section(-1);
                }
                Outcome::Continue
            },
            _ => Outcome::Continue,
        }
    }
}

impl CreateDraft {
    /// The form with focus moved by `delta`, clamped.
    pub open spec fn moved(self, delta: int) -> CreateDraft {
        CreateDraft { focus: clamp(self.focus + delta, 0, 4) as usize, ..self }
    }

    /// The form with the label choice cycled by `delta`.
    pub open spec fn label_cycled(self, delta: int) -> CreateDraft {
        CreateDraft {
            label_idx: ((self.label_idx + delta) % (self.labels@.len() + 1) as int) as usize,
            ..self
        }
    }

    /// The form with the status choice cycled by `delta`.
    pub open spec fn status_cycled(self, delta: int) -> CreateDraft {
        CreateDraft {
            status_idx: ((self.status_idx + delta) % (self.statuses@.len() + 1) as int) as usize,
            ..self
        }
    }

    /// `self` is `old` with its title's characters replaced by `t`.
    pub open spec fn retitled(self, old: CreateDraft, t: Seq<char>) -> bool {
        self.title@ == t && self == (CreateDraft { title: self.title, ..old })
    }

    /// `self` is `old` with its description's characters replaced by `b`.
    pub open spec fn rebodied(self, old: CreateDraft, b: Seq<char>) -> bool {
        self.body@ == b && self == (CreateDraft { body: self.body, ..old })
    }

    /// What a key does in the create form. Esc closes; Tab/Down and
    /// BackTab/Up move the focus; Enter adds a newline in the description,
    /// submits on the button and otherwise advances; Backspace and printable
    /// keys edit the title and description; Left/Right (and `h`/`l`/space)
    /// cycle the label and status pickers.
    pub fn on_key(&mut self, key: Key) -> (r: Outcome)
        requires
            old(self).focus < isize::MAX,
            old(self).labels@.len() < isize::MAX,
            old(self).statuses@.len() < isize::MAX,
            old(self).label_idx < isize::MAX,
            old(self).status_idx < isize::MAX,
        ensures
            match key {
                Key::Esc => r == Outcome::Close && *final(self) == *old(self),
                Key::Tab | Key::Down => r == Outcome::Continue && *final(self) == old(self).moved(1),
                Key::BackTab | Key::Up => r == Outcome::Continue && *final(self) == old(self).moved(-1),
                Key::Enter => if old(self).focus == 1 {
                    r == Outcome::Continue && final(self).rebodied(*old(self), old(self).body@.push('\n'))
                } else if old(self).focus == 4 {
                    r == Outcome::Submit && *final(self) == *old(self)
                } else {
                    r == Outcome::Continue && *final(self) == old(self).moved(1)
                },
                Key::Backspace => r == Outcome::Continue && if old(self).focus == 0 {
                    final(self).retitled(*old(self), popped(old(self).title@))
                } else if old(self).focus == 1 {
                    final(self).rebodied(*old(self), popped(old(self).body@))
                } else {
                    *final(self) == *old(self)
                },
                Key::Left => r == Outcome::Continue && *final(self) == if old(self).focus == 2 {
                    old(self).label_cycled(-1)
                } else if old(self).focus == 3 {
                    old(self).status_cycled(-1)
                } else {
                    *old(self)
                },
                Key::Right => r == Outcome::Continue && *final(self) == if old(self).focus == 2 {
                    old(self).label_cycled(1)
                } else if old(self).focus == 3 {
                    old(self).status_cycled(1)
                } else {
                    *old(self)
                },
                Key::Char(c, _) => r == Outcome::Continue && if old(self).focus == 0 {
                    final(self).retitled(*old(self), old(self).title@.push(c))
                } else if old(self).focus == 1 {
                    final(self).rebodied(*old(self), old(self).body@.push(c))
                } else if old(self).focus == 2 && (c == ' ' || c == 'l') {
                    *final(self) == old(self).label_cycled(1)
                } else if old(self).focus == 2 && c == 'h' {
                    *final(self) == old(self).label_cycled(-1)
                } else if old(self).focus == 3 && (c == ' ' || c == 'l') {
                    *final(self) == old(self).status_cycled(1)
                } else if old(self).focus == 3 && c == 'h' {
                    *final(self) == old(self).status_cycled(-1)
                } else {
                    *final(self) == *old(self)
                },
                _ => r == Outcome::Continue && *final(self) == *old(self),
            },
    {
        match key {
            Key::Esc => Outcome::Close,
            Key::Tab | Key::Down => {
                self.move_focus(1);
                Outcome::Continue
            },
            Key::BackTab | Key::Up => {
                self.move_focus(-1);
                Outcome::Continue
            },
            Key::Enter => {
                if self.focus == 1 {
                    push_char(&mut self.body, '\n');
                    Outcome::Continue
                } else if self.focus == 4 {
                    Outcome::Submit
                } else {
                    self.move_focus(1);
                    Outcome::Continue
                }
            },
            Key::Backspace => {
                if self.focus == 0 {
                    pop_char(&mut self.title);
                } else if self.focus == 1 {
                    pop_char(&mut self.body);
                }
                Outcome::Continue
            },
            Key::Left => {
                if self.focus == 2 {
                    self.cycle_label(-1);
                } else if self.focus == 3 {
                    self.cycle_status(-1);
                }
                Outcome::Continue
            },
            Key::Right => {
                if self.focus == 2 {
                    self.cycle_label(1);
                } else if self.focus == 3 {
                    self.cycle_status(1);
                }
                Outcome::Continue
            },
            Key::Char(c, _) => {
                if self.focus == 0 {
                    push_char(&mut self.title, c);
                } else if self.focus == 1 {
                    push_char(&mut self.body, c);
                } else if self.focus == 2 && (c == ' ' || c == 'l') {
                    self.cycle_label(1);
                } else if self.focus == 2 && c == 'h' {
                    self.cycle_label(-1);
                } else if self.focus == 3 && (c == ' ' || c == 'l') {
                    self.cycle_status(1);
                } else if self.focus == 3 && c == 'h' {
                    self.cycle_status(-1);
                }
                Outcome::Continue
            },
            _ => Outcome::Continue,
        }
    }
}

impl Modal {
    /// `self` is `old` with only its start-work prompt changed, to one whose
    /// characters are `p`.
    pub open spec fn reprompted(self, old: Modal, p: Seq<char>) -> bool {
        &&& self.prompt_spec() == Some(p)
        &&& forall|s: String| #[trigger] self.with_prompt(s) == old.with_prompt(s)
    }

    /// What a key does on a start-work confirm. Enter starts (so does `y`
    /// outside editing); `e` enters prompt editing, Esc leaves it; outside
    /// editing Esc, `n` and `q` close. While editing, Backspace deletes,
    /// Ctrl+U clears and other plain characters type into the prompt.
    pub fn on_confirm_key(&mut self, key: Key) -> (r: Outcome)
        requires
            old(self).prompt_spec() is Some,
        ensures
            ({
                let editing = old(self).editing_spec();
                let p = old(self).prompt_spec()->0;
                match key {
                    Key::Enter => r == Outcome::Submit && *final(self) == *old(self),
                    Key::Char(c, ctrl) => if !editing && c == 'y' {
                        r == Outcome::Submit && *final(self) == *old(self)
                    } else if !editing && (c == 'n' || c == 'q') {
                        r == Outcome::Close && *final(self) == *old(self)
                    } else if !editing && c == 'e' {
                        r == Outcome::Continue && *final(self) == old(self).with_editing(true)
                    } else if editing && ctrl && c == 'u' {
                        r == Outcome::Continue && final(self).reprompted(*old(self), Seq::empty())
                    } else if editing && !ctrl {
                        r == Outcome::Continue && final(self).reprompted(*old(self), p.push(c))
                    } else {
                        r == Outcome::Continue && *final(self) == *old(self)
                    },
                    Key::Esc => if editing {
                        r == Outcome::Continue && *final(self) == old(self).with_editing(false)
                    } else {
                        r == Outcome::Close && *final(self) == *old(self)
                    },
                    Key::Backspace => r == Outcome::Continue && if editing {
                        final(self).reprompted(*old(self), popped(p))
                    } else {
                        *final(self) == *old(self)
                    },
                    _ => r == Outcome::Continue && *final(self) == *old(self),
                }
            }),
    {
        let editing = self.is_editing_prompt();
        match key {
            Key::Enter => Outcome::Submit,
            Key::Char(c, ctrl) => {
                if !editing && c == 'y' {
                    Outcome::Submit
                } else if !editing && (c == 'n' || c == 'q') {
                    Outcome::Close
                } else if !editing && c == 'e' {
                    self.set_editing_prompt(true);
                    Outcome::Continue
                } else if editing && ctrl && c == 'u' {
                    match self.prompt_mut() {
                        Some(p) => {
                            *p = String::new();
                        },
                        None => {},
                    }
                    Outcome::Continue
                } else if editing && !ctrl {
                    match self.prompt_mut() {
                        Some(p) => push_char(p, c),
                        None => {},
                    }
                    Outcome::Continue
                } else {
                    Outcome::Continue
                }
            },
            Key::Esc => {
                if editing {
                    self.set_editing_prompt(false);
                    Outcome::Continue
                } else {
                    Outcome::Close
                }
            },
            Key::Backspace => {
                if editing {
                    match self.prompt_mut() {
                        Some(p) => pop_char(p),
                        None => {},
                    }
                }
                Outcome::Continue
            },
            _ => Outcome::Continue,
        }
    }
}


/// What a key on the board (no overlay open) asks for.
#[derive(Debug, Clone, Copy, PartialEq, Eq, Structural)]
pub enum BoardCommand {
    Quit,
    /// Move the cursor a row down / up.
    Next,
    Prev,
    /// Jump to the next / previous status group header.
    GroupNext,
    GroupPrev,
    /// Fold the cursor's group / fold or unfold them all.
    Fold,
    FoldAll,
    /// Step the preset tabs / switch to the preset at an index.
    PresetNext,
    PresetPrev,
    Preset(usize),
    /// Start typing a live filter.
    Filter,
    /// Open the filter builder for a new preset / for the active one.
    NewFilter,
    EditFilter,
    /// Scroll the detail pane by half a page (`1` down, `-1` up) / by rows.
    HalfPage(i32),
    Scroll(i32),
    Create,
    DeletePreset,
    ToggleLabels,
    StartWork,
    WorktreeStart,
    MoveStatus,
    PickProject,
    OpenInBrowser,
    Refresh,
    Help,
    /// Live-filter input: leave and clear / leave and keep / edit the query.
    CancelFilter,
    ConfirmFilter,
    PopFilter,
    PushFilter(char),
    Ignore,
}

/// The command of a character key on the board. Ctrl+`d` / Ctrl+`u` scroll
/// half a page; otherwise Ctrl makes no difference.
pub open spec fn char_command(c: char, ctrl: bool) -> BoardCommand {
    if ctrl && c == 'd' {
        BoardCommand::HalfPage(1i32)
    } else if ctrl && c == 'u' {
        BoardCommand::HalfPage(-1i32)
    } else if c == 'q' {
        BoardCommand::Quit
    } else if c == 'j' {
        BoardCommand::Next
    } else if c == 'k' {
        BoardCommand::Prev
    } else if c == 'l' || c == ']' {
        BoardCommand::GroupNext
    } else if c == 'h' || c == '[' {
        BoardCommand::GroupPrev
    } else if c == 'z' {
        BoardCommand::Fold
    } else if c == 'Z' {
        BoardCommand::FoldAll
    } else if c == 'L' {
        BoardCommand::PresetNext
    } else if c == 'H' {
        BoardCommand::PresetPrev
    } else if '1' <= c && c <= '9' {
        BoardCommand::Preset((c as u32 - '1' as u32) as usize)
    } else if c == '/' {
        BoardCommand::Filter
    } else if c == 'f' {
        BoardCommand::NewFilter
    } else if c == 'e' {
        BoardCommand::EditFilter
    } else if c == 'c' {
        BoardCommand::Create
    } else if c == 'd' {
        BoardCommand::DeletePreset
    } else if c == 'i' {
        BoardCommand::ToggleLabels
    } else if c == 'J' {
        BoardCommand::Scroll(2i32)
    } else if c == 'K' {
        BoardCommand::Scroll(-2i32)
    } else if c == 's' {
        BoardCommand::StartWork
    } else if c == 't' {
        BoardCommand::WorktreeStart
    } else if c == 'm' {
        BoardCommand::MoveStatus
    } else if c == 'p' {
        BoardCommand::PickProject
    } else if c == 'o' {
        BoardCommand::OpenInBrowser
    } else if c == 'r' {
        BoardCommand::Refresh
    } else if c == '?' {
        BoardCommand::Help
    } else {
        BoardCommand::Ignore
    }
}

/// The board's keymap. While typing a live filter, Esc clears it, Enter
/// keeps it, Backspace and characters edit it.
pub open spec fn board_command_spec(mode: InputMode, key: Key) -> BoardCommand {
    match mode {
        InputMode::Filter => match key {
            Key::Esc => BoardCommand::CancelFilter,
            Key::Enter => BoardCommand::ConfirmFilter,
            Key::Backspace => BoardCommand::PopFilter,
            Key::Char(c, _) => BoardCommand::PushFilter(c),
            _ => BoardCommand::Ignore,
        },
        InputMode::Normal => match key {
            Key::Char(c, ctrl) => char_command(c, ctrl),
            Key::Down => BoardCommand::Next,
            Key::Up => BoardCommand::Prev,
            Key::Tab => BoardCommand::PresetNext,
            Key::BackTab => BoardCommand::PresetPrev,
            Key::PageDown => BoardCommand::Scroll(12i32),
            Key::PageUp => BoardCommand::Scroll(-12i32),
            _ => BoardCommand::Ignore,
        },
    }
}

/// The command of a character key on the board.
fn char_command_exec(c: char, ctrl: bool) -> (r: BoardCommand)
    ensures
        r == char_command(c, ctrl),
{
    if ctrl && c == 'd' {
        BoardCommand::HalfPage(1i32)
    } else if ctrl && c == 'u' {
        BoardCommand::HalfPage(-1i32)
    } else if c == 'q' {
        BoardCommand::Quit
    } else if c == 'j' {
        BoardCommand::Next
    } else if c == 'k' {
        BoardCommand::Prev
    } else if c == 'l' || c == ']' {
        BoardCommand::GroupNext
    } else if c == 'h' || c == '[' {
        BoardCommand::GroupPrev
    } else if c == 'z' {
        BoardCommand::Fold
    } else if c == 'Z' {
        BoardCommand::FoldAll
    } else if c == 'L' {
        BoardCommand::PresetNext
    } else if c == 'H' {
        BoardCommand::PresetPrev
    } else if '1' <= c && c <= '9' {
        BoardCommand::Preset((c as u32 - '1' as u32) as usize)
    } else if c == '/' {
        BoardCommand::Filter
    } else if c == 'f' {
        BoardCommand::NewFilter
    } else if c == 'e' {
        BoardCommand::EditFilter
    } else if c == 'c' {
        BoardCommand::Create
    } else if c == 'd' {
        BoardCommand::DeletePreset
    } else if c == 'i' {
        BoardCommand::ToggleLabels
    } else if c == 'J' {
        BoardCommand::Scroll(2i32)
    } else if c == 'K' {
        BoardCommand::Scroll(-2i32)
    } else if c == 's' {
        BoardCommand::StartWork
    } else if c == 't' {
        BoardCommand::WorktreeStart
    } else if c == 'm' {
        BoardCommand::MoveStatus
    } else if c == 'p' {
        BoardCommand::PickProject
    } else if c == 'o' {
        BoardCommand::OpenInBrowser
    } else if c == 'r' {
        BoardCommand::Refresh
    } else if c == '?' {
        BoardCommand::Help
    } else {
        BoardCommand::Ignore
    }
}

/// What a key on the board asks for, in input mode `mode`.
pub fn board_command(mode: InputMode, key: Key) -> (r: BoardCommand)
    ensures
        r == board_command_spec(mode, key),
{
    match mode {
        InputMode::Filter => match key {
            Key::Esc => BoardCommand::CancelFilter,
            Key::Enter => BoardCommand::ConfirmFilter,
            Key::Backspace => BoardCommand::PopFilter,
            Key::Char(c, _) => BoardCommand::PushFilter(c),
            _ => BoardCommand::Ignore,
        },
        InputMode::Normal => match key {
            Key::Char(c, ctrl) => char_command_exec(c, ctrl),
            Key::Down => BoardCommand::Next,
            Key::Up => BoardCommand::Prev,
            Key::Tab => BoardCommand::PresetNext,
            Key::BackTab => BoardCommand::PresetPrev,
            Key::PageDown => BoardCommand::Scroll(12i32),
            Key::PageUp => BoardCommand::Scroll(-12i32),
            _ => BoardCommand::Ignore,
        },
    }
}

/// What a key asks of an open picker (status mover, project switcher, delete
/// confirm).
#[derive(Debug, Clone, Copy, PartialEq, Eq, Structural)]
pub enum PickerCommand {
    /// Move the highlighted row.
    Move(isize),
    /// Act on the highlighted row (or confirm the delete).
    Choose,
    Close,
    Ignore,
}

impl Modal {
    /// A picker's keys: `j`/Down and `k`/Up move, Enter chooses (so does `y`
    /// on a delete confirm), Esc, `q` and `n` close.
    pub fn picker_command(&self, key: Key) -> (r: PickerCommand)
        ensures
            r == match key {
                Key::Down => PickerCommand::Move(1isize),
                Key::Up => PickerCommand::Move(-1isize),
                Key::Enter => PickerCommand::Choose,
                Key::Esc => PickerCommand::Close,
                Key::Char(c, _) => if c == 'j' {
                    PickerCommand::Move(1isize)
                } else if c == 'k' {
                    PickerCommand::Move(-1isize)
                } else if c == 'y' && self is ConfirmDelete {
                    PickerCommand::Choose
                } else if c == 'q' || c == 'n' {
                    PickerCommand::Close
                } else {
                    PickerCommand::Ignore
                },
                _ => PickerCommand::Ignore,
            },
    {
        match key {
            Key::Down => PickerCommand::Move(1isize),
            Key::Up => PickerCommand::Move(-1isize),
            Key::Enter => PickerCommand::Choose,
            Key::Esc => PickerCommand::Close,
            Key::Char(c, _) => {
                let deleting = match self {
                    Modal::ConfirmDelete { .. } => true,
                    _ => false,
                };
                if c == 'j' {
                    PickerCommand::Move(1isize)
                } else if c == 'k' {
                    PickerCommand::Move(-1isize)
                } else if c == 'y' && deleting {
                    PickerCommand::Choose
                } else if c == 'q' || c == 'n' {
                    PickerCommand::Close
                } else {
                    PickerCommand::Ignore
                }
            },
            _ => PickerCommand::Ignore,
        }
    }
}

/// On the board, the vim keys are the arrows: `j` does what Down does and `k`
/// what Up does (with or without Ctrl), and the two move the selection in
/// opposite directions, Down to the next row and Up to the previous one.
pub proof fn law_vim_keys_are_arrows(ctrl: bool)
    ensures
        board_command_spec(InputMode::Normal, Key::Char('j', ctrl)) == board_command_spec(
            InputMode::Normal,
            Key::Down,
        ),
        board_command_spec(InputMode::Normal, Key::Char('k', ctrl)) == board_command_spec(
            InputMode::Normal,
            Key::Up,
        ),
        board_command_spec(InputMode::Normal, Key::Down) == BoardCommand::Next,
        board_command_spec(InputMode::Normal, Key::Up) == BoardCommand::Prev,
        board_command_spec(InputMode::Normal, Key::Down) != board_command_spec(
            InputMode::Normal,
            Key::Up,
        ),
{
}

} // verus!
