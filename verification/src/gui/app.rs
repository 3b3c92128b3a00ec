//! The state of the vault window, and what events do to it.

use crate::fingerprint::{self, SlotInfoView};
use crate::gui::layout::{self, Rect};
use crate::gui::status::{SlotState, Status};
use crate::gui::typed::Typed;
use crate::gui::{self, Focus, Level, Mode};
use crate::text;
use crate::vault::{Dongle, Secret};
use vstd::prelude::*;
use vstd::string::*;
use vstd::utf8::*;

verus! {

/// How many lines the log keeps.
pub const MAX_LOGS: usize = 10;

/// A line of the log.
pub struct LogLine {
    pub text: String,
    pub level: Level,
}

/// A device chip on the screen and the receiver slot it stands for.
#[derive(Clone, Copy)]
pub struct Chip {
    pub rect: Rect,
    pub slot: u8,
}

/// The state of the window.
pub struct App {
    pub path: String,
    /// The keyslots of the selected file, if it is a vault.
    pub slots: Option<Vec<SlotState>>,
    pub pass: Typed,
    pub show_pass: bool,
    pub focus: Focus,
    pub mode: Mode,
    pub logs: Vec<LogLine>,
    pub status: Status,
    pub busy: bool,
    pub hover: (i32, i32),
    /// The selected file has to be looked at.
    pub path_dirty: bool,
    /// Receiver slots included in the next Lock (toggled by clicking chips).
    pub bind: u8,
    pub chips: Vec<Chip>,
}

/// What the window wants done after an event.
#[derive(Clone, Copy, PartialEq, Eq, Structural, Debug)]
pub enum Wish {
    Nothing,
    Quit,
    /// Let the user pick a file.
    Browse,
    /// Run the primary action.
    Fire,
    /// Read the receivers again.
    Refresh,
    /// Paste from the clipboard.
    Paste,
}

/// The keys that do something.
#[derive(Clone, Copy, PartialEq, Eq, Structural, Debug)]
pub enum Key {
    Escape,
    Backspace,
    Tab,
    Return,
    V,
    Other,
}

/// What the primary action comes to.
pub enum Primary {
    Nothing,
    Unlock { pass: Secret },
    Lock { dongle: Dongle, mode: Mode, pass: Secret },
}

/// The mask after a click at a point: every chip there is toggled.
pub open spec fn toggled(chips: Seq<Chip>, bind: u8, x: int, y: int) -> u8
    decreases chips.len(),
{
    if chips.len() == 0 {
        bind
    } else {
        let before = toggled(chips.drop_last(), bind, x, y);
        if chips.last().rect.holds(x, y) {
            before ^ fingerprint::slot_bit(chips.last().slot)
        } else {
            before
        }
    }
}

/// The texts of the log.
pub open spec fn log_texts(logs: Seq<LogLine>) -> Seq<(Seq<char>, Level)> {
    Seq::new(logs.len(), |i: int| (logs[i].text@, logs[i].level))
}

/// A log after another line: the oldest line goes where there are too many.
pub open spec fn logged(
    logs: Seq<(Seq<char>, Level)>,
    now: int,
    s: Seq<char>,
    level: Level,
) -> Seq<(Seq<char>, Level)> {
    let all = logs.push((gui::time_text(now) + "  "@ + s, level));
    if all.len() > MAX_LOGS {
        all.skip(1)
    } else {
        all
    }
}

impl App {
    pub open spec fn wf(self) -> bool {
        &&& self.pass.wf()
        &&& self.status.wf()
        &&& self.logs@.len() <= MAX_LOGS
        &&& forall|i: int| 0 <= i < self.chips@.len() ==> 1 <= (#[trigger] self.chips@[i]).slot <= 8
    }

    /// Whether a passphrase is wanted.
    pub open spec fn wants_pass(self) -> bool {
        match self.slots {
            Some(slots) => exists|i: int|
                0 <= i < slots@.len() && (#[trigger] slots@[i]).level == Level::Warn,
            None => self.mode != Mode::Dongle,
        }
    }

    /// The window when it opens: the receivers are being read.
    pub fn new() -> (a: App)
        ensures
            a.wf(),
            a.path@ == Seq::<char>::empty(),
            a.slots is None,
            a.pass@ == Seq::<char>::empty(),
            !a.show_pass,
            a.focus == Focus::File,
            a.mode == Mode::Dongle,
            a.logs@.len() == 0,
            a.status.is_blank(),
            a.status.detail@ == Seq::<char>::empty(),
            a.busy,
            a.hover == (-1i32, -1i32),
            !a.path_dirty,
            a.bind == 0,
            a.chips@.len() == 0,
    {
        App {
            path: String::new(),
            slots: None,
            pass: Typed::new(),
            show_pass: false,
            focus: Focus::File,
            mode: Mode::Dongle,
            logs: Vec::new(),
            status: Status::blank(),
            busy: true,
            hover: (-1, -1),
            path_dirty: false,
            bind: 0,
            chips: Vec::new(),
        }
    }

    /// Adds a line to the log, `now` seconds after the epoch.
    pub fn log(&mut self, now: u64, s: &str, level: Level)
        requires
            old(self).wf(),
        ensures
            final(self).wf(),
            log_texts(final(self).logs@) == logged(
                log_texts(old(self).logs@),
                now as int,
                s@,
                level,
            ),
            *final(self) == (App { logs: final(self).logs, ..*old(self) }),
    {
        let mut line: String = gui::stamp(now);
        line.append("  ");
        line.append(s);
        let ghost before = self.logs@;
        let ghost entry = LogLine { text: line, level };
        self.logs.push(LogLine { text: line, level });
        assert(log_texts(self.logs@) =~= log_texts(before).push((entry.text@, level)));
        if self.logs.len() > MAX_LOGS {
            let ghost all = self.logs@;
            let _ = self.logs.remove(0);
            assert(log_texts(self.logs@) =~= log_texts(all).skip(1));
        }
    }

    pub fn is_vault(&self) -> (r: bool)
        ensures
            r == (self.slots is Some),
    {
        self.slots.is_some()
    }

    pub fn pass_needed(&self) -> (r: bool)
        ensures
            r == self.wants_pass(),
    {
        match &self.slots {
            Some(slots) => {
                let mut i: usize = 0;
                while i < slots.len()
                    invariant
                        i <= slots@.len(),
                        self.slots is Some,
                        self.slots->0 == *slots,
                        forall|j: int| 0 <= j < i ==> (#[trigger] slots@[j]).level != Level::Warn,
                    decreases slots@.len() - i,
                {
                    if matches!(slots[i].level, Level::Warn) {
                        return true;
                    }
                    i = i + 1;
                }
                false
            },
            None => self.mode.needs_pass(),
        }
    }

    /// Selects a file. Another file than before has to be looked at.
    pub fn set_path(&mut self, p: &str)
        requires
            old(self).wf(),
        ensures
            final(self).wf(),
            final(self).path@ == p@,
            p@ == old(self).path@ ==> *final(self) == *old(self),
            p@ != old(self).path@ ==> *final(self) == (App {
                path: final(self).path,
                slots: None,
                path_dirty: true,
                ..*old(self)
            }),
    {
        if !text::same(p, self.path.as_str()) {
            self.path = text::owned(p);
            self.slots = None;
            self.path_dirty = true;
        }
    }

    /// The label of the primary button and whether it can be pressed. `dest` is the name of the
    /// file that it would write.
    pub fn primary_label(&self, dest: &str) -> (r: (String, bool))
        ensures
            r.0@ == if self.path@.len() == 0 {
                "Select a file"@
            } else if self.slots is Some {
                "Unlock · "@ + dest@
            } else {
                "Lock · "@ + dest@
            },
            r.1 == (self.path@.len() > 0 && !self.busy),
    {
        if self.path.as_str().is_empty() {
            (text::owned("Select a file"), false)
        } else if self.is_vault() {
            (text::glue("Unlock · ", dest), !self.busy)
        } else {
            (text::glue("Lock · ", dest), !self.busy)
        }
    }

    pub fn hovering(&self, rect: Rect) -> (r: bool)
        ensures
            r == rect.holds(self.hover.0 as int, self.hover.1 as int),
    {
        rect.contains_point(self.hover.0, self.hover.1)
    }

    fn toggle(&mut self, x: i32, y: i32)
        requires
            old(self).wf(),
        ensures
            final(self).wf(),
            *final(self) == (App {
                bind: toggled(old(self).chips@, old(self).bind, x as int, y as int),
                ..*old(self)
            }),
    {
        let mut bind: u8 = self.bind;
        let mut i: usize = 0;
        assert(self.chips@.take(0) =~= Seq::empty());
        while i < self.chips.len()
            invariant
                i <= self.chips@.len(),
                *self == *old(self),
                self.wf(),
                bind == toggled(self.chips@.take(i as int), self.bind, x as int, y as int),
            decreases self.chips@.len() - i,
        {
            assert(self.chips@.take(i + 1).drop_last() =~= self.chips@.take(i as int));
            assert(self.chips@.take(i + 1).last() == self.chips@[i as int]);
            if self.chips[i].rect.contains_point(x, y) {
                bind = bind ^ (1u8 << (self.chips[i].slot - 1));
            }
            i = i + 1;
        }
        assert(self.chips@.take(i as int) =~= self.chips@);
        self.bind = bind;
    }

    /// The left button goes down. While the window is busy a click only moves the focus and shows
    /// or hides the passphrase.
    pub fn click(&mut self, x: i32, y: i32) -> (w: Wish)
        requires
            old(self).wf(),
        ensures
            final(self).wf(),
            ({
                let (px, py) = (x as int, y as int);
                let focus = if layout::drop_zone().holds(px, py) && !layout::browse_btn().holds(
                    px,
                    py,
                ) {
                    Focus::File
                } else if layout::pass_field().holds(px, py) {
                    Focus::Pass
                } else {
                    old(self).focus
                };
                let show_pass = if layout::eye_btn().holds(px, py) && old(self).wants_pass() {
                    !old(self).show_pass
                } else {
                    old(self).show_pass
                };
                if old(self).busy {
                    &&& w == Wish::Nothing
                    &&& *final(self) == (App { focus, show_pass, ..*old(self) })
                } else {
                    let mode = if old(self).slots is None && layout::segment_bar().holds(px, py) {
                        Mode::at(layout::segment_at(px))
                    } else {
                        old(self).mode
                    };
                    let bind = toggled(old(self).chips@, old(self).bind, px, py);
                    &&& *final(self) == (App { focus, show_pass, mode, bind, ..*old(self) })
                    &&& w == if layout::browse_btn().holds(px, py) {
                        Wish::Browse
                    } else if layout::primary_btn().holds(px, py) {
                        Wish::Fire
                    } else if layout::refresh_btn().holds(px, py) {
                        Wish::Refresh
                    } else {
                        Wish::Nothing
                    }
                }
            }),
    {
        let on_browse: bool = layout::browse_btn().contains_point(x, y);
        if layout::drop_zone().contains_point(x, y) && !on_browse {
            self.focus = Focus::File;
        } else if layout::pass_field().contains_point(x, y) {
            self.focus = Focus::Pass;
        }
        if layout::eye_btn().contains_point(x, y) && self.pass_needed() {
            self.show_pass = !self.show_pass;
        }
        if self.busy {
            return Wish::Nothing;
        }
        if !self.is_vault() && layout::segment_bar().contains_point(x, y) {
            self.mode = Mode::nth(layout::segment(x));
        }
        self.toggle(x, y);
        if on_browse {
            Wish::Browse
        } else if layout::primary_btn().contains_point(x, y) {
            Wish::Fire
        } else if layout::refresh_btn().contains_point(x, y) {
            Wish::Refresh
        } else {
            Wish::Nothing
        }
    }

    /// Text is typed.
    pub fn type_text(&mut self, s: &str)
        requires
            old(self).wf(),
        ensures
            final(self).wf(),
            match old(self).focus {
                Focus::File => {
                    &&& final(self).path@ == old(self).path@ + s@
                    &&& s@.len() == 0 ==> *final(self) == *old(self)
                    &&& s@.len() > 0 ==> *final(self) == (App {
                        path: final(self).path,
                        slots: None,
                        path_dirty: true,
                        ..*old(self)
                    })
                },
                Focus::Pass => {
                    &&& final(self).pass@ == old(self).pass@ + s@
                    &&& *final(self) == (App { pass: final(self).pass, ..*old(self) })
                },
            },
    {
        match self.focus {
            Focus::File => {
                let p: String = text::glue(self.path.as_str(), s);
                assert(s@.len() == 0 ==> p@ =~= self.path@);
                assert(s@.len() > 0 ==> p@.len() != self.path@.len());
                self.set_path(p.as_str());
            },
            Focus::Pass => self.pass.push_str(s),
        }
    }

    /// Text is pasted: a path replaces the path, a passphrase is appended.
    pub fn paste(&mut self, s: &str)
        requires
            old(self).wf(),
        ensures
            final(self).wf(),
            match old(self).focus {
                Focus::File => {
                    &&& final(self).path@ == s@
                    &&& s@ == old(self).path@ ==> *final(self) == *old(self)
                    &&& s@ != old(self).path@ ==> *final(self) == (App {
                        path: final(self).path,
                        slots: None,
                        path_dirty: true,
                        ..*old(self)
                    })
                },
                Focus::Pass => {
                    &&& final(self).pass@ == old(self).pass@ + s@
                    &&& *final(self) == (App { pass: final(self).pass, ..*old(self) })
                },
            },
    {
        match self.focus {
            Focus::File => self.set_path(s),
            Focus::Pass => self.pass.push_str(s),
        }
    }

    /// Removes the last character of the field in focus, or with `cmd` all of it.
    fn erase(&mut self, cmd: bool)
        requires
            old(self).wf(),
        ensures
            final(self).wf(),
            match old(self).focus {
                Focus::File => {
                    &&& final(self).path@ == erased(old(self).path@, cmd)
                    &&& old(self).path@.len() == 0 ==> *final(self) == *old(self)
                    &&& old(self).path@.len() > 0 ==> *final(self) == (App {
                        path: final(self).path,
                        slots: None,
                        path_dirty: true,
                        ..*old(self)
                    })
                },
                Focus::Pass => {
                    &&& final(self).pass@ == erased(old(self).pass@, cmd)
                    &&& *final(self) == (App { pass: final(self).pass, ..*old(self) })
                },
            },
    {
        match self.focus {
            Focus::File => {
                let len: usize = self.path.as_str().unicode_len();
                let keep: usize = if cmd || len == 0 { 0 } else { len - 1 };
                let p: String = text::owned(self.path.as_str().substring_char(0, keep));
                assert(p@ =~= erased(self.path@, cmd));
                assert(len == 0 ==> p@ =~= self.path@);
                assert(len > 0 ==> p@.len() != self.path@.len());
                self.set_path(p.as_str());
            },
            Focus::Pass => {
                if cmd {
                    self.pass.clear();
                } else {
                    self.pass.pop();
                }
            },
        }
    }

    /// A key goes down; `cmd` tells whether a command key is held.
    pub fn press(&mut self, key: Key, cmd: bool) -> (w: Wish)
        requires
            old(self).wf(),
        ensures
            final(self).wf(),
            w == match key {
                Key::Escape => Wish::Quit,
                Key::Return => Wish::Fire,
                Key::V => if cmd {
                    Wish::Paste
                } else {
                    Wish::Nothing
                },
                _ => Wish::Nothing,
            },
            match key {
                Key::Backspace => match old(self).focus {
                    Focus::File => {
                        &&& final(self).path@ == erased(old(self).path@, cmd)
                        &&& old(self).path@.len() == 0 ==> *final(self) == *old(self)
                        &&& old(self).path@.len() > 0 ==> *final(self) == (App {
                            path: final(self).path,
                            slots: None,
                            path_dirty: true,
                            ..*old(self)
                        })
                    },
                    Focus::Pass => {
                        &&& final(self).pass@ == erased(old(self).pass@, cmd)
                        &&& *final(self) == (App { pass: final(self).pass, ..*old(self) })
                    },
                },
                Key::Tab => *final(self) == (App {
                    focus: if old(self).focus == Focus::File && old(self).wants_pass() {
                        Focus::Pass
                    } else {
                        Focus::File
                    },
                    ..*old(self)
                }),
                _ => *final(self) == *old(self),
            },
    {
        match key {
            Key::Escape => Wish::Quit,
            Key::Backspace => {
                self.erase(cmd);
                Wish::Nothing
            },
            Key::Tab => {
                self.focus = if matches!(self.focus, Focus::File) && self.pass_needed() {
                    Focus::Pass
                } else {
                    Focus::File
                };
                Wish::Nothing
            },
            Key::Return => Wish::Fire,
            Key::V => {
                if cmd {
                    Wish::Paste
                } else {
                    Wish::Nothing
                }
            },
            Key::Other => Wish::Nothing,
        }
    }
}

/// A text without its last character, or with `cmd` without any.
pub open spec fn erased(s: Seq<char>, cmd: bool) -> Seq<char> {
    if cmd || s.len() == 0 {
        Seq::empty()
    } else {
        s.drop_last()
    }
}

/// What the log says to a primary action that cannot be run, or that is run with a warning.
pub open spec fn primary_note(a: App) -> Option<(Seq<char>, Level)> {
    match a.status.fp {
        None => Some(("no dongle fingerprint: plug a receiver and Refresh"@, Level::Bad)),
        Some(fp) => if a.mode != Mode::Dongle && a.pass@.len() == 0 {
            Some((a.mode.label_text() + ": type a passphrase first"@, Level::Bad))
        } else {
            match fp@.material(fp@.plugged(), a.bind) {
                Err(why) => Some((why, Level::Bad)),
                Ok(_) => if a.mode == Mode::Dongle && fingerprint::records_in(fp@.slots, a.bind)
                    % 256 == 0 {
                    Some(
                        (
                            "warning: no pairing record in this binding, serials only; consider a PIN"@,
                            Level::Warn,
                        ),
                    )
                } else {
                    None
                }
            }
        },
    }
}

impl App {
    /// Runs the primary action: a vault is unlocked, another file is locked with the dongles that
    /// were read. Nothing happens while the window is busy or without a file.
    pub fn primary(&mut self, now: u64) -> (p: Primary)
        requires
            old(self).wf(),
        ensures
            final(self).wf(),
            ({
                let a = *old(self);
                if a.busy || a.path@.len() == 0 {
                    p is Nothing && *final(self) == a
                } else if a.slots is Some {
                    &&& p matches Primary::Unlock { pass } && pass@ == encode_utf8(a.pass@)
                    &&& *final(self) == a
                } else {
                    let needs = a.mode != Mode::Dongle && a.pass@.len() == 0;
                    &&& log_texts(final(self).logs@) == match primary_note(a) {
                        Some((s, level)) => logged(log_texts(a.logs@), now as int, s, level),
                        None => log_texts(a.logs@),
                    }
                    &&& *final(self) == (App {
                        logs: final(self).logs,
                        focus: if a.status.fp is Some && needs {
                            Focus::Pass
                        } else {
                            a.focus
                        },
                        ..a
                    })
                    &&& match p {
                        Primary::Lock { dongle, mode, pass } => {
                            &&& a.status.fp matches Some(fp) && !needs
                                && fp@.material(fp@.plugged(), a.bind) == Ok::<
                                Seq<u8>,
                                Seq<char>,
                            >(dongle@.material) && dongle@.dongles == fp@.plugged()
                                && dongle@.nkeys == fingerprint::records_in(fp@.slots, a.bind)
                                % 256 && dongle@.bind == a.bind
                            &&& mode == a.mode
                            &&& pass@ == encode_utf8(a.pass@)
                        },
                        Primary::Nothing => a.status.fp is None || needs || (
                        a.status.fp matches Some(fp) && fp@.material(
                            fp@.plugged(),
                            a.bind,
                        ) is Err),
                        Primary::Unlock { .. } => false,
                    }
                }
            }),
    {
        if self.busy || self.path.as_str().is_empty() {
            return Primary::Nothing;
        }
        let pass: Secret = self.pass.to_secret();
        if self.is_vault() {
            return Primary::Unlock { pass };
        }
        let made: Result<Dongle, String> = match &self.status.fp {
            None => {
                self.log(now, "no dongle fingerprint: plug a receiver and Refresh", Level::Bad);
                return Primary::Nothing;
            },
            Some(fp) => {
                if self.mode.needs_pass() && self.pass.is_empty() {
                    let why: String = text::glue(self.mode.label(), ": type a passphrase first");
                    self.log(now, why.as_str(), Level::Bad);
                    self.focus = Focus::Pass;
                    return Primary::Nothing;
                }
                fp.dongle(Some(self.bind))
            },
        };
        match made {
            Ok(dongle) => {
                if dongle.nkeys == 0 && matches!(self.mode, Mode::Dongle) {
                    self.log(
                        now,
                        "warning: no pairing record in this binding, serials only; consider a PIN",
                        Level::Warn,
                    );
                }
                Primary::Lock { dongle, mode: self.mode, pass }
            },
            Err(why) => {
                self.log(now, why.as_str(), Level::Bad);
                Primary::Nothing
            },
        }
    }

    /// A job was handed out, if that worked.
    pub fn sent(&mut self, ok: bool)
        ensures
            *final(self) == (App { busy: ok, ..*old(self) }),
    {
        self.busy = ok;
    }

    /// Whether the selected file has to be looked at; it counts as looked at from now on.
    pub fn take_dirty(&mut self) -> (r: bool)
        ensures
            r == old(self).path_dirty,
            *final(self) == (App { path_dirty: false, ..*old(self) }),
    {
        let r: bool = self.path_dirty;
        self.path_dirty = false;
        r
    }

    /// The receivers were read.
    pub fn done_status(&mut self, now: u64, st: Status)
        requires
            old(self).wf(),
            st.wf(),
        ensures
            final(self).wf(),
            log_texts(final(self).logs@) == logged(
                log_texts(old(self).logs@),
                now as int,
                st.detail@,
                if st.ok {
                    Level::Good
                } else {
                    Level::Bad
                },
            ),
            *final(self) == (App {
                status: st,
                bind: match st.fp {
                    Some(fp) => fingerprint::mask_of(fp@.slots),
                    None => 0,
                },
                busy: false,
                path_dirty: old(self).path@.len() > 0,
                logs: final(self).logs,
                ..*old(self)
            }),
    {
        self.bind = match &st.fp {
            Some(fp) => fp.occupied(),
            None => 0,
        };
        self.log(now, st.detail.as_str(), if st.ok { Level::Good } else { Level::Bad });
        self.status = st;
        self.busy = false;
        self.path_dirty = !self.path.as_str().is_empty();
    }

    /// The selected file was looked at: its keyslots, if it is a vault.
    pub fn done_inspect(&mut self, slots: Option<Vec<SlotState>>)
        ensures
            *final(self) == (App { slots, ..*old(self) }),
    {
        self.slots = slots;
    }

    /// A lock or an unlock ended. After success the passphrase is forgotten.
    pub fn done_line(&mut self, now: u64, s: &str, level: Level)
        requires
            old(self).wf(),
        ensures
            final(self).wf(),
            log_texts(final(self).logs@) == logged(
                log_texts(old(self).logs@),
                now as int,
                s@,
                level,
            ),
            final(self).pass@ == if level == Level::Good {
                Seq::<char>::empty()
            } else {
                old(self).pass@
            },
            *final(self) == (App {
                busy: false,
                path_dirty: old(self).path@.len() > 0,
                logs: final(self).logs,
                pass: final(self).pass,
                ..*old(self)
            }),
    {
        if matches!(level, Level::Good) {
            self.pass.clear();
        }
        self.log(now, s, level);
        self.busy = false;
        self.path_dirty = !self.path.as_str().is_empty();
    }
}

/// A click where there is no chip leaves the binding as it is; one on the chip of a receiver slot
/// takes the slot in or out and leaves the others.
pub proof fn law_click_toggles(chips: Seq<Chip>, bind: u8, x: int, y: int, i: int, n: u8)
    requires
        forall|j: int| 0 <= j < chips.len() ==> 1 <= (#[trigger] chips[j]).slot <= 8,
        forall|j: int| 0 <= j < chips.len() && j != i ==> !(#[trigger] chips[j]).rect.holds(x, y),
        1 <= n <= 8,
    ensures
        ({
            let after = toggled(chips, bind, x, y);
            let bit = 1u8 << ((n - 1) as u8);
            if 0 <= i < chips.len() && chips[i].rect.holds(x, y) && chips[i].slot == n {
                after & bit != 0 <==> bind & bit == 0
            } else {
                after & bit != 0 <==> bind & bit != 0
            }
        }),
    decreases chips.len(),
{
    if chips.len() > 0 {
        let init = chips.drop_last();
        assert forall|j: int| 0 <= j < init.len() implies 1 <= (#[trigger] init[j]).slot <= 8 by {
            assert(init[j] == chips[j]);
        }
        assert forall|j: int| 0 <= j < init.len() && j != i implies !(
        #[trigger] init[j]).rect.holds(x, y) by {
            assert(init[j] == chips[j]);
        }
        law_click_toggles(init, bind, x, y, i, n);
        let last = chips.last();
        let before = toggled(init, bind, x, y);
        let (a, b) = ((last.slot - 1) as u8, (n - 1) as u8);
        assert(last == chips[chips.len() - 1]);
        assert(a < 8 && b < 8 ==> ((before ^ (1u8 << a)) & (1u8 << b) != 0 <==> (before & (1u8 << b)
            != 0) != (a == b))) by (bit_vector);
    }
}

/// A log keeps the newest ten lines, with the time before each message.
pub proof fn law_log(logs: Seq<(Seq<char>, Level)>, now: int, s: Seq<char>, level: Level, i: int)
    requires
        logs.len() <= 10,
    ensures
        ({
            let after = logged(logs, now, s, level);
            &&& after.len() == if logs.len() < 10 {
                logs.len() + 1
            } else {
                10
            }
            &&& after.last() == (gui::time_text(now) + "  "@ + s, level)
            &&& logs.len() < 10 && 0 <= i < logs.len() ==> after[i] == logs[i]
            &&& logs.len() == 10 && 1 <= i < 10 ==> after[i - 1] == logs[i]
        }),
{
}

/// Erasing takes the last character off, or with the command key all of them.
pub proof fn law_erased(s: Seq<char>, c: char)
    ensures
        erased(s.push(c), false) == s,
        erased(s, true).len() == 0,
        erased(seq![], false).len() == 0,
{
    assert(s.push(c).drop_last() =~= s);
}

/// Why a file is not locked: no receiver was read, a passphrase is wanted and none was typed, or the
/// receivers give nothing for the binding. A warning goes with a lock that rests on serial numbers
/// alone and has no PIN and no recovery passphrase.
pub proof fn law_primary_note(a: App)
    ensures
        match a.status.fp {
            None => primary_note(a) == Some(
                ("no dongle fingerprint: plug a receiver and Refresh"@, Level::Bad),
            ),
            Some(fp) => {
                let wanted = a.mode != Mode::Dongle && a.pass@.len() == 0;
                let m = fp@.material(fp@.plugged(), a.bind);
                &&& a.mode == Mode::DonglePin && a.pass@.len() == 0 ==> primary_note(a) == Some(
                    ("Dongle + PIN"@ + ": type a passphrase first"@, Level::Bad),
                )
                &&& a.mode == Mode::DongleRecovery && a.pass@.len() == 0 ==> primary_note(a)
                    == Some(("+ Recovery"@ + ": type a passphrase first"@, Level::Bad))
                &&& !wanted && m is Err ==> primary_note(a) == Some((m->Err_0, Level::Bad))
                &&& !wanted && m is Ok && a.mode != Mode::Dongle ==> primary_note(a) is None
                &&& a.mode == Mode::Dongle && m is Ok && fp@.slots.len() < 256 ==> {
                    let some = exists|i: int|
                        0 <= i < fp@.slots.len() && (#[trigger] fp@.slots[i]).record is Some
                            && a.bind & (1u8 << ((fp@.slots[i].slot - 1) as u8)) != 0;
                    &&& some ==> primary_note(a) is None
                    &&& !some ==> primary_note(a) == Some(
                        (
                            "warning: no pairing record in this binding, serials only; consider a PIN"@,
                            Level::Warn,
                        ),
                    )
                }
            },
        },
{
    if let Some(fp) = a.status.fp {
        lemma_any_record(fp@.slots, a.bind);
    }
}

proof fn lemma_any_record(slots: Seq<SlotInfoView>, bind: u8)
    ensures
        fingerprint::records_in(slots, bind) <= slots.len(),
        fingerprint::records_in(slots, bind) > 0 <==> exists|i: int|
            0 <= i < slots.len() && (#[trigger] slots[i]).record is Some && bind & (1u8 << ((
            slots[i].slot - 1) as u8)) != 0,
    decreases slots.len(),
{
    if slots.len() > 0 {
        let init = slots.drop_last();
        lemma_any_record(init, bind);
        assert(slots.last() == slots[slots.len() - 1]);
        assert forall|i: int| 0 <= i < init.len() implies #[trigger] init[i] == slots[i] by {
        }
        if fingerprint::records_in(init, bind) > 0 {
            let i = choose|i: int|
                0 <= i < init.len() && (#[trigger] init[i]).record is Some && bind & (1u8 << ((
                init[i].slot - 1) as u8)) != 0;
            assert(slots[i].record is Some);
        }
        if exists|i: int|
            0 <= i < slots.len() && (#[trigger] slots[i]).record is Some && bind & (1u8 << ((
            slots[i].slot - 1) as u8)) != 0 {
            let i = choose|i: int|
                0 <= i < slots.len() && (#[trigger] slots[i]).record is Some && bind & (1u8 << ((
                slots[i].slot - 1) as u8)) != 0;
            if i < init.len() {
                assert(init[i].record is Some);
            }
        }
    }
}

/// A passphrase is wanted for a new vault in every mode but the one with dongles alone, and for a
/// vault where a keyslot opens with one.
pub proof fn law_pass_wanted(a: App)
    ensures
        a.slots is None ==> (a.wants_pass() <==> a.mode == Mode::DonglePin || a.mode
            == Mode::DongleRecovery),
        a.slots matches Some(slots) ==> (a.wants_pass() <==> exists|i: int|
            0 <= i < slots@.len() && (#[trigger] slots@[i]).level == Level::Warn),
{
}

} // verus!
