//! Decisions of the resident process: single-instance start-up, the global
//! hotkey registration, tray commands and the hotkey message encoding. The
//! caller performs the system calls these decisions name.
use vstd::prelude::*;

use crate::shortcut::{is_valid, Shortcut};

verus! {

/// `MOD_NOREPEAT`: a held key does not repeat the hotkey message.
pub const NO_REPEAT: u32 = 0x4000;

/// What a starting process does, given whether another instance already holds
/// the instance lock.
#[derive(Debug, PartialEq, Eq, Structural)]
pub enum Launch {
    /// Keep the lock and run the launcher.
    Run,
    /// Exit at once.
    Exit,
    /// Ask the running instance to show itself, or to quit.
    Signal { quit: bool },
}

/// A second invocation only signals the first process (or stays silent when it
/// was asked to start in the background); `quit` without a running instance exits.
pub fn launch(already_running: bool, quit: bool, background: bool) -> (r: Launch)
    ensures
        already_running && background && !quit ==> r == Launch::Exit,
        already_running && !(background && !quit) ==> r == (Launch::Signal { quit }),
        !already_running && quit ==> r == Launch::Exit,
        !already_running && !quit ==> r == Launch::Run,
{
    if already_running {
        if background && !quit {
            Launch::Exit
        } else {
            Launch::Signal { quit }
        }
    } else if quit {
        Launch::Exit
    } else {
        Launch::Run
    }
}

/// The registered hotkey: its registration id (0 when none is registered) and
/// the shortcut it stands for.
#[derive(Debug)]
pub struct Registration {
    pub id: i32,
    pub hotkey: Shortcut,
}

/// The next step of a hotkey change.
#[derive(Debug, PartialEq, Eq, Structural)]
pub enum Change {
    /// The shortcut cannot be registered.
    Refuse,
    /// The shortcut is already the active registration.
    Unchanged,
    /// Register the shortcut under a fresh id, before the old id is released.
    Register { id: i32, modifiers: u32, key: u32 },
}

/// The step `plan` chooses for a registration `(id, hotkey)` and a candidate:
/// refuse an invalid one, keep an already active one, else register it under the
/// other id before the old one is released.
pub open spec fn planned(id: i32, hotkey: Shortcut, choice: Shortcut) -> Change {
    if !is_valid(choice) {
        Change::Refuse
    } else if id != 0 && choice == hotkey {
        Change::Unchanged
    } else {
        Change::Register {
            id: if id == 1 { 2i32 } else { 1i32 },
            modifiers: choice.modifiers | NO_REPEAT,
            key: choice.key,
        }
    }
}

/// The registration after registering `choice` under `new_id` succeeded or
/// failed: the new one on success, the previous one unchanged on failure.
pub open spec fn committed(id: i32, hotkey: Shortcut, choice: Shortcut, new_id: i32, registered: bool) -> (
    i32,
    Shortcut,
) {
    if registered {
        (new_id, choice)
    } else {
        (id, hotkey)
    }
}

impl Registration {
    /// Nothing registered yet for `hotkey`.
    pub fn new(hotkey: Shortcut) -> (r: Registration)
        ensures
            r.id == 0,
            r.hotkey == hotkey,
    {
        Registration { id: 0, hotkey }
    }

    /// How to switch to `choice`.
    pub fn plan(&self, choice: Shortcut) -> (r: Change)
        ensures
            r == planned(self.id, self.hotkey, choice),
            r matches Change::Register { id, .. } ==> id != self.id && (id == 1 || id == 2),
    {
        if !choice.valid() {
            return Change::Refuse;
        }
        if self.id != 0 && choice == self.hotkey {
            return Change::Unchanged;
        }
        let id = if self.id == 1 { 2 } else { 1 };
        Change::Register { id, modifiers: choice.modifiers | NO_REPEAT, key: choice.key }
    }

    /// Record the outcome of registering `choice` under `id`; returns the id to
    /// release when the registration succeeded and an older one was active.
    pub fn commit(&mut self, choice: Shortcut, id: i32, registered: bool) -> (release: Option<i32>)
        ensures
            (final(self).id, final(self).hotkey) == committed(old(self).id, old(self).hotkey, choice, id, registered),
            !registered ==> release is None,
            registered ==> release == (if old(self).id != 0 { Some(old(self).id) } else { None }),
    {
        if !registered {
            return None;
        }
        let release = if self.id != 0 { Some(self.id) } else { None };
        self.id = id;
        self.hotkey = choice;
        release
    }

    /// Stop listening while a new shortcut is recorded; returns the id to release.
    pub fn suspend(&mut self) -> (release: Option<i32>)
        ensures
            final(self).id == 0,
            final(self).hotkey == old(self).hotkey,
            release == (if old(self).id != 0 { Some(old(self).id) } else { None }),
    {
        if self.id != 0 {
            let id = self.id;
            self.id = 0;
            Some(id)
        } else {
            None
        }
    }
}

/// Recording suspends the hotkey and then restores the same shortcut: after
/// `suspend` (no id, same hotkey), planning that valid shortcut registers it
/// again, and committing makes it active exactly when the system accepted it;
/// otherwise nothing is registered and the shortcut is still remembered.
pub proof fn lemma_recording_restores(k: Shortcut, registered: bool)
    requires
        is_valid(k),
    ensures
        planned(0, k, k) == (Change::Register { id: 1, modifiers: k.modifiers | NO_REPEAT, key: k.key }),
        committed(0, k, k, 1, registered) == (if registered {
            (1i32, k)
        } else {
            (0i32, k)
        }),
{
}

/// The hotkey message parameter: modifiers in the high half, key in the low half.
pub open spec fn packed(s: Shortcut) -> u32 {
    (s.modifiers << 16u32) | s.key
}

/// The shortcut a message parameter stands for.
pub open spec fn unpacked(w: usize) -> Shortcut {
    Shortcut { modifiers: (w as u32) >> 16u32, key: (w as u32) & 0xffffu32 }
}

/// Encode a shortcut for the hotkey message. Only shortcuts that can be
/// registered are sent, and each of them comes back unchanged.
pub fn pack(s: Shortcut) -> (w: usize)
    requires
        is_valid(s),
    ensures
        w == packed(s) as usize,
        unpacked(w) == s,
{
    proof {
        lemma_valid_fits(s);
        lemma_pack_roundtrip(s);
    }
    ((s.modifiers << 16) | s.key) as usize
}

/// Decode a hotkey message parameter.
pub fn unpack(w: usize) -> (s: Shortcut)
    ensures
        s == unpacked(w),
{
    Shortcut { modifiers: (w as u32) >> 16, key: (w as u32) & 0xffff }
}

/// Shortcuts whose modifiers and key fit in 16 bits (every valid one does) pass
/// through the message parameter unchanged.
pub proof fn lemma_pack_roundtrip(s: Shortcut)
    requires
        s.modifiers < 0x10000,
        s.key < 0x10000,
    ensures
        unpacked(packed(s) as usize) == s,
{
    let w = packed(s);
    assert((w as usize) as u32 == w) by (bit_vector);
    let m = s.modifiers;
    let k = s.key;
    assert(((m << 16u32) | k) >> 16u32 == m) by (bit_vector)
        requires
            m < 0x10000u32,
            k < 0x10000u32,
    ;
    assert(((m << 16u32) | k) & 0xffffu32 == k) by (bit_vector)
        requires
            m < 0x10000u32,
            k < 0x10000u32,
    ;
}

/// Every valid shortcut fits in the message parameter.
pub proof fn lemma_valid_fits(s: Shortcut)
    requires
        is_valid(s),
    ensures
        s.modifiers < 0x10000,
        s.key < 0x10000,
{
}

/// The global hotkey hides the launcher when it is visible and in front, and shows it otherwise.
pub fn hotkey_hides(visible: bool, foreground: bool) -> (r: bool)
    ensures
        r == (visible && foreground),
{
    visible && foreground
}

/// A command chosen from the tray menu.
#[derive(Debug, PartialEq, Eq, Structural)]
pub enum TrayCommand {
    Open,
    Settings,
    Quit,
    Nothing,
}

/// Menu items 1, 2 and 3 are Open, Settings and Quit.
pub fn tray_command(choice: i32) -> (r: TrayCommand)
    ensures
        choice == 1 ==> r == TrayCommand::Open,
        choice == 2 ==> r == TrayCommand::Settings,
        choice == 3 ==> r == TrayCommand::Quit,
        choice != 1 && choice != 2 && choice != 3 ==> r == TrayCommand::Nothing,
{
    if choice == 1 {
        TrayCommand::Open
    } else if choice == 2 {
        TrayCommand::Settings
    } else if choice == 3 {
        TrayCommand::Quit
    } else {
        TrayCommand::Nothing
    }
}

} // verus!
