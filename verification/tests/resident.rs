use opencast::resident::{
    hotkey_hides, launch, pack, tray_command, unpack, Change, Launch, Registration, TrayCommand,
    NO_REPEAT,
};
use opencast::shortcut::Shortcut;

#[test]
fn occupied_shortcut_keeps_previous_registration() {
    let original = Shortcut {
        modifiers: 7,
        key: 134,
    };
    let occupied = Shortcut {
        modifiers: 7,
        key: 135,
    };
    let mut state = Registration::new(original);
    let first = state.plan(original);
    assert_eq!(
        first,
        Change::Register {
            id: 1,
            modifiers: 7 | NO_REPEAT,
            key: 134
        }
    );
    assert_eq!(state.commit(original, 1, true), None);
    let previous_id = state.id;
    let second = state.plan(occupied);
    assert_eq!(
        second,
        Change::Register {
            id: 2,
            modifiers: 7 | NO_REPEAT,
            key: 135
        }
    );
    // The system refused the registration: nothing changes.
    assert_eq!(state.commit(occupied, 2, false), None);
    assert_eq!(state.hotkey, original);
    assert_eq!(state.id, previous_id);
    // Re-selecting the active shortcut needs no new registration.
    assert_eq!(state.plan(original), Change::Unchanged);
    assert_eq!(state.plan(Shortcut { modifiers: 0, key: 65 }), Change::Refuse);
}

#[test]
fn successful_change_releases_old_id() {
    let mut state = Registration::new(Shortcut::default());
    state.commit(Shortcut::default(), 1, true);
    let choice = Shortcut { modifiers: 2, key: 75 };
    assert_eq!(state.commit(choice, 2, true), Some(1));
    assert_eq!(state.hotkey, choice);
    assert_eq!(state.suspend(), Some(2));
    assert_eq!(state.id, 0);
    assert_eq!(state.suspend(), None);
    // Resuming registers the kept shortcut again under id 1.
    assert_eq!(
        state.plan(choice),
        Change::Register {
            id: 1,
            modifiers: 2 | NO_REPEAT,
            key: 75
        }
    );
}

#[test]
fn launch_decisions() {
    assert_eq!(launch(false, false, false), Launch::Run);
    assert_eq!(launch(false, false, true), Launch::Run);
    assert_eq!(launch(false, true, false), Launch::Exit);
    assert_eq!(launch(true, false, true), Launch::Exit);
    assert_eq!(launch(true, false, false), Launch::Signal { quit: false });
    assert_eq!(launch(true, true, true), Launch::Signal { quit: true });
}

#[test]
fn message_parameter_roundtrip() {
    let key = Shortcut { modifiers: 6, key: 75 };
    assert_eq!(pack(key), (6 << 16) | 75);
    assert_eq!(unpack(pack(key)), key);
    assert_eq!(unpack(0x0003_0070), Shortcut { modifiers: 3, key: 0x70 });
}

#[test]
fn tray_and_hotkey() {
    assert_eq!(tray_command(1), TrayCommand::Open);
    assert_eq!(tray_command(2), TrayCommand::Settings);
    assert_eq!(tray_command(3), TrayCommand::Quit);
    assert_eq!(tray_command(0), TrayCommand::Nothing);
    assert!(hotkey_hides(true, true));
    assert!(!hotkey_hides(true, false));
    assert!(!hotkey_hides(false, true));
}

#[test]
fn only_valid_shortcuts_are_packed() {
    // A key beyond 16 bits could not travel in the message; it is not valid.
    assert!(!Shortcut { modifiers: 2, key: 65601 }.valid());
    for key in [Shortcut { modifiers: 2, key: 65 }, Shortcut { modifiers: 15, key: 222 }, Shortcut { modifiers: 0, key: 135 }] {
        assert!(key.valid());
        assert_eq!(unpack(pack(key)), key);
    }
}

#[test]
fn recording_restores_the_same_shortcut() {
    let k = Shortcut { modifiers: 3, key: 79 };
    let mut state = Registration::new(k);
    if let Change::Register { id, .. } = state.plan(k) {
        state.commit(k, id, true);
    }
    assert_eq!(state.suspend(), Some(1));
    assert_eq!(state.id, 0);
    assert_eq!(state.plan(k), Change::Register { id: 1, modifiers: 3 | 0x4000, key: 79 });
    assert_eq!(state.commit(k, 1, false), None);
    assert_eq!((state.id, state.hotkey), (0, k));
    assert_eq!(state.commit(k, 1, true), None);
    assert_eq!((state.id, state.hotkey), (1, k));
}
