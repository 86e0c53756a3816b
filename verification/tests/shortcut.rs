use serde::ser::SerializeStruct;
use opencast::shortcut::Shortcut;

#[test]
fn validates_custom_combinations() {
    assert!(Shortcut::default().valid());
    assert!(
        Shortcut {
            modifiers: 6,
            key: 75
        }
        .valid()
    );
    assert!(
        Shortcut {
            modifiers: 0,
            key: 119
        }
        .valid()
    );
    assert!(
        !Shortcut {
            modifiers: 0,
            key: 65
        }
        .valid()
    );
    assert!(
        !Shortcut {
            modifiers: 4,
            key: 65
        }
        .valid()
    );
    assert!(
        !Shortcut {
            modifiers: 1,
            key: 0
        }
        .valid()
    );
    assert!(
        !Shortcut {
            modifiers: 32,
            key: 65
        }
        .valid()
    );
}

/// The saved form of a shortcut, written field by field as the derived
/// `Serialize` of the configuration record writes it.
struct Saved(Shortcut);

impl serde::Serialize for Saved {
    fn serialize<S: serde::Serializer>(&self, serializer: S) -> Result<S::Ok, S::Error> {
        let mut record = serializer.serialize_struct("ShortcutFile", 2)?;
        record.serialize_field("modifiers", &self.0.modifiers)?;
        record.serialize_field("key", &self.0.key)?;
        record.end()
    }
}

fn to_json(key: Shortcut) -> String {
    serde_json::to_string(&Saved(key)).unwrap()
}

fn from_json(text: &str) -> Shortcut {
    let fields: std::collections::BTreeMap<String, u32> = serde_json::from_str(text).unwrap();
    Shortcut {
        modifiers: fields["modifiers"],
        key: fields["key"],
    }
}

#[test]
fn labels_and_roundtrips() {
    let key = Shortcut {
        modifiers: 6,
        key: 75,
    };
    assert_eq!(key.label(), "Ctrl + Shift + K");
    assert_eq!(from_json(&to_json(key)), key);
    assert_eq!(to_json(key), r#"{"modifiers":6,"key":75}"#);
    let restored = from_json(&to_json(key));
    assert!(restored.valid());
    assert_eq!(restored.label(), key.label());
}

#[test]
fn labels_of_named_and_numbered_keys() {
    assert_eq!(Shortcut::default().label(), "Alt + Space");
    assert_eq!(Shortcut { modifiers: 0, key: 119 }.label(), "F8");
    assert_eq!(Shortcut { modifiers: 15, key: 48 }.label(), "Ctrl + Alt + Shift + Win + 0");
    assert_eq!(Shortcut { modifiers: 2, key: 300 }.label(), "Ctrl + Key 300");
    assert_eq!(Shortcut { modifiers: 8, key: 220 }.label(), "Win + \\");
    assert_eq!(Shortcut { modifiers: 1, key: 135 }.label(), "Alt + F24");
    assert_eq!(Shortcut { modifiers: 2, key: 33 }.label(), "Ctrl + Page Up");
}

#[test]
fn validity_edges() {
    // Function keys need no modifier; Shift alone is not enough for other keys.
    assert!(Shortcut { modifiers: 0, key: 112 }.valid());
    assert!(Shortcut { modifiers: 4, key: 135 }.valid());
    assert!(!Shortcut { modifiers: 0, key: 136 }.valid());
    assert!(Shortcut { modifiers: 8, key: 222 }.valid());
    assert!(!Shortcut { modifiers: 2, key: 41 }.valid());
    assert!(!Shortcut { modifiers: 16 | 2, key: 65 }.valid());
}

#[test]
fn labels_tell_shortcuts_apart() {
    let mut seen = std::collections::HashMap::new();
    for modifiers in 0..16u32 {
        for key in 0..300u32 {
            let shortcut = Shortcut { modifiers, key };
            if let Some(other) = seen.insert(shortcut.label(), shortcut) {
                panic!("{:?} and {:?} print alike", other, shortcut);
            }
        }
    }
    assert_eq!(Shortcut { modifiers: 0, key: 19 }.label(), "Key 19");
    assert_eq!(Shortcut { modifiers: 9, key: 112 }.label(), "Alt + Win + F1");
}
