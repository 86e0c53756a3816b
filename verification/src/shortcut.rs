//! Persisted keyboard shortcut: modifier flags plus a Windows virtual-key code,
//! independent of the interface and of the operating system bindings.
use vstd::prelude::*;

use crate::text::{chars_of, decimal, decimal_chars, digit, join, join_chars, string_of, texts};

verus! {

/// Modifier flags, as `RegisterHotKey` numbers them.
pub const ALT: u32 = 1;
pub const CTRL: u32 = 2;
pub const SHIFT: u32 = 4;
pub const WIN: u32 = 8;

#[derive(Clone, Copy, Debug, PartialEq, Eq, Structural)]
pub struct Shortcut {
    pub modifiers: u32,
    pub key: u32,
}

/// Virtual-key codes a shortcut may use: Backspace, Tab, Enter, Pause, Caps Lock,
/// Escape, Space through Down, Insert, Delete, digits, letters, the numeric
/// keypad, F1..F24 and the punctuation keys.
pub open spec fn is_supported_key(key: u32) -> bool {
    ||| key == 8
    ||| key == 9
    ||| key == 13
    ||| key == 19
    ||| key == 20
    ||| key == 27
    ||| (32 <= key <= 40)
    ||| key == 45
    ||| key == 46
    ||| (48 <= key <= 57)
    ||| (65 <= key <= 90)
    ||| (96 <= key <= 111)
    ||| is_function_key(key)
    ||| (186 <= key <= 192)
    ||| (219 <= key <= 222)
}

/// F1..F24.
pub open spec fn is_function_key(key: u32) -> bool {
    112 <= key <= 135
}

pub open spec fn has_flag(modifiers: u32, flag: u32) -> bool {
    modifiers & flag != 0
}

/// A shortcut can be registered: a supported key, no flag beyond Alt, Ctrl, Shift
/// and Win, and Ctrl, Alt or Win held unless the key is a function key.
pub open spec fn is_valid(s: Shortcut) -> bool {
    &&& is_supported_key(s.key)
    &&& s.modifiers < 16
    &&& (has_flag(s.modifiers, CTRL) || has_flag(s.modifiers, ALT) || has_flag(s.modifiers, WIN)
        || is_function_key(s.key))
}

/// Which shortcuts can be registered, key by key: with Ctrl, Alt or Win held
/// (and no flag beyond the four), any digit `0`-`9`, letter `A`-`Z`, numeric
/// keypad key, function key, punctuation key, Backspace, Tab, Enter, Pause,
/// Caps Lock, Escape, Space, Page Up/Down, End, Home, an arrow, Insert or Delete;
/// a function key F1-F24 also with no such modifier; nothing else.
pub proof fn lemma_registrable_shortcuts(s: Shortcut)
    ensures
        is_valid(s) <==> {
            let k = s.key;
            let fkey = 112 <= k <= 135;
            let listed = ('0' as u32 <= k <= '9' as u32) || ('A' as u32 <= k <= 'Z' as u32) || (96
                <= k <= 111) || fkey || k == 8 || k == 9 || k == 13 || k == 19 || k == 20 || k
                == 27 || (32 <= k <= 40) || k == 45 || k == 46 || (186 <= k <= 192) || (219 <= k
                <= 222);
            &&& listed
            &&& s.modifiers & !15u32 == 0
            &&& (s.modifiers & 11u32 != 0 || fkey)
        },
{
    let m = s.modifiers;
    assert(m & !15u32 == 0 <==> m < 16) by (bit_vector);
    assert(m & 11u32 != 0 <==> (m & 2u32 != 0 || m & 1u32 != 0 || m & 8u32 != 0)) by (bit_vector);
}

/// Every digit or letter key with Ctrl, Alt or Win held (and at most the four
/// modifier flags) can be registered.
pub proof fn lemma_alphanumeric_shortcuts(s: Shortcut)
    requires
        ('0' as u32 <= s.key <= '9' as u32) || ('A' as u32 <= s.key <= 'Z' as u32),
        s.modifiers < 16,
        s.modifiers & CTRL != 0 || s.modifiers & ALT != 0 || s.modifiers & WIN != 0,
    ensures
        is_valid(s),
{
    lemma_registrable_shortcuts(s);
    let m = s.modifiers;
    assert(m < 16u32 && (m & 2u32 != 0 || m & 1u32 != 0 || m & 8u32 != 0) ==> (m & !15u32 == 0 && m
        & 11u32 != 0)) by (bit_vector);
}

/// Names of the held modifiers, in the order Ctrl, Alt, Shift, Win.
pub open spec fn modifier_names(modifiers: u32) -> Seq<Seq<char>> {
    (if has_flag(modifiers, CTRL) { seq!["Ctrl"@] } else { seq![] }) + (if has_flag(modifiers, ALT) {
        seq!["Alt"@]
    } else {
        seq![]
    }) + (if has_flag(modifiers, SHIFT) { seq!["Shift"@] } else { seq![] }) + (if has_flag(
        modifiers,
        WIN,
    ) {
        seq!["Win"@]
    } else {
        seq![]
    })
}

/// The printed name of a virtual key.
pub open spec fn key_name(key: u32) -> Seq<char> {
    if (48 <= key <= 57) || (65 <= key <= 90) {
        seq![key as char]
    } else if is_function_key(key) {
        "F"@ + decimal((key - 111) as nat)
    } else if key == 8 {
        "Backspace"@
    } else if key == 9 {
        "Tab"@
    } else if key == 13 {
        "Enter"@
    } else if key == 27 {
        "Escape"@
    } else if key == 32 {
        "Space"@
    } else if key == 33 {
        "Page Up"@
    } else if key == 34 {
        "Page Down"@
    } else if key == 35 {
        "End"@
    } else if key == 36 {
        "Home"@
    } else if key == 37 {
        "Left"@
    } else if key == 38 {
        "Up"@
    } else if key == 39 {
        "Right"@
    } else if key == 40 {
        "Down"@
    } else if key == 45 {
        "Insert"@
    } else if key == 46 {
        "Delete"@
    } else if key == 186 {
        ";"@
    } else if key == 187 {
        "="@
    } else if key == 188 {
        ","@
    } else if key == 189 {
        "-"@
    } else if key == 190 {
        "."@
    } else if key == 191 {
        "/"@
    } else if key == 192 {
        "`"@
    } else if key == 219 {
        "["@
    } else if key == 220 {
        "\\"@
    } else if key == 221 {
        "]"@
    } else if key == 222 {
        "'"@
    } else {
        "Key "@ + decimal(key as nat)
    }
}

/// The label shown for a shortcut, such as "Ctrl + Shift + K".
pub open spec fn label_of(s: Shortcut) -> Seq<char> {
    join(modifier_names(s.modifiers).push(key_name(s.key)), " + "@)
}

impl Default for Shortcut {
    /// Alt + Space.
    fn default() -> (r: Self)
        ensures
            r.modifiers == ALT,
            r.key == 32,
    {
        Shortcut { modifiers: ALT, key: 32 }
    }
}

fn prefixed(prefix: &str, n: u32) -> (r: Vec<char>)
    ensures
        r@ == prefix@ + decimal(n as nat),
{
    let mut r = chars_of(prefix);
    let d = decimal_chars(n);
    crate::text::append(&mut r, d.as_slice());
    r
}

fn key_name_chars(key: u32) -> (r: Vec<char>)
    ensures
        r@ == key_name(key),
{
    if (48 <= key && key <= 57) || (65 <= key && key <= 90) {
        let mut r: Vec<char> = Vec::new();
        let c = (key as u8) as char;
        assert(c == key as char);
        r.push(c);
        assert(r@ =~= seq![key as char]);
        r
    } else if 112 <= key && key <= 135 {
        prefixed("F", key - 111)
    } else if key == 8 {
        chars_of("Backspace")
    } else if key == 9 {
        chars_of("Tab")
    } else if key == 13 {
        chars_of("Enter")
    } else if key == 27 {
        chars_of("Escape")
    } else if key == 32 {
        chars_of("Space")
    } else if key == 33 {
        chars_of("Page Up")
    } else if key == 34 {
        chars_of("Page Down")
    } else if key == 35 {
        chars_of("End")
    } else if key == 36 {
        chars_of("Home")
    } else if key == 37 {
        chars_of("Left")
    } else if key == 38 {
        chars_of("Up")
    } else if key == 39 {
        chars_of("Right")
    } else if key == 40 {
        chars_of("Down")
    } else if key == 45 {
        chars_of("Insert")
    } else if key == 46 {
        chars_of("Delete")
    } else if key == 186 {
        chars_of(";")
    } else if key == 187 {
        chars_of("=")
    } else if key == 188 {
        chars_of(",")
    } else if key == 189 {
        chars_of("-")
    } else if key == 190 {
        chars_of(".")
    } else if key == 191 {
        chars_of("/")
    } else if key == 192 {
        chars_of("`")
    } else if key == 219 {
        chars_of("[")
    } else if key == 220 {
        chars_of("\\")
    } else if key == 221 {
        chars_of("]")
    } else if key == 222 {
        chars_of("'")
    } else {
        prefixed("Key ", key)
    }
}

impl Shortcut {
    /// Whether the shortcut can be registered.
    pub fn valid(self) -> (r: bool)
        ensures
            r == is_valid(self),
    {
        let key = self.key == 8 || self.key == 9 || self.key == 13 || self.key == 19 || self.key
            == 20 || self.key == 27 || (32 <= self.key && self.key <= 40) || self.key == 45
            || self.key == 46 || (48 <= self.key && self.key <= 57) || (65 <= self.key && self.key
            <= 90) || (96 <= self.key && self.key <= 111) || (112 <= self.key && self.key <= 135)
            || (186 <= self.key && self.key <= 192) || (219 <= self.key && self.key <= 222);
        let m = self.modifiers;
        proof {
            assert(m & !15u32 == 0 <==> m < 16) by (bit_vector);
            assert(m & 11u32 != 0 <==> (m & 2u32 != 0 || m & 1u32 != 0 || m & 8u32 != 0))
                by (bit_vector);
        }
        key && m & !15 == 0 && (m & 11 != 0 || (112 <= self.key && self.key <= 135))
    }

    /// Modifier names joined with the key name by " + ".
    pub fn label(self) -> (r: String)
        ensures
            r@ == label_of(self),
    {
        let mut parts: Vec<Vec<char>> = Vec::new();
        let m = self.modifiers;
        if m & CTRL != 0 {
            parts.push(chars_of("Ctrl"));
        }
        assert(texts(parts@) =~= (if has_flag(m, CTRL) { seq!["Ctrl"@] } else { seq![] }));
        let ghost p1 = texts(parts@);
        if m & ALT != 0 {
            parts.push(chars_of("Alt"));
        }
        assert(texts(parts@) =~= p1 + (if has_flag(m, ALT) { seq!["Alt"@] } else { seq![] }));
        let ghost p2 = texts(parts@);
        if m & SHIFT != 0 {
            parts.push(chars_of("Shift"));
        }
        assert(texts(parts@) =~= p2 + (if has_flag(m, SHIFT) { seq!["Shift"@] } else { seq![] }));
        let ghost p3 = texts(parts@);
        if m & WIN != 0 {
            parts.push(chars_of("Win"));
        }
        assert(texts(parts@) =~= p3 + (if has_flag(m, WIN) { seq!["Win"@] } else { seq![] }));
        assert(texts(parts@) =~= modifier_names(m));
        parts.push(key_name_chars(self.key));
        assert(texts(parts@) =~= modifier_names(m).push(key_name(self.key)));
        let sep = chars_of(" + ");
        let joined = join_chars(&parts, sep.as_slice());
        string_of(joined.as_slice())
    }
}

/// A digit character.
pub open spec fn is_digit_char(c: char) -> bool {
    '0' <= c && c <= '9'
}

proof fn lemma_decimal_digits(n: nat)
    ensures
        decimal(n).len() >= 1,
        n >= 10 ==> decimal(n).len() >= 2,
        forall|i: int| 0 <= i < decimal(n).len() ==> is_digit_char(#[trigger] decimal(n)[i]),
    decreases n,
{
    if n >= 10 {
        lemma_decimal_digits(n / 10);
        assert forall|i: int| 0 <= i < decimal(n).len() implies is_digit_char(#[trigger] decimal(n)[i]) by {
            if i < decimal(n / 10).len() {
                assert(decimal(n)[i] == decimal(n / 10)[i]);
            }
        }
    }
}

proof fn lemma_digit_injective(a: nat, b: nat)
    requires
        a < 10,
        b < 10,
        digit(a) == digit(b),
    ensures
        a == b,
{
}

proof fn lemma_decimal_injective(a: nat, b: nat)
    requires
        decimal(a) == decimal(b),
    ensures
        a == b,
    decreases a,
{
    lemma_decimal_digits(a);
    lemma_decimal_digits(b);
    if a >= 10 && b >= 10 {
        assert(decimal(a) == decimal(a / 10).push(digit(a % 10)));
        assert(decimal(b) == decimal(b / 10).push(digit(b % 10)));
        assert(decimal(a).last() == decimal(b).last());
        assert(decimal(a).drop_last() =~= decimal(a / 10));
        assert(decimal(b).drop_last() =~= decimal(b / 10));
        lemma_decimal_injective(a / 10, b / 10);
        assert(decimal(a).last() == digit(a % 10));
        assert(digit(a % 10) == digit(b % 10));
        lemma_digit_injective(a % 10, b % 10);
        assert(a == 10 * (a / 10) + a % 10);
        assert(b == 10 * (b / 10) + b % 10);
    } else if a < 10 && b < 10 {
        assert(decimal(a) == seq![digit(a)]);
        assert(decimal(b) == seq![digit(b)]);
        assert(decimal(a)[0] == digit(a));
        assert(decimal(b)[0] == digit(b));
        assert(digit(a) == digit(b));
        lemma_digit_injective(a, b);
    }
}

/// No key name contains '+'.
proof fn lemma_key_name_plain(key: u32)
    ensures
        key_name(key).len() >= 1,
        forall|i: int| 0 <= i < key_name(key).len() ==> #[trigger] key_name(key)[i] != '+',
{
    reveal_strlit("F");
    reveal_strlit("Key ");
    reveal_strlit("Backspace");
    reveal_strlit("Tab");
    reveal_strlit("Enter");
    reveal_strlit("Escape");
    reveal_strlit("Space");
    reveal_strlit("Page Up");
    reveal_strlit("Page Down");
    reveal_strlit("End");
    reveal_strlit("Home");
    reveal_strlit("Left");
    reveal_strlit("Up");
    reveal_strlit("Right");
    reveal_strlit("Down");
    reveal_strlit("Insert");
    reveal_strlit("Delete");
    reveal_strlit(";");
    reveal_strlit("=");
    reveal_strlit(",");
    reveal_strlit("-");
    reveal_strlit(".");
    reveal_strlit("/");
    reveal_strlit("`");
    reveal_strlit("[");
    reveal_strlit("\\");
    reveal_strlit("]");
    reveal_strlit("'");
    if is_function_key(key) && !((48 <= key <= 57) || (65 <= key <= 90)) {
        lemma_decimal_digits((key - 111) as nat);
        let d = decimal((key - 111) as nat);
        assert forall|i: int| 0 <= i < key_name(key).len() implies #[trigger] key_name(key)[i] != '+' by {
            if i > 0 {
                assert(key_name(key)[i] == d[i - 1]);
            }
        }
    } else {
        lemma_decimal_digits(key as nat);
        let d = decimal(key as nat);
        assert forall|i: int| 0 <= i < key_name(key).len() implies #[trigger] key_name(key)[i] != '+' by {
            if !((48 <= key <= 57) || (65 <= key <= 90)) && !is_function_key(key) && key_name(key)
                == "Key "@ + d && i >= 4 {
                assert(key_name(key)[i] == d[i - 4]);
            }
        }
    }
}

/// Keys that print as "Key " and their number.
pub open spec fn is_numbered_key(key: u32) -> bool {
    !((48 <= key <= 57) || (65 <= key <= 90)) && !is_function_key(key) && !(key == 8 || key == 9
        || key == 13 || key == 27 || (32 <= key <= 40) || key == 45 || key == 46 || (186 <= key
        <= 192) || (219 <= key <= 222))
}

proof fn lemma_key_name_shape(key: u32)
    ensures
        (48 <= key <= 57) || (65 <= key <= 90) ==> key_name(key) == seq![key as char],
        is_function_key(key) ==> key_name(key) == "F"@ + decimal((key - 111) as nat),
        is_numbered_key(key) ==> key_name(key) == "Key "@ + decimal(key as nat),
{
}

proof fn lemma_named_key_heads(key: u32)
    ensures
        key == 8 ==> key_name(key).len() == 9 && key_name(key)[0] == 'B',
        key == 9 ==> key_name(key).len() == 3 && key_name(key)[0] == 'T',
        key == 13 ==> key_name(key).len() == 5 && key_name(key)[0] == 'E',
        key == 27 ==> key_name(key).len() == 6 && key_name(key)[0] == 'E',
        key == 32 ==> key_name(key).len() == 5 && key_name(key)[0] == 'S',
        key == 33 ==> key_name(key).len() == 7 && key_name(key)[0] == 'P',
        key == 34 ==> key_name(key).len() == 9 && key_name(key)[0] == 'P',
        key == 35 ==> key_name(key).len() == 3 && key_name(key)[0] == 'E',
        key == 36 ==> key_name(key).len() == 4 && key_name(key)[0] == 'H',
        key == 37 ==> key_name(key).len() == 4 && key_name(key)[0] == 'L',
        key == 38 ==> key_name(key).len() == 2 && key_name(key)[0] == 'U',
        key == 39 ==> key_name(key).len() == 5 && key_name(key)[0] == 'R',
        key == 40 ==> key_name(key).len() == 4 && key_name(key)[0] == 'D',
        key == 45 ==> key_name(key).len() == 6 && key_name(key)[0] == 'I',
        key == 46 ==> key_name(key).len() == 6 && key_name(key)[0] == 'D',
        key == 186 ==> key_name(key).len() == 1 && key_name(key)[0] == ';',
        key == 187 ==> key_name(key).len() == 1 && key_name(key)[0] == '=',
        key == 188 ==> key_name(key).len() == 1 && key_name(key)[0] == ',',
        key == 189 ==> key_name(key).len() == 1 && key_name(key)[0] == '-',
        key == 190 ==> key_name(key).len() == 1 && key_name(key)[0] == '.',
        key == 191 ==> key_name(key).len() == 1 && key_name(key)[0] == '/',
        key == 192 ==> key_name(key).len() == 1 && key_name(key)[0] == '`',
        key == 219 ==> key_name(key).len() == 1 && key_name(key)[0] == '[',
        key == 220 ==> key_name(key).len() == 1 && key_name(key)[0] == '\\',
        key == 221 ==> key_name(key).len() == 1 && key_name(key)[0] == ']',
        key == 222 ==> key_name(key).len() == 1 && key_name(key)[0] == '\'',
{
    reveal_strlit("Backspace");
    reveal_strlit("Tab");
    reveal_strlit("Enter");
    reveal_strlit("Escape");
    reveal_strlit("Space");
    reveal_strlit("Page Up");
    reveal_strlit("Page Down");
    reveal_strlit("End");
    reveal_strlit("Home");
    reveal_strlit("Left");
    reveal_strlit("Up");
    reveal_strlit("Right");
    reveal_strlit("Down");
    reveal_strlit("Insert");
    reveal_strlit("Delete");
    reveal_strlit(";");
    reveal_strlit("=");
    reveal_strlit(",");
    reveal_strlit("-");
    reveal_strlit(".");
    reveal_strlit("/");
    reveal_strlit("`");
    reveal_strlit("[");
    reveal_strlit("\\");
    reveal_strlit("]");
    reveal_strlit("'");
}

/// Different keys print differently.
proof fn lemma_key_name_injective(a: u32, b: u32)
    requires
        key_name(a) == key_name(b),
    ensures
        a == b,
{
    reveal_strlit("F");
    reveal_strlit("Key ");
    reveal_strlit("Backspace");
    reveal_strlit("Tab");
    reveal_strlit("Enter");
    reveal_strlit("Escape");
    reveal_strlit("Space");
    reveal_strlit("Page Up");
    reveal_strlit("Page Down");
    reveal_strlit("End");
    reveal_strlit("Home");
    reveal_strlit("Left");
    reveal_strlit("Up");
    reveal_strlit("Right");
    reveal_strlit("Down");
    reveal_strlit("Insert");
    reveal_strlit("Delete");
    reveal_strlit(";");
    reveal_strlit("=");
    reveal_strlit(",");
    reveal_strlit("-");
    reveal_strlit(".");
    reveal_strlit("/");
    reveal_strlit("`");
    reveal_strlit("[");
    reveal_strlit("\\");
    reveal_strlit("]");
    reveal_strlit("'");
    lemma_key_name_shape(a);
    lemma_key_name_shape(b);
    let n = key_name(a);
    if is_function_key(a) {
        lemma_decimal_digits((a - 111) as nat);
    }
    if is_function_key(b) {
        lemma_decimal_digits((b - 111) as nat);
    }
    if is_numbered_key(a) {
        lemma_decimal_digits(a as nat);
    }
    if is_numbered_key(b) {
        lemma_decimal_digits(b as nat);
    }
    if is_function_key(a) && is_function_key(b) {
        assert(n.skip(1) =~= decimal((a - 111) as nat));
        assert(key_name(b).skip(1) =~= decimal((b - 111) as nat));
        lemma_decimal_injective((a - 111) as nat, (b - 111) as nat);
    } else if is_numbered_key(a) && is_numbered_key(b) {
        assert(n.skip(4) =~= decimal(a as nat));
        assert(key_name(b).skip(4) =~= decimal(b as nat));
        lemma_decimal_injective(a as nat, b as nat);
    } else if ((48 <= a <= 57) || (65 <= a <= 90)) && ((48 <= b <= 57) || (65 <= b <= 90)) {
        assert(n[0] == a as char);
        assert(key_name(b)[0] == b as char);
        assert(a == b);
    } else {
        assert(n[0] == key_name(b)[0]);
        assert(n.len() == key_name(b).len());
        if n.len() > 1 {
            assert(n[1] == key_name(b)[1]);
        }
        lemma_named_key_heads(a);
        lemma_named_key_heads(b);
        if (48 <= a <= 57) || (65 <= a <= 90) {
            assert((a as char) as u32 == a);
        }
        if (48 <= b <= 57) || (65 <= b <= 90) {
            assert((b as char) as u32 == b);
        }
        if is_function_key(a) {
            assert(key_name(a)[0] == 'F');
        }
        if is_function_key(b) {
            assert(key_name(b)[0] == 'F');
        }
        if is_numbered_key(a) {
            assert(key_name(a)[0] == 'K');
        }
        if is_numbered_key(b) {
            assert(key_name(b)[0] == 'K');
        }
    }
}

/// No '+' in the text.
pub open spec fn no_plus(t: Seq<char>) -> bool {
    forall|i: int| 0 <= i < t.len() ==> t[i] != '+'
}

/// Each part followed by the separator.
pub open spec fn seps(parts: Seq<Seq<char>>, sep: Seq<char>) -> Seq<char>
    decreases parts.len(),
{
    if parts.len() == 0 {
        seq![]
    } else {
        seps(parts.drop_last(), sep) + parts.last() + sep
    }
}

/// Empty, or ending in " + ".
pub open spec fn ends_with_separator(p: Seq<char>) -> bool {
    p.len() == 0 || (p.len() >= 3 && p[p.len() - 3] == ' ' && p[p.len() - 2] == '+' && p[p.len() - 1]
        == ' ')
}

proof fn lemma_join_push(parts: Seq<Seq<char>>, last: Seq<char>, sep: Seq<char>)
    ensures
        join(parts.push(last), sep) == seps(parts, sep) + last,
    decreases parts.len(),
{
    if parts.len() == 0 {
        assert(parts.push(last).len() == 1);
        assert(seps(parts, sep) + last =~= last);
    } else {
        let front = parts.drop_last();
        assert(parts.push(last).drop_last() =~= parts);
        assert(front.push(parts.last()) =~= parts);
        lemma_join_push(front, parts.last(), sep);
        assert(join(parts.push(last), sep) =~= seps(parts, sep) + last);
    }
}

proof fn lemma_seps_shape(parts: Seq<Seq<char>>)
    ensures
        ends_with_separator(seps(parts, " + "@)),
        parts.len() > 0 ==> seps(parts, " + "@).len() >= 3,
{
    reveal_strlit(" + ");
    if parts.len() > 0 {
        let x = seps(parts.drop_last(), " + "@) + parts.last();
        assert(seps(parts, " + "@) == x + " + "@);
    }
}

/// Where a text is a piece ending in " + " (or nothing) followed by a piece
/// without '+', the split is unique.
proof fn lemma_split_unique(p1: Seq<char>, k1: Seq<char>, p2: Seq<char>, k2: Seq<char>)
    requires
        p1 + k1 == p2 + k2,
        ends_with_separator(p1),
        ends_with_separator(p2),
        no_plus(k1),
        no_plus(k2),
    ensures
        p1 == p2,
        k1 == k2,
{
    let l = p1 + k1;
    assert(l.len() == p1.len() + k1.len());
    assert(l.len() == p2.len() + k2.len()) by {
        assert(l == p2 + k2);
    }
    if p1.len() < p2.len() {
        let j = p2.len() - 2;
        assert(l[j] == p2[j]);
        if j >= p1.len() {
            assert(l[j] == k1[j - p1.len()]);
        } else {
            assert(l[p1.len() - 2] == p1[p1.len() - 2]);
            assert(l[p2.len() - 3] == p2[p2.len() - 3]);
        }
    } else if p2.len() < p1.len() {
        let j = p1.len() - 2;
        assert(l[j] == p1[j]);
        if j >= p2.len() {
            assert(l[j] == k2[j - p2.len()]);
        } else {
            assert(l[p2.len() - 2] == p2[p2.len() - 2]);
            assert(l[p1.len() - 3] == p1[p1.len() - 3]);
        }
    }
    assert(p1 =~= l.take(p1.len() as int));
    assert(p2 =~= l.take(p2.len() as int));
    assert(k1 =~= l.skip(p1.len() as int));
    assert(k2 =~= l.skip(p2.len() as int));
}

proof fn lemma_seps_injective(p: Seq<Seq<char>>, q: Seq<Seq<char>>)
    requires
        forall|i: int| 0 <= i < p.len() ==> no_plus(#[trigger] p[i]),
        forall|i: int| 0 <= i < q.len() ==> no_plus(#[trigger] q[i]),
        seps(p, " + "@) == seps(q, " + "@),
    ensures
        p == q,
    decreases p.len(),
{
    reveal_strlit(" + ");
    lemma_seps_shape(p);
    lemma_seps_shape(q);
    if p.len() > 0 && q.len() > 0 {
        let a = seps(p.drop_last(), " + "@);
        let b = seps(q.drop_last(), " + "@);
        let sp = seps(p, " + "@);
        assert(sp == a + p.last() + " + "@);
        assert(sp == b + q.last() + " + "@);
        assert(a + p.last() =~= sp.take(sp.len() - 3));
        assert(b + q.last() =~= sp.take(sp.len() - 3));
        lemma_seps_shape(p.drop_last());
        lemma_seps_shape(q.drop_last());
        assert(no_plus(p.last()));
        assert(no_plus(q.last()));
        lemma_split_unique(a, p.last(), b, q.last());
        lemma_seps_injective(p.drop_last(), q.drop_last());
        assert(p =~= p.drop_last().push(p.last()));
        assert(q =~= q.drop_last().push(q.last()));
    } else if p.len() == 0 && q.len() == 0 {
        assert(p =~= q);
    }
}

proof fn lemma_modifier_names_plain(m: u32)
    ensures
        forall|i: int| 0 <= i < modifier_names(m).len() ==> no_plus(#[trigger] modifier_names(m)[i]),
{
    reveal_strlit("Ctrl");
    reveal_strlit("Alt");
    reveal_strlit("Shift");
    reveal_strlit("Win");
    let n = modifier_names(m);
    assert forall|i: int| 0 <= i < n.len() implies no_plus(#[trigger] n[i]) by {
        assert(n[i] == "Ctrl"@ || n[i] == "Alt"@ || n[i] == "Shift"@ || n[i] == "Win"@);
    }
}

proof fn lemma_modifier_names_injective(m1: u32, m2: u32)
    requires
        m1 < 16,
        m2 < 16,
        modifier_names(m1) == modifier_names(m2),
    ensures
        m1 == m2,
{
    reveal_strlit("Ctrl");
    reveal_strlit("Alt");
    reveal_strlit("Shift");
    reveal_strlit("Win");
    let n = modifier_names(m1);
    assert(has_flag(m1, CTRL) == has_flag(m2, CTRL)) by {
        if has_flag(m1, CTRL) != has_flag(m2, CTRL) {
            assert(n.len() > 0);
            assert(n[0][0] == 'C' || modifier_names(m2)[0][0] == 'C');
        }
    }
    assert(has_flag(m1, ALT) == has_flag(m2, ALT)) by {
        if has_flag(m1, ALT) != has_flag(m2, ALT) {
            let c: int = if has_flag(m1, CTRL) { 1 } else { 0 };
            assert(n.len() > c);
            assert(n[c][0] == 'A' || modifier_names(m2)[c][0] == 'A');
        }
    }
    assert(has_flag(m1, SHIFT) == has_flag(m2, SHIFT)) by {
        if has_flag(m1, SHIFT) != has_flag(m2, SHIFT) {
            let c: int = (if has_flag(m1, CTRL) { 1int } else { 0int }) + (if has_flag(m1, ALT) { 1int } else { 0int });
            assert(n.len() > c);
            assert(n[c][0] == 'S' || modifier_names(m2)[c][0] == 'S');
        }
    }
    assert(has_flag(m1, WIN) == has_flag(m2, WIN)) by {
        if has_flag(m1, WIN) != has_flag(m2, WIN) {
            assert(n.len() != modifier_names(m2).len());
        }
    }
    assert(m1 == m2) by (bit_vector)
        requires
            m1 < 16,
            m2 < 16,
            (m1 & 2 != 0) == (m2 & 2 != 0),
            (m1 & 1 != 0) == (m2 & 1 != 0),
            (m1 & 4 != 0) == (m2 & 4 != 0),
            (m1 & 8 != 0) == (m2 & 8 != 0),
    ;
}

/// The label determines the shortcut: two shortcuts without flags beyond Alt,
/// Ctrl, Shift and Win that print alike are the same shortcut.
pub proof fn lemma_label_determines_shortcut(a: Shortcut, b: Shortcut)
    requires
        a.modifiers < 16,
        b.modifiers < 16,
        label_of(a) == label_of(b),
    ensures
        a == b,
{
    let na = modifier_names(a.modifiers);
    let nb = modifier_names(b.modifiers);
    lemma_join_push(na, key_name(a.key), " + "@);
    lemma_join_push(nb, key_name(b.key), " + "@);
    lemma_seps_shape(na);
    lemma_seps_shape(nb);
    lemma_key_name_plain(a.key);
    lemma_key_name_plain(b.key);
    lemma_split_unique(seps(na, " + "@), key_name(a.key), seps(nb, " + "@), key_name(b.key));
    lemma_modifier_names_plain(a.modifiers);
    lemma_modifier_names_plain(b.modifiers);
    lemma_seps_injective(na, nb);
    lemma_modifier_names_injective(a.modifiers, b.modifiers);
    lemma_key_name_injective(a.key, b.key);
}

/// Digit and letter keys print as their character, function keys as `F` and
/// their number 1 to 24, and a key's label ends with its name after any held
/// modifiers, Ctrl, Alt, Shift and Win in that order, each followed by " + ".
pub proof fn lemma_key_labels(s: Shortcut)
    ensures
        ('0' as u32 <= s.key <= '9' as u32) || ('A' as u32 <= s.key <= 'Z' as u32) ==> key_name(s.key)
            == seq![s.key as char],
        112 <= s.key <= 135 ==> key_name(s.key) == "F"@ + decimal((s.key - 111) as nat),
        label_of(s) == (if s.modifiers & CTRL != 0 { "Ctrl + "@ } else { seq![] }) + (if s.modifiers
            & ALT != 0 { "Alt + "@ } else { seq![] }) + (if s.modifiers & SHIFT != 0 {
            "Shift + "@
        } else {
            seq![]
        }) + (if s.modifiers & WIN != 0 { "Win + "@ } else { seq![] }) + key_name(s.key),
{
    reveal_strlit(" + ");
    reveal_strlit("Ctrl");
    reveal_strlit("Alt");
    reveal_strlit("Shift");
    reveal_strlit("Win");
    reveal_strlit("Ctrl + ");
    reveal_strlit("Alt + ");
    reveal_strlit("Shift + ");
    reveal_strlit("Win + ");
    let names = modifier_names(s.modifiers);
    lemma_join_push(names, key_name(s.key), " + "@);
    let c = if s.modifiers & CTRL != 0 { seq!["Ctrl"@] } else { Seq::<Seq<char>>::empty() };
    let a = if s.modifiers & ALT != 0 { seq!["Alt"@] } else { Seq::<Seq<char>>::empty() };
    let h = if s.modifiers & SHIFT != 0 { seq!["Shift"@] } else { Seq::<Seq<char>>::empty() };
    let w = if s.modifiers & WIN != 0 { seq!["Win"@] } else { Seq::<Seq<char>>::empty() };
    assert(names == c + a + h + w);
    lemma_seps_concat(c + a + h, w);
    lemma_seps_concat(c + a, h);
    lemma_seps_concat(c, a);
    lemma_seps_single(c);
    lemma_seps_single(a);
    lemma_seps_single(h);
    lemma_seps_single(w);
    assert("Ctrl"@ + " + "@ =~= "Ctrl + "@);
    assert("Alt"@ + " + "@ =~= "Alt + "@);
    assert("Shift"@ + " + "@ =~= "Shift + "@);
    assert("Win"@ + " + "@ =~= "Win + "@);
}

proof fn lemma_seps_concat(p: Seq<Seq<char>>, q: Seq<Seq<char>>)
    ensures
        seps(p + q, " + "@) == seps(p, " + "@) + seps(q, " + "@),
    decreases q.len(),
{
    if q.len() == 0 {
        assert(p + q =~= p);
        assert(seps(p, " + "@) + seps(q, " + "@) =~= seps(p, " + "@));
    } else {
        assert((p + q).drop_last() =~= p + q.drop_last());
        assert((p + q).last() == q.last());
        lemma_seps_concat(p, q.drop_last());
        assert(seps(p + q, " + "@) =~= seps(p, " + "@) + seps(q, " + "@));
    }
}

proof fn lemma_seps_single(p: Seq<Seq<char>>)
    requires
        p.len() <= 1,
    ensures
        p.len() == 1 ==> seps(p, " + "@) == p[0] + " + "@,
        p.len() == 0 ==> seps(p, " + "@) == Seq::<char>::empty(),
{
    if p.len() == 1 {
        assert(p.drop_last() =~= Seq::<Seq<char>>::empty());
        assert(seps(p.drop_last(), " + "@) == Seq::<char>::empty());
        assert(p.last() == p[0]);
        assert(seps(p, " + "@) == seps(p.drop_last(), " + "@) + p.last() + " + "@);
        assert(seps(p, " + "@) =~= p[0] + " + "@);
    }
}

} // verus!
