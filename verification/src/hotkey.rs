//! Global hotkey bindings: parsing "Alt+`"-style strings, matching them
//! against the set of held keys, and the push-to-talk listener logic.
use vstd::prelude::*;
use crate::text::{
    chars_are, chars_of, skip_ws_backward, skip_ws_forward, lowercase, split_on, split_ranges,
    string_from_range, to_lowercase, trim,
};

verus! {

/// A physical key, following the qwerty layout names of the keyboard hook.
#[derive(Clone, Copy, Debug, PartialEq, Eq, Hash, Structural)]
pub enum Key {
    Alt,
    AltGr,
    Backspace,
    CapsLock,
    ControlLeft,
    ControlRight,
    Delete,
    DownArrow,
    End,
    Escape,
    F1,
    F10,
    F11,
    F12,
    F2,
    F3,
    F4,
    F5,
    F6,
    F7,
    F8,
    F9,
    Home,
    LeftArrow,
    MetaLeft,
    MetaRight,
    PageDown,
    PageUp,
    Return,
    RightArrow,
    ShiftLeft,
    ShiftRight,
    Space,
    Tab,
    UpArrow,
    PrintScreen,
    ScrollLock,
    Pause,
    NumLock,
    BackQuote,
    Num1,
    Num2,
    Num3,
    Num4,
    Num5,
    Num6,
    Num7,
    Num8,
    Num9,
    Num0,
    Minus,
    Equal,
    KeyQ,
    KeyW,
    KeyE,
    KeyR,
    KeyT,
    KeyY,
    KeyU,
    KeyI,
    KeyO,
    KeyP,
    LeftBracket,
    RightBracket,
    KeyA,
    KeyS,
    KeyD,
    KeyF,
    KeyG,
    KeyH,
    KeyJ,
    KeyK,
    KeyL,
    SemiColon,
    Quote,
    BackSlash,
    IntlBackslash,
    KeyZ,
    KeyX,
    KeyC,
    KeyV,
    KeyB,
    KeyN,
    KeyM,
    Comma,
    Dot,
    Slash,
    Insert,
    KpReturn,
    KpMinus,
    KpPlus,
    KpMultiply,
    KpDivide,
    Kp0,
    Kp1,
    Kp2,
    Kp3,
    Kp4,
    Kp5,
    Kp6,
    Kp7,
    Kp8,
    Kp9,
    KpDelete,
    Function,
    Unknown(u32),
}

/// Events emitted by the hotkey listener.
#[derive(Clone, Copy, Debug, PartialEq, Eq, Structural)]
pub enum HotkeyEvent {
    /// Recording started (key combo pressed, push-to-talk).
    RecordStart,
    /// Recording stopped (key combo released).
    RecordStop,
    /// Trigger TTS on selected text.
    TtsTrigger,
    /// Switch inject mode.
    InjectModeSwitch,
    /// Switch ASR engine.
    EngineSwitch,
}

/// A finite set of keys without repetition.
pub struct KeySet {
    keys: Vec<Key>,
}

impl View for KeySet {
    type V = Set<Key>;

    closed spec fn view(&self) -> Set<Key> {
        self.keys@.to_set()
    }
}

impl KeySet {
    #[verifier::type_invariant]
    spec fn inv(self) -> bool {
        self.keys@.no_duplicates()
    }

    /// The empty set.
    pub fn new() -> (s: Self)
        ensures
            s@ == Set::<Key>::empty(),
    {
        let s = KeySet { keys: Vec::new() };
        assert(s.keys@.to_set() =~= Set::<Key>::empty());
        s
    }

    /// Whether `k` is in the set.
    pub fn contains(&self, k: &Key) -> (r: bool)
        ensures
            r == self@.contains(*k),
    {
        let mut i: usize = 0;
        while i < self.keys.len()
            invariant
                0 <= i <= self.keys.len(),
                forall|j: int| 0 <= j < i ==> self.keys@[j] != *k,
            decreases self.keys.len() - i,
        {
            if self.keys[i] == *k {
                assert(self.keys@.to_set().contains(self.keys@[i as int]));
                return true;
            }
            i = i + 1;
        }
        assert(!self.keys@.contains(*k));
        false
    }

    /// Adds `k`; returns whether it was absent.
    pub fn insert(&mut self, k: Key) -> (added: bool)
        ensures
            final(self)@ == old(self)@.insert(k),
            added == !old(self)@.contains(k),
    {
        proof {
            use_type_invariant(&*self);
        }
        if self.contains(&k) {
            assert(self@.insert(k) =~= self@);
            false
        } else {
            let ghost old_keys = self.keys@;
            let mut keys: Vec<Key> = Vec::new();
            std::mem::swap(&mut keys, &mut self.keys);
            keys.push(k);
            proof {
                assert(keys@ == old_keys.push(k));
                assert(!old_keys.contains(k));
                assert(keys@.to_set() =~= old_keys.to_set().insert(k)) by {
                    assert forall|x: Key| keys@.to_set().contains(x) implies old_keys.to_set().insert(
                        k,
                    ).contains(x) by {
                        let i = choose|i: int| 0 <= i < keys@.len() && keys@[i] == x;
                        if i < old_keys.len() {
                            assert(old_keys[i] == x);
                        }
                    }
                    assert forall|x: Key| old_keys.to_set().insert(k).contains(x) implies keys@.to_set().contains(
                        x,
                    ) by {
                        if x == k {
                            assert(keys@[old_keys.len() as int] == k);
                        } else {
                            let i = choose|i: int| 0 <= i < old_keys.len() && old_keys[i] == x;
                            assert(keys@[i] == x);
                        }
                    }
                }
                assert(keys@.no_duplicates()) by {
                    assert forall|i: int, j: int|
                        0 <= i < keys@.len() && 0 <= j < keys@.len() && i != j implies keys@[i]
                        != keys@[j] by {
                        if i < old_keys.len() && j < old_keys.len() {
                        } else if i < old_keys.len() {
                            assert(old_keys.contains(old_keys[i]));
                        } else {
                            assert(old_keys.contains(old_keys[j]));
                        }
                    }
                }
            }
            self.keys = keys;
            true
        }
    }

    /// Removes `k`; returns whether it was present.
    pub fn remove(&mut self, k: &Key) -> (removed: bool)
        ensures
            final(self)@ == old(self)@.remove(*k),
            removed == old(self)@.contains(*k),
    {
        proof {
            use_type_invariant(&*self);
        }
        let ghost old_keys = self.keys@;
        let mut out: Vec<Key> = Vec::new();
        let mut found = false;
        let mut i: usize = 0;
        while i < self.keys.len()
            invariant
                old_keys == self.keys@,
                old_keys.no_duplicates(),
                0 <= i <= self.keys.len(),
                out@.no_duplicates(),
                forall|x: Key| #[trigger]
                    out@.contains(x) <==> (old_keys.take(i as int).contains(x) && x != *k),
                found == old_keys.take(i as int).contains(*k),
            decreases self.keys.len() - i,
        {
            let x = self.keys[i];
            let ghost prev = out@;
            proof {
                assert forall|y: Key| old_keys.take(i + 1).contains(y) == (old_keys.take(
                    i as int,
                ).contains(y) || y == x) by {
                    if y == x {
                        assert(old_keys.take(i + 1)[i as int] == x);
                    }
                    if old_keys.take(i as int).contains(y) {
                        let t = old_keys.take(i as int);
                        let j = choose|j: int| 0 <= j < t.len() && t[j] == y;
                        assert(old_keys.take(i + 1)[j] == y);
                    }
                    if old_keys.take(i + 1).contains(y) {
                        let t = old_keys.take(i + 1);
                        let j = choose|j: int| 0 <= j < t.len() && t[j] == y;
                        if j < i {
                            assert(old_keys.take(i as int)[j] == y);
                        }
                    }
                }
                assert(!old_keys.take(i as int).contains(x)) by {
                    if old_keys.take(i as int).contains(x) {
                        let t = old_keys.take(i as int);
                        let j = choose|j: int| 0 <= j < t.len() && t[j] == x;
                        assert(old_keys[j] == old_keys[i as int]);
                    }
                }
            }
            if x != *k {
                out.push(x);
                proof {
                    assert forall|y: Key| #[trigger] out@.contains(y) <==> (prev.contains(y) || y
                        == x) by {
                        if out@.contains(y) {
                            let j = choose|j: int| 0 <= j < out@.len() && out@[j] == y;
                            if j < prev.len() {
                                assert(prev[j] == y);
                            }
                        }
                        if prev.contains(y) {
                            let j = choose|j: int| 0 <= j < prev.len() && prev[j] == y;
                            assert(out@[j] == y);
                        }
                        if y == x {
                            assert(out@[prev.len() as int] == x);
                        }
                    }
                    assert forall|a: int, b: int|
                        0 <= a < out@.len() && 0 <= b < out@.len() && a != b implies out@[a]
                        != out@[b] by {
                        if a < prev.len() && b < prev.len() {
                        } else if a < prev.len() {
                            assert(prev.contains(prev[a]));
                        } else {
                            assert(prev.contains(prev[b]));
                        }
                    }
                }
            } else {
                found = true;
            }
            i = i + 1;
        }
        proof {
            assert(old_keys.take(old_keys.len() as int) =~= old_keys);
            assert(out@.to_set() =~= old_keys.to_set().remove(*k));
        }
        self.keys = out;
        found
    }

    /// The number of keys.
    pub fn len(&self) -> (n: usize)
        ensures
            n == self@.len(),
    {
        proof {
            use_type_invariant(self);
            self.keys@.unique_seq_to_set();
        }
        self.keys.len()
    }
}

impl Clone for KeySet {
    fn clone(&self) -> (r: Self)
        ensures
            r@ == self@,
    {
        proof {
            use_type_invariant(self);
        }
        let mut keys: Vec<Key> = Vec::new();
        let mut i: usize = 0;
        while i < self.keys.len()
            invariant
                0 <= i <= self.keys.len(),
                keys@ == self.keys@.take(i as int),
            decreases self.keys.len() - i,
        {
            keys.push(self.keys[i]);
            assert(self.keys@.take(i + 1) =~= self.keys@.take(i as int).push(self.keys@[i as int]));
            i = i + 1;
        }
        assert(self.keys@.take(self.keys.len() as int) =~= self.keys@);
        KeySet { keys }
    }
}

/// The key a (lower-case) key name stands for.
pub open spec fn key_named(n: Seq<char>) -> Option<Key> {
    if n == "`"@ || n == "backquote"@ {
        Some(Key::BackQuote)
    } else if n == "-"@ || n == "minus"@ {
        Some(Key::Minus)
    } else if n == "="@ || n == "equal"@ {
        Some(Key::Equal)
    } else if n == "["@ {
        Some(Key::LeftBracket)
    } else if n == "]"@ {
        Some(Key::RightBracket)
    } else if n == "\\"@ || n == "backslash"@ {
        Some(Key::BackSlash)
    } else if n == ";"@ || n == "semicolon"@ {
        Some(Key::SemiColon)
    } else if n == "'"@ || n == "quote"@ {
        Some(Key::Quote)
    } else if n == ","@ || n == "comma"@ {
        Some(Key::Comma)
    } else if n == "."@ || n == "period"@ || n == "dot"@ {
        Some(Key::Dot)
    } else if n == "/"@ || n == "slash"@ {
        Some(Key::Slash)
    } else if n == "space"@ || n == " "@ {
        Some(Key::Space)
    } else if n == "enter"@ || n == "return"@ {
        Some(Key::Return)
    } else if n == "tab"@ {
        Some(Key::Tab)
    } else if n == "backspace"@ {
        Some(Key::Backspace)
    } else if n == "escape"@ || n == "esc"@ {
        Some(Key::Escape)
    } else if n == "delete"@ || n == "del"@ {
        Some(Key::Delete)
    } else if n == "a"@ {
        Some(Key::KeyA)
    } else if n == "b"@ {
        Some(Key::KeyB)
    } else if n == "c"@ {
        Some(Key::KeyC)
    } else if n == "d"@ {
        Some(Key::KeyD)
    } else if n == "e"@ {
        Some(Key::KeyE)
    } else if n == "f"@ {
        Some(Key::KeyF)
    } else if n == "g"@ {
        Some(Key::KeyG)
    } else if n == "h"@ {
        Some(Key::KeyH)
    } else if n == "i"@ {
        Some(Key::KeyI)
    } else if n == "j"@ {
        Some(Key::KeyJ)
    } else if n == "k"@ {
        Some(Key::KeyK)
    } else if n == "l"@ {
        Some(Key::KeyL)
    } else if n == "m"@ {
        Some(Key::KeyM)
    } else if n == "n"@ {
        Some(Key::KeyN)
    } else if n == "o"@ {
        Some(Key::KeyO)
    } else if n == "p"@ {
        Some(Key::KeyP)
    } else if n == "q"@ {
        Some(Key::KeyQ)
    } else if n == "r"@ {
        Some(Key::KeyR)
    } else if n == "s"@ {
        Some(Key::KeyS)
    } else if n == "t"@ {
        Some(Key::KeyT)
    } else if n == "u"@ {
        Some(Key::KeyU)
    } else if n == "v"@ {
        Some(Key::KeyV)
    } else if n == "w"@ {
        Some(Key::KeyW)
    } else if n == "x"@ {
        Some(Key::KeyX)
    } else if n == "y"@ {
        Some(Key::KeyY)
    } else if n == "z"@ {
        Some(Key::KeyZ)
    } else if n == "0"@ {
        Some(Key::Num0)
    } else if n == "1"@ {
        Some(Key::Num1)
    } else if n == "2"@ {
        Some(Key::Num2)
    } else if n == "3"@ {
        Some(Key::Num3)
    } else if n == "4"@ {
        Some(Key::Num4)
    } else if n == "5"@ {
        Some(Key::Num5)
    } else if n == "6"@ {
        Some(Key::Num6)
    } else if n == "7"@ {
        Some(Key::Num7)
    } else if n == "8"@ {
        Some(Key::Num8)
    } else if n == "9"@ {
        Some(Key::Num9)
    } else if n == "f1"@ {
        Some(Key::F1)
    } else if n == "f2"@ {
        Some(Key::F2)
    } else if n == "f3"@ {
        Some(Key::F3)
    } else if n == "f4"@ {
        Some(Key::F4)
    } else if n == "f5"@ {
        Some(Key::F5)
    } else if n == "f6"@ {
        Some(Key::F6)
    } else if n == "f7"@ {
        Some(Key::F7)
    } else if n == "f8"@ {
        Some(Key::F8)
    } else if n == "f9"@ {
        Some(Key::F9)
    } else if n == "f10"@ {
        Some(Key::F10)
    } else if n == "f11"@ {
        Some(Key::F11)
    } else if n == "f12"@ {
        Some(Key::F12)
    } else {
        None
    }
}

/// The characters of each key name of the table.
proof fn lemma_key_name_literals()
    ensures
        "`"@.len() == 1,
        "`"@[0] == '`',
        "backquote"@.len() == 9,
        "backquote"@[0] == 'b',
        "backquote"@[1] == 'a',
        "backquote"@[2] == 'c',
        "backquote"@[3] == 'k',
        "backquote"@[4] == 'q',
        "backquote"@[5] == 'u',
        "backquote"@[6] == 'o',
        "backquote"@[7] == 't',
        "backquote"@[8] == 'e',
        "-"@.len() == 1,
        "-"@[0] == '-',
        "minus"@.len() == 5,
        "minus"@[0] == 'm',
        "minus"@[1] == 'i',
        "minus"@[2] == 'n',
        "minus"@[3] == 'u',
        "minus"@[4] == 's',
        "="@.len() == 1,
        "="@[0] == '=',
        "equal"@.len() == 5,
        "equal"@[0] == 'e',
        "equal"@[1] == 'q',
        "equal"@[2] == 'u',
        "equal"@[3] == 'a',
        "equal"@[4] == 'l',
        "["@.len() == 1,
        "["@[0] == '[',
        "]"@.len() == 1,
        "]"@[0] == ']',
        "\\"@.len() == 1,
        "\\"@[0] == '\\',
        "backslash"@.len() == 9,
        "backslash"@[0] == 'b',
        "backslash"@[1] == 'a',
        "backslash"@[2] == 'c',
        "backslash"@[3] == 'k',
        "backslash"@[4] == 's',
        "backslash"@[5] == 'l',
        "backslash"@[6] == 'a',
        "backslash"@[7] == 's',
        "backslash"@[8] == 'h',
        ";"@.len() == 1,
        ";"@[0] == ';',
        "semicolon"@.len() == 9,
        "semicolon"@[0] == 's',
        "semicolon"@[1] == 'e',
        "semicolon"@[2] == 'm',
        "semicolon"@[3] == 'i',
        "semicolon"@[4] == 'c',
        "semicolon"@[5] == 'o',
        "semicolon"@[6] == 'l',
        "semicolon"@[7] == 'o',
        "semicolon"@[8] == 'n',
        "'"@.len() == 1,
        "'"@[0] == '\'',
        "quote"@.len() == 5,
        "quote"@[0] == 'q',
        "quote"@[1] == 'u',
        "quote"@[2] == 'o',
        "quote"@[3] == 't',
        "quote"@[4] == 'e',
        ","@.len() == 1,
        ","@[0] == ',',
        "comma"@.len() == 5,
        "comma"@[0] == 'c',
        "comma"@[1] == 'o',
        "comma"@[2] == 'm',
        "comma"@[3] == 'm',
        "comma"@[4] == 'a',
        "."@.len() == 1,
        "."@[0] == '.',
        "period"@.len() == 6,
        "period"@[0] == 'p',
        "period"@[1] == 'e',
        "period"@[2] == 'r',
        "period"@[3] == 'i',
        "period"@[4] == 'o',
        "period"@[5] == 'd',
        "dot"@.len() == 3,
        "dot"@[0] == 'd',
        "dot"@[1] == 'o',
        "dot"@[2] == 't',
        "/"@.len() == 1,
        "/"@[0] == '/',
        "slash"@.len() == 5,
        "slash"@[0] == 's',
        "slash"@[1] == 'l',
        "slash"@[2] == 'a',
        "slash"@[3] == 's',
        "slash"@[4] == 'h',
        "space"@.len() == 5,
        "space"@[0] == 's',
        "space"@[1] == 'p',
        "space"@[2] == 'a',
        "space"@[3] == 'c',
        "space"@[4] == 'e',
        " "@.len() == 1,
        " "@[0] == ' ',
        "enter"@.len() == 5,
        "enter"@[0] == 'e',
        "enter"@[1] == 'n',
        "enter"@[2] == 't',
        "enter"@[3] == 'e',
        "enter"@[4] == 'r',
        "return"@.len() == 6,
        "return"@[0] == 'r',
        "return"@[1] == 'e',
        "return"@[2] == 't',
        "return"@[3] == 'u',
        "return"@[4] == 'r',
        "return"@[5] == 'n',
        "tab"@.len() == 3,
        "tab"@[0] == 't',
        "tab"@[1] == 'a',
        "tab"@[2] == 'b',
        "backspace"@.len() == 9,
        "backspace"@[0] == 'b',
        "backspace"@[1] == 'a',
        "backspace"@[2] == 'c',
        "backspace"@[3] == 'k',
        "backspace"@[4] == 's',
        "backspace"@[5] == 'p',
        "backspace"@[6] == 'a',
        "backspace"@[7] == 'c',
        "backspace"@[8] == 'e',
        "escape"@.len() == 6,
        "escape"@[0] == 'e',
        "escape"@[1] == 's',
        "escape"@[2] == 'c',
        "escape"@[3] == 'a',
        "escape"@[4] == 'p',
        "escape"@[5] == 'e',
        "esc"@.len() == 3,
        "esc"@[0] == 'e',
        "esc"@[1] == 's',
        "esc"@[2] == 'c',
        "delete"@.len() == 6,
        "delete"@[0] == 'd',
        "delete"@[1] == 'e',
        "delete"@[2] == 'l',
        "delete"@[3] == 'e',
        "delete"@[4] == 't',
        "delete"@[5] == 'e',
        "del"@.len() == 3,
        "del"@[0] == 'd',
        "del"@[1] == 'e',
        "del"@[2] == 'l',
        "a"@.len() == 1,
        "a"@[0] == 'a',
        "b"@.len() == 1,
        "b"@[0] == 'b',
        "c"@.len() == 1,
        "c"@[0] == 'c',
        "d"@.len() == 1,
        "d"@[0] == 'd',
        "e"@.len() == 1,
        "e"@[0] == 'e',
        "f"@.len() == 1,
        "f"@[0] == 'f',
        "g"@.len() == 1,
        "g"@[0] == 'g',
        "h"@.len() == 1,
        "h"@[0] == 'h',
        "i"@.len() == 1,
        "i"@[0] == 'i',
        "j"@.len() == 1,
        "j"@[0] == 'j',
        "k"@.len() == 1,
        "k"@[0] == 'k',
        "l"@.len() == 1,
        "l"@[0] == 'l',
        "m"@.len() == 1,
        "m"@[0] == 'm',
        "n"@.len() == 1,
        "n"@[0] == 'n',
        "o"@.len() == 1,
        "o"@[0] == 'o',
        "p"@.len() == 1,
        "p"@[0] == 'p',
        "q"@.len() == 1,
        "q"@[0] == 'q',
        "r"@.len() == 1,
        "r"@[0] == 'r',
        "s"@.len() == 1,
        "s"@[0] == 's',
        "t"@.len() == 1,
        "t"@[0] == 't',
        "u"@.len() == 1,
        "u"@[0] == 'u',
        "v"@.len() == 1,
        "v"@[0] == 'v',
        "w"@.len() == 1,
        "w"@[0] == 'w',
        "x"@.len() == 1,
        "x"@[0] == 'x',
        "y"@.len() == 1,
        "y"@[0] == 'y',
        "z"@.len() == 1,
        "z"@[0] == 'z',
        "0"@.len() == 1,
        "0"@[0] == '0',
        "1"@.len() == 1,
        "1"@[0] == '1',
        "2"@.len() == 1,
        "2"@[0] == '2',
        "3"@.len() == 1,
        "3"@[0] == '3',
        "4"@.len() == 1,
        "4"@[0] == '4',
        "5"@.len() == 1,
        "5"@[0] == '5',
        "6"@.len() == 1,
        "6"@[0] == '6',
        "7"@.len() == 1,
        "7"@[0] == '7',
        "8"@.len() == 1,
        "8"@[0] == '8',
        "9"@.len() == 1,
        "9"@[0] == '9',
        "f1"@.len() == 2,
        "f1"@[0] == 'f',
        "f1"@[1] == '1',
        "f2"@.len() == 2,
        "f2"@[0] == 'f',
        "f2"@[1] == '2',
        "f3"@.len() == 2,
        "f3"@[0] == 'f',
        "f3"@[1] == '3',
        "f4"@.len() == 2,
        "f4"@[0] == 'f',
        "f4"@[1] == '4',
        "f5"@.len() == 2,
        "f5"@[0] == 'f',
        "f5"@[1] == '5',
        "f6"@.len() == 2,
        "f6"@[0] == 'f',
        "f6"@[1] == '6',
        "f7"@.len() == 2,
        "f7"@[0] == 'f',
        "f7"@[1] == '7',
        "f8"@.len() == 2,
        "f8"@[0] == 'f',
        "f8"@[1] == '8',
        "f9"@.len() == 2,
        "f9"@[0] == 'f',
        "f9"@[1] == '9',
        "f10"@.len() == 3,
        "f10"@[0] == 'f',
        "f10"@[1] == '1',
        "f10"@[2] == '0',
        "f11"@.len() == 3,
        "f11"@[0] == 'f',
        "f11"@[1] == '1',
        "f11"@[2] == '1',
        "f12"@.len() == 3,
        "f12"@[0] == 'f',
        "f12"@[1] == '1',
        "f12"@[2] == '2',
{
    reveal_strlit("`");
    reveal_strlit("backquote");
    reveal_strlit("-");
    reveal_strlit("minus");
    reveal_strlit("=");
    reveal_strlit("equal");
    reveal_strlit("[");
    reveal_strlit("]");
    reveal_strlit("\\");
    reveal_strlit("backslash");
    reveal_strlit(";");
    reveal_strlit("semicolon");
    reveal_strlit("'");
    reveal_strlit("quote");
    reveal_strlit(",");
    reveal_strlit("comma");
    reveal_strlit(".");
    reveal_strlit("period");
    reveal_strlit("dot");
    reveal_strlit("/");
    reveal_strlit("slash");
    reveal_strlit("space");
    reveal_strlit(" ");
    reveal_strlit("enter");
    reveal_strlit("return");
    reveal_strlit("tab");
    reveal_strlit("backspace");
    reveal_strlit("escape");
    reveal_strlit("esc");
    reveal_strlit("delete");
    reveal_strlit("del");
    reveal_strlit("a");
    reveal_strlit("b");
    reveal_strlit("c");
    reveal_strlit("d");
    reveal_strlit("e");
    reveal_strlit("f");
    reveal_strlit("g");
    reveal_strlit("h");
    reveal_strlit("i");
    reveal_strlit("j");
    reveal_strlit("k");
    reveal_strlit("l");
    reveal_strlit("m");
    reveal_strlit("n");
    reveal_strlit("o");
    reveal_strlit("p");
    reveal_strlit("q");
    reveal_strlit("r");
    reveal_strlit("s");
    reveal_strlit("t");
    reveal_strlit("u");
    reveal_strlit("v");
    reveal_strlit("w");
    reveal_strlit("x");
    reveal_strlit("y");
    reveal_strlit("z");
    reveal_strlit("0");
    reveal_strlit("1");
    reveal_strlit("2");
    reveal_strlit("3");
    reveal_strlit("4");
    reveal_strlit("5");
    reveal_strlit("6");
    reveal_strlit("7");
    reveal_strlit("8");
    reveal_strlit("9");
    reveal_strlit("f1");
    reveal_strlit("f2");
    reveal_strlit("f3");
    reveal_strlit("f4");
    reveal_strlit("f5");
    reveal_strlit("f6");
    reveal_strlit("f7");
    reveal_strlit("f8");
    reveal_strlit("f9");
    reveal_strlit("f10");
    reveal_strlit("f11");
    reveal_strlit("f12");
}

/// Key-name law (punctuation and editing keys): each documented name stands for the key of
/// that name on the keyboard hook.
pub proof fn lemma_key_names_named()
    ensures
        key_named("`"@) == Some(Key::BackQuote),
        key_named("backquote"@) == Some(Key::BackQuote),
        key_named("-"@) == Some(Key::Minus),
        key_named("minus"@) == Some(Key::Minus),
        key_named("="@) == Some(Key::Equal),
        key_named("equal"@) == Some(Key::Equal),
        key_named("["@) == Some(Key::LeftBracket),
        key_named("]"@) == Some(Key::RightBracket),
        key_named("\\"@) == Some(Key::BackSlash),
        key_named("backslash"@) == Some(Key::BackSlash),
        key_named(";"@) == Some(Key::SemiColon),
        key_named("semicolon"@) == Some(Key::SemiColon),
        key_named("'"@) == Some(Key::Quote),
        key_named("quote"@) == Some(Key::Quote),
        key_named(","@) == Some(Key::Comma),
        key_named("comma"@) == Some(Key::Comma),
        key_named("."@) == Some(Key::Dot),
        key_named("period"@) == Some(Key::Dot),
        key_named("dot"@) == Some(Key::Dot),
        key_named("/"@) == Some(Key::Slash),
        key_named("slash"@) == Some(Key::Slash),
        key_named("space"@) == Some(Key::Space),
        key_named(" "@) == Some(Key::Space),
        key_named("enter"@) == Some(Key::Return),
        key_named("return"@) == Some(Key::Return),
        key_named("tab"@) == Some(Key::Tab),
        key_named("backspace"@) == Some(Key::Backspace),
{
    lemma_key_name_literals();
}

/// Key-name law (editing and letter keys): each documented name stands for the key of
/// that name on the keyboard hook.
pub proof fn lemma_key_names_letters()
    ensures
        key_named("escape"@) == Some(Key::Escape),
        key_named("esc"@) == Some(Key::Escape),
        key_named("delete"@) == Some(Key::Delete),
        key_named("del"@) == Some(Key::Delete),
        key_named("a"@) == Some(Key::KeyA),
        key_named("b"@) == Some(Key::KeyB),
        key_named("c"@) == Some(Key::KeyC),
        key_named("d"@) == Some(Key::KeyD),
        key_named("e"@) == Some(Key::KeyE),
        key_named("f"@) == Some(Key::KeyF),
        key_named("g"@) == Some(Key::KeyG),
        key_named("h"@) == Some(Key::KeyH),
        key_named("i"@) == Some(Key::KeyI),
        key_named("j"@) == Some(Key::KeyJ),
        key_named("k"@) == Some(Key::KeyK),
        key_named("l"@) == Some(Key::KeyL),
        key_named("m"@) == Some(Key::KeyM),
        key_named("n"@) == Some(Key::KeyN),
        key_named("o"@) == Some(Key::KeyO),
        key_named("p"@) == Some(Key::KeyP),
        key_named("q"@) == Some(Key::KeyQ),
        key_named("r"@) == Some(Key::KeyR),
        key_named("s"@) == Some(Key::KeyS),
        key_named("t"@) == Some(Key::KeyT),
        key_named("u"@) == Some(Key::KeyU),
        key_named("v"@) == Some(Key::KeyV),
{
    lemma_key_name_literals();
}

/// Key-name law (letter, digit and function keys): each documented name stands for the key of
/// that name on the keyboard hook.
pub proof fn lemma_key_names_digits_and_f()
    ensures
        key_named("w"@) == Some(Key::KeyW),
        key_named("x"@) == Some(Key::KeyX),
        key_named("y"@) == Some(Key::KeyY),
        key_named("z"@) == Some(Key::KeyZ),
        key_named("0"@) == Some(Key::Num0),
        key_named("1"@) == Some(Key::Num1),
        key_named("2"@) == Some(Key::Num2),
        key_named("3"@) == Some(Key::Num3),
        key_named("4"@) == Some(Key::Num4),
        key_named("5"@) == Some(Key::Num5),
        key_named("6"@) == Some(Key::Num6),
        key_named("7"@) == Some(Key::Num7),
        key_named("8"@) == Some(Key::Num8),
        key_named("9"@) == Some(Key::Num9),
        key_named("f1"@) == Some(Key::F1),
        key_named("f2"@) == Some(Key::F2),
        key_named("f3"@) == Some(Key::F3),
        key_named("f4"@) == Some(Key::F4),
        key_named("f5"@) == Some(Key::F5),
        key_named("f6"@) == Some(Key::F6),
        key_named("f7"@) == Some(Key::F7),
        key_named("f8"@) == Some(Key::F8),
        key_named("f9"@) == Some(Key::F9),
        key_named("f10"@) == Some(Key::F10),
        key_named("f11"@) == Some(Key::F11),
        key_named("f12"@) == Some(Key::F12),
{
    lemma_key_name_literals();
}

/// Executable `key_named` on the characters of a name.
pub fn key_from_name(n: &Vec<char>) -> (r: Option<Key>)
    ensures
        r == key_named(n@),
{
    if chars_are(n, "`") || chars_are(n, "backquote") {
        Some(Key::BackQuote)
    } else if chars_are(n, "-") || chars_are(n, "minus") {
        Some(Key::Minus)
    } else if chars_are(n, "=") || chars_are(n, "equal") {
        Some(Key::Equal)
    } else if chars_are(n, "[") {
        Some(Key::LeftBracket)
    } else if chars_are(n, "]") {
        Some(Key::RightBracket)
    } else if chars_are(n, "\\") || chars_are(n, "backslash") {
        Some(Key::BackSlash)
    } else if chars_are(n, ";") || chars_are(n, "semicolon") {
        Some(Key::SemiColon)
    } else if chars_are(n, "'") || chars_are(n, "quote") {
        Some(Key::Quote)
    } else if chars_are(n, ",") || chars_are(n, "comma") {
        Some(Key::Comma)
    } else if chars_are(n, ".") || chars_are(n, "period") || chars_are(n, "dot") {
        Some(Key::Dot)
    } else if chars_are(n, "/") || chars_are(n, "slash") {
        Some(Key::Slash)
    } else if chars_are(n, "space") || chars_are(n, " ") {
        Some(Key::Space)
    } else if chars_are(n, "enter") || chars_are(n, "return") {
        Some(Key::Return)
    } else if chars_are(n, "tab") {
        Some(Key::Tab)
    } else if chars_are(n, "backspace") {
        Some(Key::Backspace)
    } else if chars_are(n, "escape") || chars_are(n, "esc") {
        Some(Key::Escape)
    } else if chars_are(n, "delete") || chars_are(n, "del") {
        Some(Key::Delete)
    } else if chars_are(n, "a") {
        Some(Key::KeyA)
    } else if chars_are(n, "b") {
        Some(Key::KeyB)
    } else if chars_are(n, "c") {
        Some(Key::KeyC)
    } else if chars_are(n, "d") {
        Some(Key::KeyD)
    } else if chars_are(n, "e") {
        Some(Key::KeyE)
    } else if chars_are(n, "f") {
        Some(Key::KeyF)
    } else if chars_are(n, "g") {
        Some(Key::KeyG)
    } else if chars_are(n, "h") {
        Some(Key::KeyH)
    } else if chars_are(n, "i") {
        Some(Key::KeyI)
    } else if chars_are(n, "j") {
        Some(Key::KeyJ)
    } else if chars_are(n, "k") {
        Some(Key::KeyK)
    } else if chars_are(n, "l") {
        Some(Key::KeyL)
    } else if chars_are(n, "m") {
        Some(Key::KeyM)
    } else if chars_are(n, "n") {
        Some(Key::KeyN)
    } else if chars_are(n, "o") {
        Some(Key::KeyO)
    } else if chars_are(n, "p") {
        Some(Key::KeyP)
    } else if chars_are(n, "q") {
        Some(Key::KeyQ)
    } else if chars_are(n, "r") {
        Some(Key::KeyR)
    } else if chars_are(n, "s") {
        Some(Key::KeyS)
    } else if chars_are(n, "t") {
        Some(Key::KeyT)
    } else if chars_are(n, "u") {
        Some(Key::KeyU)
    } else if chars_are(n, "v") {
        Some(Key::KeyV)
    } else if chars_are(n, "w") {
        Some(Key::KeyW)
    } else if chars_are(n, "x") {
        Some(Key::KeyX)
    } else if chars_are(n, "y") {
        Some(Key::KeyY)
    } else if chars_are(n, "z") {
        Some(Key::KeyZ)
    } else if chars_are(n, "0") {
        Some(Key::Num0)
    } else if chars_are(n, "1") {
        Some(Key::Num1)
    } else if chars_are(n, "2") {
        Some(Key::Num2)
    } else if chars_are(n, "3") {
        Some(Key::Num3)
    } else if chars_are(n, "4") {
        Some(Key::Num4)
    } else if chars_are(n, "5") {
        Some(Key::Num5)
    } else if chars_are(n, "6") {
        Some(Key::Num6)
    } else if chars_are(n, "7") {
        Some(Key::Num7)
    } else if chars_are(n, "8") {
        Some(Key::Num8)
    } else if chars_are(n, "9") {
        Some(Key::Num9)
    } else if chars_are(n, "f1") {
        Some(Key::F1)
    } else if chars_are(n, "f2") {
        Some(Key::F2)
    } else if chars_are(n, "f3") {
        Some(Key::F3)
    } else if chars_are(n, "f4") {
        Some(Key::F4)
    } else if chars_are(n, "f5") {
        Some(Key::F5)
    } else if chars_are(n, "f6") {
        Some(Key::F6)
    } else if chars_are(n, "f7") {
        Some(Key::F7)
    } else if chars_are(n, "f8") {
        Some(Key::F8)
    } else if chars_are(n, "f9") {
        Some(Key::F9)
    } else if chars_are(n, "f10") {
        Some(Key::F10)
    } else if chars_are(n, "f11") {
        Some(Key::F11)
    } else if chars_are(n, "f12") {
        Some(Key::F12)
    } else {
        None
    }
}

/// Parses a single key name, ignoring case (`"A"`, `"f5"`, `"Enter"`, ...).
pub fn parse_key(s: &str) -> (r: Option<Key>)
    ensures
        r == key_named(lowercase(s@)),
{
    let lower = to_lowercase(s);
    let v = chars_of(lower.as_str());
    key_from_name(&v)
}

/// The modifier key a (lower-case) modifier name stands for.
pub open spec fn modifier_named(n: Seq<char>) -> Option<Key> {
    if n == "alt"@ {
        Some(Key::Alt)
    } else if n == "ctrl"@ || n == "control"@ {
        Some(Key::ControlLeft)
    } else if n == "shift"@ {
        Some(Key::ShiftLeft)
    } else if n == "meta"@ || n == "win"@ || n == "cmd"@ || n == "super"@ {
        Some(Key::MetaLeft)
    } else {
        None
    }
}

/// What one `+`-separated part of a hotkey string means.
#[derive(Clone, Copy, Debug, PartialEq, Eq, Structural)]
pub enum HotkeyPart {
    Modifier(Key),
    Main(Key),
    Invalid,
}

/// The meaning of a raw part: it is trimmed and lower-cased, then read as a
/// modifier name, else (lower-cased once more) as a key name.
pub open spec fn classify_part(part: Seq<char>) -> HotkeyPart {
    lowered_part_kind(lowercase(trim(part)))
}

/// The meaning of a trimmed, lower-cased part: a modifier name, else (read
/// case-insensitively) a key name, else nothing valid.
pub open spec fn lowered_part_kind(lower: Seq<char>) -> HotkeyPart {
    match modifier_named(lower) {
        Some(k) => HotkeyPart::Modifier(k),
        None => match key_named(lowercase(lower)) {
            Some(k) => HotkeyPart::Main(k),
            None => HotkeyPart::Invalid,
        },
    }
}

/// Classifies one trimmed, lower-cased part of a hotkey string.
pub fn classify_lowered_part(lower: &str) -> (r: HotkeyPart)
    ensures
        r == lowered_part_kind(lower@),
{
    let lv = chars_of(lower);
    if chars_are(&lv, "alt") {
        HotkeyPart::Modifier(Key::Alt)
    } else if chars_are(&lv, "ctrl") || chars_are(&lv, "control") {
        HotkeyPart::Modifier(Key::ControlLeft)
    } else if chars_are(&lv, "shift") {
        HotkeyPart::Modifier(Key::ShiftLeft)
    } else if chars_are(&lv, "meta") || chars_are(&lv, "win") || chars_are(&lv, "cmd")
        || chars_are(&lv, "super") {
        HotkeyPart::Modifier(Key::MetaLeft)
    } else {
        match parse_key(lower) {
            Some(k) => HotkeyPart::Main(k),
            None => HotkeyPart::Invalid,
        }
    }
}

/// The parts of a hotkey string.
pub open spec fn hotkey_parts(s: Seq<char>) -> Seq<Seq<char>> {
    split_on(s, '+')
}

/// Some part of `parts` is neither a modifier nor a key.
pub open spec fn has_invalid_part(parts: Seq<Seq<char>>) -> bool {
    exists|i: int| 0 <= i < parts.len() && classify_part(parts[i]) == HotkeyPart::Invalid
}

/// The modifiers that the parts name.
pub open spec fn modifiers_of(parts: Seq<Seq<char>>) -> Set<Key> {
    Set::new(
        |k: Key| exists|i: int| 0 <= i < parts.len() && classify_part(parts[i]) == HotkeyPart::Modifier(k),
    )
}

/// The key named by the last non-modifier part, if any.
pub open spec fn last_main_key(parts: Seq<Seq<char>>) -> Option<Key>
    decreases parts.len(),
{
    if parts.len() == 0 {
        None
    } else {
        match classify_part(parts.last()) {
            HotkeyPart::Main(k) => Some(k),
            _ => last_main_key(parts.drop_last()),
        }
    }
}

/// A parsed hotkey binding: modifier keys + a main key.
pub struct HotkeyBinding {
    pub modifiers: KeySet,
    pub key: Key,
}

impl Clone for HotkeyBinding {
    fn clone(&self) -> (r: Self)
        ensures
            r.modifiers@ == self.modifiers@,
            r.key == self.key,
    {
        HotkeyBinding { modifiers: self.modifiers.clone(), key: self.key }
    }
}

/// The alternative key that also satisfies a required modifier
/// (the right-hand twin of a left-hand modifier, AltGr for Alt).
pub open spec fn counterpart(k: Key) -> Option<Key> {
    match k {
        Key::Alt => Some(Key::AltGr),
        Key::ControlLeft => Some(Key::ControlRight),
        Key::ShiftLeft => Some(Key::ShiftRight),
        Key::MetaLeft => Some(Key::MetaRight),
        _ => None,
    }
}

/// Whether a required modifier counts as held: it or its twin is pressed;
/// a required key without a twin is never checked.
pub open spec fn modifier_held(pressed: Set<Key>, m: Key) -> bool {
    pressed.contains(m) || match counterpart(m) {
        Some(c) => pressed.contains(c),
        None => true,
    }
}

/// Whether a key event completes the combination `binding` given the held keys.
pub open spec fn binding_fires(modifiers: Set<Key>, key: Key, pressed: Set<Key>, event_key: Key) -> bool {
    &&& event_key == key
    &&& forall|m: Key| modifiers.contains(m) ==> modifier_held(pressed, m)
}

/// Matching law: a key event completes a combination exactly when it is the
/// combination's main key and each required modifier among Alt, Ctrl, Shift
/// and Meta is held on one side or the other (Alt or AltGr, left or right
/// Ctrl, left or right Shift, left or right Meta); any other required key
/// is not checked.
pub proof fn lemma_binding_fires_iff(modifiers: Set<Key>, key: Key, pressed: Set<Key>, event_key: Key)
    ensures
        binding_fires(modifiers, key, pressed, event_key) <==> {
            &&& event_key == key
            &&& modifiers.contains(Key::Alt) ==> pressed.contains(Key::Alt) || pressed.contains(
                Key::AltGr,
            )
            &&& modifiers.contains(Key::ControlLeft) ==> pressed.contains(Key::ControlLeft)
                || pressed.contains(Key::ControlRight)
            &&& modifiers.contains(Key::ShiftLeft) ==> pressed.contains(Key::ShiftLeft)
                || pressed.contains(Key::ShiftRight)
            &&& modifiers.contains(Key::MetaLeft) ==> pressed.contains(Key::MetaLeft)
                || pressed.contains(Key::MetaRight)
        },
{
    if binding_fires(modifiers, key, pressed, event_key) {
        assert(modifiers.contains(Key::Alt) ==> modifier_held(pressed, Key::Alt));
        assert(modifiers.contains(Key::ControlLeft) ==> modifier_held(pressed, Key::ControlLeft));
        assert(modifiers.contains(Key::ShiftLeft) ==> modifier_held(pressed, Key::ShiftLeft));
        assert(modifiers.contains(Key::MetaLeft) ==> modifier_held(pressed, Key::MetaLeft));
    }
}

impl HotkeyBinding {
    /// Parses `"Alt+`"`, `"Ctrl+Shift+A"`, etc. Parts are separated by `+`,
    /// trimmed and read without regard to case. `None` when a part is
    /// neither a modifier nor a key, or when no part names a main key; the
    /// last main key wins.
    pub fn parse(s: &str) -> (r: Option<HotkeyBinding>)
        ensures
            r is None <==> has_invalid_part(hotkey_parts(s@)) || last_main_key(hotkey_parts(s@)) is None,
            r matches Some(b) ==> {
                &&& b.modifiers@ == modifiers_of(hotkey_parts(s@))
                &&& Some(b.key) == last_main_key(hotkey_parts(s@))
            },
    {
        let v = chars_of(s);
        let ranges = split_ranges(&v, '+');
        let ghost parts = hotkey_parts(s@);
        let mut modifiers = KeySet::new();
        let mut main_key: Option<Key> = None;
        let mut i: usize = 0;
        while i < ranges.len()
            invariant
                ranges@.len() == parts.len(),
                parts == split_on(v@, '+'),
                parts == hotkey_parts(s@),
                v@ == s@,
                forall|j: int|
                    0 <= j < ranges@.len() ==> #[trigger] ranges@[j].0 <= ranges@[j].1 <= v.len()
                        && v@.subrange(ranges@[j].0 as int, ranges@[j].1 as int) == parts[j],
                0 <= i <= ranges.len(),
                !has_invalid_part(parts.take(i as int)),
                modifiers@ == modifiers_of(parts.take(i as int)),
                main_key == last_main_key(parts.take(i as int)),
            decreases ranges.len() - i,
        {
            let (lo, hi) = ranges[i];
            let a = skip_ws_forward(&v, lo, hi);
            let b = skip_ws_backward(&v, a, hi);
            let trimmed = string_from_range(&v, a, b);
            proof {
                let p = v@.subrange(lo as int, hi as int);
                assert(p == parts[i as int]);
                assert(v@.subrange(a as int, hi as int) =~= p.skip((a - lo) as int));
                assert(v@.subrange(a as int, b as int) =~= trim(p));
            }
            let lower = to_lowercase(trimmed.as_str());
            let ghost prev_parts = parts.take(i as int);
            proof {
                assert(parts.take(i + 1).drop_last() =~= prev_parts);
                assert(parts.take(i + 1).last() == parts[i as int]);
            }
            let kind = classify_lowered_part(lower.as_str());
            assert(kind == classify_part(parts[i as int]));
            match kind {
                HotkeyPart::Modifier(k) => {
                    modifiers.insert(k);
                    proof {
                        assert(modifiers@ =~= modifiers_of(parts.take(i + 1))) by {
                            assert forall|x: Key| modifiers_of(parts.take(i + 1)).contains(x) implies modifiers@.contains(x) by {
                                let t = parts.take(i + 1);
                                let j = choose|j: int| 0 <= j < t.len() && classify_part(t[j]) == HotkeyPart::Modifier(x);
                                if j < i {
                                    assert(prev_parts[j] == t[j]);
                                }
                            }
                            assert forall|x: Key| modifiers@.contains(x) implies modifiers_of(parts.take(i + 1)).contains(x) by {
                                let t = parts.take(i + 1);
                                if x == k {
                                    assert(classify_part(t[i as int]) == HotkeyPart::Modifier(x));
                                } else {
                                    let j = choose|j: int| 0 <= j < prev_parts.len() && classify_part(prev_parts[j]) == HotkeyPart::Modifier(x);
                                    assert(prev_parts[j] == t[j]);
                                }
                            }
                        }
                    }
                },
                HotkeyPart::Main(k) => {
                    main_key = Some(k);
                    proof {
                        assert(modifiers_of(parts.take(i + 1)) =~= modifiers_of(prev_parts)) by {
                            assert forall|x: Key| modifiers_of(parts.take(i + 1)).contains(x) implies modifiers_of(prev_parts).contains(x) by {
                                let t = parts.take(i + 1);
                                let j = choose|j: int| 0 <= j < t.len() && classify_part(t[j]) == HotkeyPart::Modifier(x);
                                assert(j < i);
                                assert(prev_parts[j] == t[j]);
                            }
                            assert forall|x: Key| modifiers_of(prev_parts).contains(x) implies modifiers_of(parts.take(i + 1)).contains(x) by {
                                let t = parts.take(i + 1);
                                let j = choose|j: int| 0 <= j < prev_parts.len() && classify_part(prev_parts[j]) == HotkeyPart::Modifier(x);
                                assert(prev_parts[j] == t[j]);
                            }
                        }
                    }
                },
                HotkeyPart::Invalid => {
                    proof {
                        assert(parts[i as int] == parts.take(i as int + 1)[i as int]);
                        lemma_invalid_prefix(parts, i as int + 1, i as int);
                        assert(has_invalid_part(hotkey_parts(s@)));
                    }
                    return None;
                },
            }
            proof {
                assert forall|j: int| 0 <= j < i + 1 implies classify_part(#[trigger] parts.take(i + 1)[j]) != HotkeyPart::Invalid by {
                    if j < i {
                        assert(parts.take(i + 1)[j] == prev_parts[j]);
                    }
                }
            }
            i = i + 1;
        }
        proof {
            assert(parts.take(parts.len() as int) =~= parts);
        }
        match main_key {
            Some(key) => Some(HotkeyBinding { modifiers, key }),
            None => None,
        }
    }

    /// Whether pressing `event_key` while `pressed` are held completes this
    /// combination. A required left-hand modifier is also satisfied by its
    /// right-hand twin (and Alt by AltGr).
    pub fn matches(&self, pressed: &KeySet, event_key: &Key) -> (r: bool)
        ensures
            r == binding_fires(self.modifiers@, self.key, pressed@, *event_key),
    {
        if *event_key != self.key {
            return false;
        }
        proof {
            use_type_invariant(&self.modifiers);
        }
        let mods = &self.modifiers.keys;
        let mut i: usize = 0;
        while i < mods.len()
            invariant
                0 <= i <= mods.len(),
                mods@ == self.modifiers.keys@,
                forall|j: int| 0 <= j < i ==> modifier_held(pressed@, #[trigger] mods@[j]),
            decreases mods.len() - i,
        {
            let required = mods[i];
            if !pressed.contains(&required) {
                let twin = match required {
                    Key::Alt => Some(Key::AltGr),
                    Key::ControlLeft => Some(Key::ControlRight),
                    Key::ShiftLeft => Some(Key::ShiftRight),
                    Key::MetaLeft => Some(Key::MetaRight),
                    _ => None,
                };
                assert(twin == counterpart(required));
                match twin {
                    Some(c) => {
                        if !pressed.contains(&c) {
                            assert(mods@[i as int] == required);
                            assert(mods@.contains(required));
                            assert(self.modifiers@.contains(required));
                            return false;
                        }
                    },
                    None => {},
                }
            }
            i = i + 1;
        }
        assert forall|m: Key| self.modifiers@.contains(m) implies modifier_held(pressed@, m) by {
            let j = choose|j: int| 0 <= j < mods@.len() && mods@[j] == m;
            assert(modifier_held(pressed@, mods@[j]));
        }
        true
    }
}

/// A raw key event from the global keyboard hook.
#[derive(Clone, Copy, Debug, PartialEq, Eq, Structural)]
pub enum KeyAction {
    Press(Key),
    Release(Key),
}

/// A binding as plain values: its modifier set and main key.
pub open spec fn binding_model(b: HotkeyBinding) -> (Set<Key>, Key) {
    (b.modifiers@, b.key)
}

/// Whether a modelled binding fires on `event_key` with `pressed` held.
pub open spec fn model_fires(b: (Set<Key>, Key), pressed: Set<Key>, event_key: Key) -> bool {
    binding_fires(b.0, b.1, pressed, event_key)
}

/// `[e]` when `c` holds, else nothing.
pub open spec fn emit_if(c: bool, e: HotkeyEvent) -> Seq<HotkeyEvent> {
    if c {
        seq![e]
    } else {
        Seq::<HotkeyEvent>::empty()
    }
}

/// One step of the listener: the held keys and push-to-talk flag after
/// `action`, and the events it emits, in order.
///
/// A press adds the key, starts recording when the record combination fires
/// and recording is not already held (key repeat is ignored), and fires the
/// other three combinations. A release removes the key; releasing the record
/// key or one of its modifiers ends a held recording.
pub open spec fn listener_step(
    rec: (Set<Key>, Key),
    tts: (Set<Key>, Key),
    inject: (Set<Key>, Key),
    engine: (Set<Key>, Key),
    pressed: Set<Key>,
    held: bool,
    action: KeyAction,
) -> (Set<Key>, bool, Seq<HotkeyEvent>) {
    match action {
        KeyAction::Press(k) => {
            let p = pressed.insert(k);
            let start = model_fires(rec, p, k) && !held;
            (
                p,
                held || start,
                emit_if(start, HotkeyEvent::RecordStart) + emit_if(
                    model_fires(tts, p, k),
                    HotkeyEvent::TtsTrigger,
                ) + emit_if(model_fires(inject, p, k), HotkeyEvent::InjectModeSwitch) + emit_if(
                    model_fires(engine, p, k),
                    HotkeyEvent::EngineSwitch,
                ),
            )
        },
        KeyAction::Release(k) => {
            let p = pressed.remove(k);
            let rel = k == rec.1 || rec.0.contains(k);
            (p, if rel {
                false
            } else {
                held
            }, emit_if(rel && held, HotkeyEvent::RecordStop))
        },
    }
}

/// The state of the global hotkey listener: the four bindings, the keys held
/// down, and whether push-to-talk recording is held.
pub struct HotkeyListener {
    pub record: HotkeyBinding,
    pub tts: HotkeyBinding,
    pub inject_switch: HotkeyBinding,
    pub engine_switch: HotkeyBinding,
    pub pressed: KeySet,
    pub record_held: bool,
}

impl HotkeyListener {
    /// A listener with no key held and no recording.
    pub fn new(
        record: HotkeyBinding,
        tts: HotkeyBinding,
        inject_switch: HotkeyBinding,
        engine_switch: HotkeyBinding,
    ) -> (l: Self)
        ensures
            l.record == record,
            l.tts == tts,
            l.inject_switch == inject_switch,
            l.engine_switch == engine_switch,
            l.pressed@ == Set::<Key>::empty(),
            !l.record_held,
    {
        HotkeyListener {
            record,
            tts,
            inject_switch,
            engine_switch,
            pressed: KeySet::new(),
            record_held: false,
        }
    }

    /// Applies one key event and returns the hotkey events it triggers.
    pub fn handle(&mut self, action: KeyAction) -> (events: Vec<HotkeyEvent>)
        ensures
            final(self).record == old(self).record,
            final(self).tts == old(self).tts,
            final(self).inject_switch == old(self).inject_switch,
            final(self).engine_switch == old(self).engine_switch,
            (final(self).pressed@, final(self).record_held, events@) == listener_step(
                binding_model(old(self).record),
                binding_model(old(self).tts),
                binding_model(old(self).inject_switch),
                binding_model(old(self).engine_switch),
                old(self).pressed@,
                old(self).record_held,
                action,
            ),
    {
        let mut events: Vec<HotkeyEvent> = Vec::new();
        match action {
            KeyAction::Press(k) => {
                self.pressed.insert(k);
                let start = self.record.matches(&self.pressed, &k) && !self.record_held;
                if start {
                    self.record_held = true;
                    events.push(HotkeyEvent::RecordStart);
                }
                let ghost e1 = events@;
                if self.tts.matches(&self.pressed, &k) {
                    events.push(HotkeyEvent::TtsTrigger);
                }
                let ghost e2 = events@;
                if self.inject_switch.matches(&self.pressed, &k) {
                    events.push(HotkeyEvent::InjectModeSwitch);
                }
                let ghost e3 = events@;
                if self.engine_switch.matches(&self.pressed, &k) {
                    events.push(HotkeyEvent::EngineSwitch);
                }
                proof {
                    let p = self.pressed@;
                    assert(e1 =~= emit_if(start, HotkeyEvent::RecordStart));
                    assert(e2 =~= e1 + emit_if(model_fires(binding_model(self.tts), p, k), HotkeyEvent::TtsTrigger));
                    assert(e3 =~= e2 + emit_if(model_fires(binding_model(self.inject_switch), p, k), HotkeyEvent::InjectModeSwitch));
                    assert(events@ =~= e3 + emit_if(model_fires(binding_model(self.engine_switch), p, k), HotkeyEvent::EngineSwitch));
                }
            },
            KeyAction::Release(k) => {
                self.pressed.remove(&k);
                if k == self.record.key || self.record.modifiers.contains(&k) {
                    if self.record_held {
                        events.push(HotkeyEvent::RecordStop);
                    }
                    self.record_held = false;
                }
                assert(events@ =~= emit_if(
                    (k == old(self).record.key || old(self).record.modifiers@.contains(k)) && old(self).record_held,
                    HotkeyEvent::RecordStop,
                ));
            },
        }
        events
    }

    /// Applies one key event unless the stop flag was raised: while
    /// `stopped`, the event is ignored and nothing changes.
    pub fn handle_unless_stopped(&mut self, stopped: bool, action: KeyAction) -> (events: Vec<
        HotkeyEvent,
    >)
        ensures
            final(self).record == old(self).record,
            final(self).tts == old(self).tts,
            final(self).inject_switch == old(self).inject_switch,
            final(self).engine_switch == old(self).engine_switch,
            (final(self).pressed@, final(self).record_held, events@) == gated_step(
                binding_model(old(self).record),
                binding_model(old(self).tts),
                binding_model(old(self).inject_switch),
                binding_model(old(self).engine_switch),
                old(self).pressed@,
                old(self).record_held,
                stopped,
                action,
            ),
    {
        if stopped {
            Vec::new()
        } else {
            self.handle(action)
        }
    }
}

/// Listener law: on a key press the held keys gain that key, and each
/// event is tied to its own binding: recording starts exactly when the
/// record combination fires while no recording is held, and the speech,
/// inject-mode and engine events come exactly when their own combination
/// fires; nothing else is emitted, and nothing twice. On a release the key
/// is no longer held and the only event is the
/// end of a held recording, exactly when the key is the record key or one
/// of its modifiers.
pub proof fn lemma_listener_events(
    rec: (Set<Key>, Key),
    tts: (Set<Key>, Key),
    inject: (Set<Key>, Key),
    engine: (Set<Key>, Key),
    pressed: Set<Key>,
    held: bool,
    action: KeyAction,
)
    ensures
        ({
            let (p2, h2, ev) = listener_step(rec, tts, inject, engine, pressed, held, action);
            match action {
                KeyAction::Press(k) => {
                    let p = pressed.insert(k);
                    &&& p2 == p
                    &&& (ev.contains(HotkeyEvent::RecordStart) <==> binding_fires(
                        rec.0,
                        rec.1,
                        p,
                        k,
                    ) && !held)
                    &&& (ev.contains(HotkeyEvent::TtsTrigger) <==> binding_fires(
                        tts.0,
                        tts.1,
                        p,
                        k,
                    ))
                    &&& (ev.contains(HotkeyEvent::InjectModeSwitch) <==> binding_fires(
                        inject.0,
                        inject.1,
                        p,
                        k,
                    ))
                    &&& (ev.contains(HotkeyEvent::EngineSwitch) <==> binding_fires(
                        engine.0,
                        engine.1,
                        p,
                        k,
                    ))
                    &&& !ev.contains(HotkeyEvent::RecordStop)
                    &&& ev.len() == (if binding_fires(rec.0, rec.1, p, k) && !held {
                        1int
                    } else {
                        0
                    }) + (if binding_fires(tts.0, tts.1, p, k) {
                        1int
                    } else {
                        0
                    }) + (if binding_fires(inject.0, inject.1, p, k) {
                        1int
                    } else {
                        0
                    }) + (if binding_fires(engine.0, engine.1, p, k) {
                        1int
                    } else {
                        0
                    })
                    &&& h2 == (held || binding_fires(rec.0, rec.1, p, k))
                },
                KeyAction::Release(k) => {
                    let ends = k == rec.1 || rec.0.contains(k);
                    &&& p2 == pressed.remove(k)
                    &&& ev == (if held && ends {
                        seq![HotkeyEvent::RecordStop]
                    } else {
                        Seq::<HotkeyEvent>::empty()
                    })
                    &&& h2 == (held && !ends)
                },
            }
        }),
{
    match action {
        KeyAction::Press(k) => {
            let p = pressed.insert(k);
            let f1 = model_fires(rec, p, k);
            let f2 = model_fires(tts, p, k);
            let f3 = model_fires(inject, p, k);
            let f4 = model_fires(engine, p, k);
            let a1 = emit_if(f1 && !held, HotkeyEvent::RecordStart);
            let a2 = emit_if(f2, HotkeyEvent::TtsTrigger);
            let a3 = emit_if(f3, HotkeyEvent::InjectModeSwitch);
            let a4 = emit_if(f4, HotkeyEvent::EngineSwitch);
            let ev = listener_step(rec, tts, inject, engine, pressed, held, action).2;
            assert(ev == a1 + a2 + a3 + a4);
            lemma_press_event(a1, a2, a3, a4, f1 && !held, f2, f3, f4, HotkeyEvent::RecordStart);
            lemma_press_event(a1, a2, a3, a4, f1 && !held, f2, f3, f4, HotkeyEvent::TtsTrigger);
            lemma_press_event(a1, a2, a3, a4, f1 && !held, f2, f3, f4, HotkeyEvent::InjectModeSwitch);
            lemma_press_event(a1, a2, a3, a4, f1 && !held, f2, f3, f4, HotkeyEvent::EngineSwitch);
            lemma_press_event(a1, a2, a3, a4, f1 && !held, f2, f3, f4, HotkeyEvent::RecordStop);
        },
        KeyAction::Release(k) => {},
    }
}

/// Which event a press emits, by the four conditions.
proof fn lemma_press_event(
    a1: Seq<HotkeyEvent>,
    a2: Seq<HotkeyEvent>,
    a3: Seq<HotkeyEvent>,
    a4: Seq<HotkeyEvent>,
    c1: bool,
    c2: bool,
    c3: bool,
    c4: bool,
    x: HotkeyEvent,
)
    requires
        a1 == emit_if(c1, HotkeyEvent::RecordStart),
        a2 == emit_if(c2, HotkeyEvent::TtsTrigger),
        a3 == emit_if(c3, HotkeyEvent::InjectModeSwitch),
        a4 == emit_if(c4, HotkeyEvent::EngineSwitch),
    ensures
        (a1 + a2 + a3 + a4).contains(x) <==> ((c1 && x == HotkeyEvent::RecordStart) || (c2 && x
            == HotkeyEvent::TtsTrigger) || (c3 && x == HotkeyEvent::InjectModeSwitch) || (c4 && x
            == HotkeyEvent::EngineSwitch)),
{
    lemma_concat_contains(a1, a2, x);
    lemma_concat_contains(a1 + a2, a3, x);
    lemma_concat_contains(a1 + a2 + a3, a4, x);
    lemma_emit_contains(c1, HotkeyEvent::RecordStart, x);
    lemma_emit_contains(c2, HotkeyEvent::TtsTrigger, x);
    lemma_emit_contains(c3, HotkeyEvent::InjectModeSwitch, x);
    lemma_emit_contains(c4, HotkeyEvent::EngineSwitch, x);
}

/// `e` is in `emit_if(c, x)` exactly when `c` holds and `e` is `x`.
proof fn lemma_emit_contains(c: bool, x: HotkeyEvent, e: HotkeyEvent)
    ensures
        emit_if(c, x).contains(e) <==> (c && e == x),
{
    if c {
        assert(emit_if(c, x)[0] == x);
    }
}

/// An event is in a concatenation exactly when it is in one of its parts.
proof fn lemma_concat_contains(a: Seq<HotkeyEvent>, b: Seq<HotkeyEvent>, e: HotkeyEvent)
    ensures
        (a + b).contains(e) <==> (a.contains(e) || b.contains(e)),
{
    if (a + b).contains(e) {
        let j = choose|j: int| 0 <= j < (a + b).len() && (a + b)[j] == e;
        if j < a.len() {
            assert(a[j] == e);
        } else {
            assert(b[j - a.len()] == e);
        }
    }
    if a.contains(e) {
        let j = choose|j: int| 0 <= j < a.len() && a[j] == e;
        assert((a + b)[j] == e);
    }
    if b.contains(e) {
        let j = choose|j: int| 0 <= j < b.len() && b[j] == e;
        assert((a + b)[j + a.len()] == e);
    }
}

/// The push-to-talk events among `events`, in order.
pub open spec fn record_events(events: Seq<HotkeyEvent>) -> Seq<HotkeyEvent>
    decreases events.len(),
{
    if events.len() == 0 {
        Seq::<HotkeyEvent>::empty()
    } else {
        let r = record_events(events.drop_last());
        if events.last() == HotkeyEvent::RecordStart || events.last() == HotkeyEvent::RecordStop {
            r.push(events.last())
        } else {
            r
        }
    }
}

/// Runs the listener model over a whole sequence of key events.
pub open spec fn listener_run(
    rec: (Set<Key>, Key),
    tts: (Set<Key>, Key),
    inject: (Set<Key>, Key),
    engine: (Set<Key>, Key),
    actions: Seq<KeyAction>,
) -> (Set<Key>, bool, Seq<HotkeyEvent>)
    decreases actions.len(),
{
    if actions.len() == 0 {
        (Set::<Key>::empty(), false, Seq::<HotkeyEvent>::empty())
    } else {
        let (p, h, e) = listener_run(rec, tts, inject, engine, actions.drop_last());
        let (p2, h2, e2) = listener_step(rec, tts, inject, engine, p, h, actions.last());
        (p2, h2, e + e2)
    }
}

/// Record-start and record-stop events strictly alternate, starting with a start.
pub open spec fn alternates(r: Seq<HotkeyEvent>) -> bool {
    forall|i: int|
        0 <= i < r.len() ==> #[trigger] r[i] == if i % 2 == 0 {
            HotkeyEvent::RecordStart
        } else {
            HotkeyEvent::RecordStop
        }
}

proof fn lemma_record_events_concat(a: Seq<HotkeyEvent>, b: Seq<HotkeyEvent>)
    ensures
        record_events(a + b) == record_events(a) + record_events(b),
    decreases b.len(),
{
    if b.len() == 0 {
        assert(a + b =~= a);
        assert(record_events(a) + record_events(b) =~= record_events(a));
    } else {
        lemma_record_events_concat(a, b.drop_last());
        assert((a + b).drop_last() =~= a + b.drop_last());
        assert((a + b).last() == b.last());
        assert(record_events(a + b.drop_last()).push(b.last()) =~= record_events(a) + record_events(
            b.drop_last(),
        ).push(b.last()));
    }
}

proof fn lemma_record_events_single(e: HotkeyEvent)
    ensures
        record_events(seq![e]) == if e == HotkeyEvent::RecordStart || e == HotkeyEvent::RecordStop {
            seq![e]
        } else {
            Seq::<HotkeyEvent>::empty()
        },
{
    reveal_with_fuel(record_events, 2);
    assert(seq![e].drop_last() =~= Seq::<HotkeyEvent>::empty());
    assert(seq![e].last() == e);
    assert(record_events(Seq::<HotkeyEvent>::empty()) =~= Seq::<HotkeyEvent>::empty());
    assert(Seq::<HotkeyEvent>::empty().push(e) =~= seq![e]);
}

proof fn lemma_record_events_emit(c: bool, e: HotkeyEvent)
    ensures
        record_events(emit_if(c, e)) == if c && (e == HotkeyEvent::RecordStart || e
            == HotkeyEvent::RecordStop) {
            seq![e]
        } else {
            Seq::<HotkeyEvent>::empty()
        },
{
    if c {
        lemma_record_events_single(e);
    }
}

/// One step of the listener keeps the push-to-talk record well formed: if
/// the record-start and record-stop events so far alternate and recording is
/// held exactly after a start, the same holds after the step.
proof fn lemma_step_keeps_alternation(
    rec: (Set<Key>, Key),
    tts: (Set<Key>, Key),
    inject: (Set<Key>, Key),
    engine: (Set<Key>, Key),
    p: Set<Key>,
    h: bool,
    e: Seq<HotkeyEvent>,
    action: KeyAction,
)
    requires
        alternates(record_events(e)),
        h == (record_events(e).len() % 2 == 1),
    ensures
        alternates(record_events(e + listener_step(rec, tts, inject, engine, p, h, action).2)),
        listener_step(rec, tts, inject, engine, p, h, action).1 == (record_events(
            e + listener_step(rec, tts, inject, engine, p, h, action).2,
        ).len() % 2 == 1),
{
    let (p2, h2, e2) = listener_step(rec, tts, inject, engine, p, h, action);
    lemma_record_events_concat(e, e2);
    let r = record_events(e);
    match action {
        KeyAction::Press(k) => {
            let pk = p.insert(k);
            let start = model_fires(rec, pk, k) && !h;
            let a1 = emit_if(start, HotkeyEvent::RecordStart);
            let a2 = emit_if(model_fires(tts, pk, k), HotkeyEvent::TtsTrigger);
            let a3 = emit_if(model_fires(inject, pk, k), HotkeyEvent::InjectModeSwitch);
            let a4 = emit_if(model_fires(engine, pk, k), HotkeyEvent::EngineSwitch);
            lemma_record_events_concat(a1 + a2 + a3, a4);
            lemma_record_events_concat(a1 + a2, a3);
            lemma_record_events_concat(a1, a2);
            lemma_record_events_emit(start, HotkeyEvent::RecordStart);
            lemma_record_events_emit(model_fires(tts, pk, k), HotkeyEvent::TtsTrigger);
            lemma_record_events_emit(model_fires(inject, pk, k), HotkeyEvent::InjectModeSwitch);
            lemma_record_events_emit(model_fires(engine, pk, k), HotkeyEvent::EngineSwitch);
            assert(record_events(e2) == record_events(a1)) by {
                assert(record_events(a1) + Seq::<HotkeyEvent>::empty() =~= record_events(a1));
            }
            if start {
                assert(record_events(e + e2) =~= r.push(HotkeyEvent::RecordStart));
            } else {
                assert(record_events(e + e2) =~= r);
            }
        },
        KeyAction::Release(k) => {
            let rel = k == rec.1 || rec.0.contains(k);
            lemma_record_events_emit(rel && h, HotkeyEvent::RecordStop);
            if rel && h {
                assert(record_events(e + e2) =~= r.push(HotkeyEvent::RecordStop));
            } else {
                assert(record_events(e + e2) =~= r);
            }
        },
    }
}

/// Push-to-talk law: from a fresh listener, over any sequence of key events,
/// the record-start and record-stop events it emits strictly alternate,
/// beginning with a start, and recording is held exactly when the last of
/// them was a start. So every stop answers an earlier start, and a start is
/// never repeated while the key is held.
pub proof fn lemma_record_events_alternate(
    rec: (Set<Key>, Key),
    tts: (Set<Key>, Key),
    inject: (Set<Key>, Key),
    engine: (Set<Key>, Key),
    actions: Seq<KeyAction>,
)
    ensures
        alternates(record_events(listener_run(rec, tts, inject, engine, actions).2)),
        listener_run(rec, tts, inject, engine, actions).1 == (record_events(
            listener_run(rec, tts, inject, engine, actions).2,
        ).len() % 2 == 1),
    decreases actions.len(),
{
    if actions.len() == 0 {
        assert(record_events(Seq::<HotkeyEvent>::empty()) =~= Seq::<HotkeyEvent>::empty());
    } else {
        lemma_record_events_alternate(rec, tts, inject, engine, actions.drop_last());
        let (p, h, e) = listener_run(rec, tts, inject, engine, actions.drop_last());
        lemma_step_keeps_alternation(rec, tts, inject, engine, p, h, e, actions.last());
    }
}

/// One step of the listener while a stop flag may be raised: a key event
/// that arrives while `stopped` is ignored (no event, state unchanged);
/// otherwise it is an ordinary step.
pub open spec fn gated_step(
    rec: (Set<Key>, Key),
    tts: (Set<Key>, Key),
    inject: (Set<Key>, Key),
    engine: (Set<Key>, Key),
    pressed: Set<Key>,
    held: bool,
    stopped: bool,
    action: KeyAction,
) -> (Set<Key>, bool, Seq<HotkeyEvent>) {
    if stopped {
        (pressed, held, Seq::<HotkeyEvent>::empty())
    } else {
        listener_step(rec, tts, inject, engine, pressed, held, action)
    }
}

/// Runs the listener model over key events, each paired with the value the
/// stop flag had when it arrived.
pub open spec fn gated_run(
    rec: (Set<Key>, Key),
    tts: (Set<Key>, Key),
    inject: (Set<Key>, Key),
    engine: (Set<Key>, Key),
    actions: Seq<(bool, KeyAction)>,
) -> (Set<Key>, bool, Seq<HotkeyEvent>)
    decreases actions.len(),
{
    if actions.len() == 0 {
        (Set::<Key>::empty(), false, Seq::<HotkeyEvent>::empty())
    } else {
        let (p, h, e) = gated_run(rec, tts, inject, engine, actions.drop_last());
        let (p2, h2, e2) = gated_step(
            rec,
            tts,
            inject,
            engine,
            p,
            h,
            actions.last().0,
            actions.last().1,
        );
        (p2, h2, e + e2)
    }
}

/// Push-to-talk law with the stop flag: over any sequence of key events,
/// whatever the stop flag was when each arrived, the record-start and
/// record-stop events strictly alternate, beginning with a start, and
/// recording is held exactly when the last of them was a start.
pub proof fn lemma_gated_record_events_alternate(
    rec: (Set<Key>, Key),
    tts: (Set<Key>, Key),
    inject: (Set<Key>, Key),
    engine: (Set<Key>, Key),
    actions: Seq<(bool, KeyAction)>,
)
    ensures
        alternates(record_events(gated_run(rec, tts, inject, engine, actions).2)),
        gated_run(rec, tts, inject, engine, actions).1 == (record_events(
            gated_run(rec, tts, inject, engine, actions).2,
        ).len() % 2 == 1),
    decreases actions.len(),
{
    if actions.len() == 0 {
        assert(record_events(Seq::<HotkeyEvent>::empty()) =~= Seq::<HotkeyEvent>::empty());
    } else {
        lemma_gated_record_events_alternate(rec, tts, inject, engine, actions.drop_last());
        let (p, h, e) = gated_run(rec, tts, inject, engine, actions.drop_last());
        if actions.last().0 {
            assert(e + Seq::<HotkeyEvent>::empty() =~= e);
        } else {
            lemma_step_keeps_alternation(rec, tts, inject, engine, p, h, e, actions.last().1);
        }
    }
}

/// Once a part of the prefix is invalid, the whole list has an invalid part.
proof fn lemma_invalid_prefix(parts: Seq<Seq<char>>, n: int, j: int)
    requires
        0 <= j < n <= parts.len(),
        classify_part(parts.take(n)[j]) == HotkeyPart::Invalid,
    ensures
        has_invalid_part(parts),
{
    assert(parts.take(n)[j] == parts[j]);
}

} // verus!
