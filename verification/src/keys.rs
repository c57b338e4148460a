//! Key names and the tokens that stand for them in a combination.

use crate::text::{lowercase, same_text, texts, to_lowercase};
use device_query::Keycode;
use vstd::prelude::*;

verus! {

/// `device_query::Keycode`, a key of the keyboard. Nothing is known of it
/// but the name that its `Debug` writes, `keycode_text`.
#[verifier::external_type_specification]
#[verifier::external_body]
pub struct ExKeycode(device_query::Keycode);

/// The label under which a key goes into a combination, by the key's name:
/// digit keys lose their prefix, a few keys are renamed, every other name
/// stands for itself.
pub open spec fn key_label(name: Seq<char>) -> Seq<char> {
    if name == "Key1"@ {
        "1"@
    } else if name == "Key2"@ {
        "2"@
    } else if name == "Key3"@ {
        "3"@
    } else if name == "Key4"@ {
        "4"@
    } else if name == "Key5"@ {
        "5"@
    } else if name == "Key6"@ {
        "6"@
    } else if name == "Key7"@ {
        "7"@
    } else if name == "Key8"@ {
        "8"@
    } else if name == "Key9"@ {
        "9"@
    } else if name == "Key0"@ {
        "0"@
    } else if name == "NumpadSlash"@ {
        "NumpadDivide"@
    } else if name == "NumpadAsterisk"@ {
        "NumpadMultiply"@
    } else if name == "NumpadMinus"@ {
        "NumpadSubtract"@
    } else if name == "NumpadPlus"@ {
        "NumpadAdd"@
    } else if name == "NumpadDot"@ {
        "NumpadDecimal"@
    } else if name == "ControlLeft"@ {
        "LControl"@
    } else if name == "ControlRight"@ {
        "RControl"@
    } else if name == "AltLeft"@ {
        "LAlt"@
    } else if name == "AltRight"@ {
        "RAlt"@
    } else if name == "ShiftLeft"@ {
        "LShift"@
    } else if name == "ShiftRight"@ {
        "RShift"@
    } else if name == "MetaLeft"@ {
        "LCommand"@
    } else if name == "MetaRight"@ {
        "RCommand"@
    } else {
        name
    }
}

/// The label of the key with the given name.
pub fn map_key_name(name: &str) -> (label: String)
    ensures
        label@ == key_label(name@),
{
    if same_text(name, "Key1") {
        "1".to_owned()
    } else if same_text(name, "Key2") {
        "2".to_owned()
    } else if same_text(name, "Key3") {
        "3".to_owned()
    } else if same_text(name, "Key4") {
        "4".to_owned()
    } else if same_text(name, "Key5") {
        "5".to_owned()
    } else if same_text(name, "Key6") {
        "6".to_owned()
    } else if same_text(name, "Key7") {
        "7".to_owned()
    } else if same_text(name, "Key8") {
        "8".to_owned()
    } else if same_text(name, "Key9") {
        "9".to_owned()
    } else if same_text(name, "Key0") {
        "0".to_owned()
    } else if same_text(name, "NumpadSlash") {
        "NumpadDivide".to_owned()
    } else if same_text(name, "NumpadAsterisk") {
        "NumpadMultiply".to_owned()
    } else if same_text(name, "NumpadMinus") {
        "NumpadSubtract".to_owned()
    } else if same_text(name, "NumpadPlus") {
        "NumpadAdd".to_owned()
    } else if same_text(name, "NumpadDot") {
        "NumpadDecimal".to_owned()
    } else if same_text(name, "ControlLeft") {
        "LControl".to_owned()
    } else if same_text(name, "ControlRight") {
        "RControl".to_owned()
    } else if same_text(name, "AltLeft") {
        "LAlt".to_owned()
    } else if same_text(name, "AltRight") {
        "RAlt".to_owned()
    } else if same_text(name, "ShiftLeft") {
        "LShift".to_owned()
    } else if same_text(name, "ShiftRight") {
        "RShift".to_owned()
    } else if same_text(name, "MetaLeft") {
        "LCommand".to_owned()
    } else if same_text(name, "MetaRight") {
        "RCommand".to_owned()
    } else {
        name.to_owned()
    }
}

/// The name of a key: what the `Debug` that `device_query::Keycode` derives
/// writes for it, which is the name of the variant.
pub uninterp spec fn keycode_text(key: Keycode) -> Seq<char>;

/// Formats a `device_query::Keycode` with the `Debug` that it derives. The
/// text depends on the key alone: the contract gives it the name
/// `keycode_text` and claims nothing else of it.
#[verifier::external_body]
fn keycode_name(key: &Keycode) -> (name: String)
    ensures
        name@ == keycode_text(*key),
{
    format!("{:?}", key)
}

/// The label of a key of the keyboard: that of its name.
pub fn map_keycode(key: &Keycode) -> (label: String)
    ensures
        label@ == key_label(keycode_text(*key)),
{
    let name = keycode_name(key);
    map_key_name(name.as_str())
}

/// The names of a list of keys, in the order of the keys.
pub open spec fn keycode_texts(keys: Seq<Keycode>) -> Seq<Seq<char>> {
    Seq::new(keys.len(), |i: int| keycode_text(keys[i]))
}

/// The names of the given keys, one for each key and in their order.
pub fn key_names(keys: &Vec<Keycode>) -> (names: Vec<String>)
    ensures
        texts(names@) == keycode_texts(keys@),
{
    let mut names: Vec<String> = Vec::new();
    let mut i: usize = 0;
    while i < keys.len()
        invariant
            i <= keys.len(),
            names.len() == i,
            forall|k: int| 0 <= k < i ==> names@[k]@ == keycode_text(keys@[k]),
        decreases keys.len() - i,
    {
        names.push(keycode_name(&keys[i]));
        i += 1;
    }
    assert(texts(names@) =~= keycode_texts(keys@));
    names
}

/// The token that a label shares with the other keys of its kind: both Alt
/// keys are `Alt`, both Control keys `Ctrl`, both Shift keys `Shift`, a digit
/// of the number pad is the digit. Every other label stands for itself.
pub open spec fn key_alias(label: Seq<char>) -> Seq<char> {
    if label == "LAlt"@ || label == "RAlt"@ {
        "Alt"@
    } else if label == "LControl"@ || label == "RControl"@ || label == "ControlLeft"@ || label
        == "ControlRight"@ {
        "Ctrl"@
    } else if label == "LShift"@ || label == "RShift"@ {
        "Shift"@
    } else if label == "Numpad1"@ {
        "1"@
    } else if label == "Numpad2"@ {
        "2"@
    } else if label == "Numpad3"@ {
        "3"@
    } else if label == "Numpad4"@ {
        "4"@
    } else if label == "Numpad5"@ {
        "5"@
    } else if label == "Numpad6"@ {
        "6"@
    } else if label == "Numpad7"@ {
        "7"@
    } else if label == "Numpad8"@ {
        "8"@
    } else if label == "Numpad9"@ {
        "9"@
    } else if label == "Numpad0"@ {
        "0"@
    } else {
        label
    }
}

/// The shared token of a label.
pub fn alias_of(label: &str) -> (token: String)
    ensures
        token@ == key_alias(label@),
{
    if same_text(label, "LAlt") || same_text(label, "RAlt") {
        "Alt".to_owned()
    } else if same_text(label, "LControl") || same_text(label, "RControl") || same_text(
        label,
        "ControlLeft",
    ) || same_text(label, "ControlRight") {
        "Ctrl".to_owned()
    } else if same_text(label, "LShift") || same_text(label, "RShift") {
        "Shift".to_owned()
    } else if same_text(label, "Numpad1") {
        "1".to_owned()
    } else if same_text(label, "Numpad2") {
        "2".to_owned()
    } else if same_text(label, "Numpad3") {
        "3".to_owned()
    } else if same_text(label, "Numpad4") {
        "4".to_owned()
    } else if same_text(label, "Numpad5") {
        "5".to_owned()
    } else if same_text(label, "Numpad6") {
        "6".to_owned()
    } else if same_text(label, "Numpad7") {
        "7".to_owned()
    } else if same_text(label, "Numpad8") {
        "8".to_owned()
    } else if same_text(label, "Numpad9") {
        "9".to_owned()
    } else if same_text(label, "Numpad0") {
        "0".to_owned()
    } else {
        label.to_owned()
    }
}

/// The canonical token of a label: its shared token in lower case. The
/// empty label stands for itself.
pub open spec fn canonical_token(label: Seq<char>) -> Seq<char> {
    if label.len() == 0 {
        label
    } else {
        lowercase(key_alias(label))
    }
}

/// The canonical token of a label.
pub fn normalize_token(label: &str) -> (token: String)
    ensures
        token@ == canonical_token(label@),
{
    if label.is_empty() {
        label.to_owned()
    } else {
        let alias = alias_of(label);
        to_lowercase(alias.as_str())
    }
}

/// The canonical token of the key with the given name.
pub open spec fn key_token(name: Seq<char>) -> Seq<char> {
    canonical_token(key_label(name))
}

/// The canonical token of the key with the given name.
pub fn normalize(name: &str) -> (token: String)
    ensures
        token@ == key_token(name@),
{
    let label = map_key_name(name);
    normalize_token(label.as_str())
}

} // verus!
