//! Windows virtual-key codes in the numbering of Linux key codes, which the
//! phone speaks. A key that is not in the table is not guessed at.

use vstd::prelude::*;

verus! {

/// The virtual key at the place that evdev numbers `code`: evdev counts the keys
/// by their place on the board, row by row. 0 where there is none.
pub open spec fn key_at(code: int) -> u16 {
    if code == 1 {
        0x1b  // Escape
    } else if 2 <= code <= 10 {
        (0x31 + (code - 2)) as u16  // the digits 1 to 9
    } else if code == 11 {
        0x30  // 0
    } else if code == 12 {
        0xbd  // -
    } else if code == 13 {
        0xbb  // =
    } else if code == 14 {
        0x08  // Backspace
    } else if code == 15 {
        0x09  // Tab
    } else if code == 16 {
        0x51  // Q
    } else if code == 17 {
        0x57  // W
    } else if code == 18 {
        0x45  // E
    } else if code == 19 {
        0x52  // R
    } else if code == 20 {
        0x54  // T
    } else if code == 21 {
        0x59  // Y
    } else if code == 22 {
        0x55  // U
    } else if code == 23 {
        0x49  // I
    } else if code == 24 {
        0x4f  // O
    } else if code == 25 {
        0x50  // P
    } else if code == 26 {
        0xdb  // [
    } else if code == 27 {
        0xdd  // ]
    } else if code == 28 {
        0x0d  // Enter
    } else if code == 29 {
        0xa2  // left Ctrl
    } else if code == 30 {
        0x41  // A
    } else if code == 31 {
        0x53  // S
    } else if code == 32 {
        0x44  // D
    } else if code == 33 {
        0x46  // F
    } else if code == 34 {
        0x47  // G
    } else if code == 35 {
        0x48  // H
    } else if code == 36 {
        0x4a  // J
    } else if code == 37 {
        0x4b  // K
    } else if code == 38 {
        0x4c  // L
    } else if code == 39 {
        0xba  // ;
    } else if code == 40 {
        0xde  // '
    } else if code == 41 {
        0xc0  // `
    } else if code == 42 {
        0xa0  // left Shift
    } else if code == 43 {
        0xdc  // backslash
    } else if code == 44 {
        0x5a  // Z
    } else if code == 45 {
        0x58  // X
    } else if code == 46 {
        0x43  // C
    } else if code == 47 {
        0x56  // V
    } else if code == 48 {
        0x42  // B
    } else if code == 49 {
        0x4e  // N
    } else if code == 50 {
        0x4d  // M
    } else if code == 51 {
        0xbc  // ,
    } else if code == 52 {
        0xbe  // .
    } else if code == 53 {
        0xbf  // /
    } else if code == 54 {
        0xa1  // right Shift
    } else if code == 55 {
        0x6a  // keypad *
    } else if code == 56 {
        0xa4  // left Alt
    } else if code == 57 {
        0x20  // Space
    } else if code == 58 {
        0x14  // CapsLock
    } else if 59 <= code <= 68 {
        (0x70 + (code - 59)) as u16  // F1 to F10
    } else if code == 69 {
        0x90  // NumLock
    } else if code == 70 {
        0x91  // ScrollLock
    } else if 71 <= code <= 73 {
        (0x67 + (code - 71)) as u16  // keypad 7 to 9
    } else if code == 74 {
        0x6d  // keypad -
    } else if 75 <= code <= 77 {
        (0x64 + (code - 75)) as u16  // keypad 4 to 6
    } else if code == 78 {
        0x6b  // keypad +
    } else if 79 <= code <= 81 {
        (0x61 + (code - 79)) as u16  // keypad 1 to 3
    } else if code == 82 {
        0x60  // keypad 0
    } else if code == 83 {
        0x6e  // keypad .
    } else if code == 87 {
        0x7a  // F11
    } else if code == 88 {
        0x7b  // F12
    } else if code == 97 {
        0xa3  // right Ctrl
    } else if code == 98 {
        0x6f  // keypad /
    } else if code == 100 {
        0xa5  // right Alt
    } else if code == 102 {
        0x24  // Home
    } else if code == 103 {
        0x26  // Up
    } else if code == 104 {
        0x21  // PageUp
    } else if code == 105 {
        0x25  // Left
    } else if code == 106 {
        0x27  // Right
    } else if code == 107 {
        0x23  // End
    } else if code == 108 {
        0x28  // Down
    } else if code == 109 {
        0x22  // PageDown
    } else if code == 110 {
        0x2d  // Insert
    } else if code == 111 {
        0x2e  // Delete
    } else if code == 125 {
        0x5b  // left Windows key
    } else if code == 126 {
        0x5c  // right Windows key
    } else if code == 127 {
        0x5d  // menu key
    } else {
        0
    }
}

/// The key that `vk` means: a modifier without a side is the left one.
pub open spec fn sided(vk: u16) -> u16 {
    if vk == 0x10 {
        0xa0
    } else if vk == 0x11 {
        0xa2
    } else if vk == 0x12 {
        0xa4
    } else {
        vk
    }
}

/// The evdev code of a virtual key: the place at which the key is; none for a key
/// that has no place.
pub fn vk_to_evdev(vk: u16) -> (r: Option<u16>)
    ensures
        match r {
            Some(code) => vk != 0 && key_at(code as int) == sided(vk),
            None => vk == 0 || forall|code: int| key_at(code) != sided(vk),
        },
{
    let code: u16 = match vk {
        0x41 => 30,
        0x42 => 48,
        0x43 => 46,
        0x44 => 32,
        0x45 => 18,
        0x46 => 33,
        0x47 => 34,
        0x48 => 35,
        0x49 => 23,
        0x4a => 36,
        0x4b => 37,
        0x4c => 38,
        0x4d => 50,
        0x4e => 49,
        0x4f => 24,
        0x50 => 25,
        0x51 => 16,
        0x52 => 19,
        0x53 => 31,
        0x54 => 20,
        0x55 => 22,
        0x56 => 47,
        0x57 => 17,
        0x58 => 45,
        0x59 => 21,
        0x5a => 44,
        0x30 => 11,
        0x31..=0x39 => vk - 0x2f,
        // F1 to F10 stand together in both numberings, F11 and F12 do not.
        0x70..=0x79 => 59 + (vk - 0x70),
        0x7a => 87,
        0x7b => 88,
        0x1b => 1,
        0x08 => 14,
        0x09 => 15,
        0x0d => 28,
        0x20 => 57,
        0x14 => 58,
        0xa0 | 0x10 => 42,
        0xa1 => 54,
        0xa2 | 0x11 => 29,
        0xa3 => 97,
        0xa4 | 0x12 => 56,
        0xa5 => 100,
        0x5b => 125,
        0x5c => 126,
        0x5d => 127,
        0x25 => 105,
        0x26 => 103,
        0x27 => 106,
        0x28 => 108,
        0x24 => 102,
        0x23 => 107,
        0x21 => 104,
        0x22 => 109,
        0x2d => 110,
        0x2e => 111,
        0xbd => 12,
        0xbb => 13,
        0xdb => 26,
        0xdd => 27,
        0xba => 39,
        0xde => 40,
        0xc0 => 41,
        0xdc => 43,
        0xbc => 51,
        0xbe => 52,
        0xbf => 53,
        0x60 => 82,
        0x61 => 79,
        0x62 => 80,
        0x63 => 81,
        0x64 => 75,
        0x65 => 76,
        0x66 => 77,
        0x67 => 71,
        0x68 => 72,
        0x69 => 73,
        0x6a => 55,
        0x6b => 78,
        0x6d => 74,
        0x6e => 83,
        0x6f => 98,
        0x90 => 69,
        0x91 => 70,
        _ => {
            return None;
        },
    };
    Some(code)
}

/// Two places never hold the same key, so no two keys but a modifier and its left
/// one share a code, and the code of a key is the only one.
pub proof fn lemma_no_collisions(a: int, b: int)
    requires
        key_at(a) == key_at(b),
        key_at(a) != 0,
    ensures
        a == b,
{
}

/// The code 0, which evdev reserves, belongs to no key.
pub proof fn lemma_zero_is_no_key(code: int)
    requires
        key_at(code) != 0,
    ensures
        1 <= code <= 127,
{
}

/// The letters stand in the rows of the board, and each row is numbered from left to right.
pub proof fn lemma_rows_of_letters(vk: u16, r: Option<u16>, i: int)
    requires
        call_ensures(vk_to_evdev, (vk,), r),
    ensures
        0 <= i < 10 && vk == "QWERTYUIOP"@[i] as u16 ==> r == Some((16 + i) as u16),
        0 <= i < 9 && vk == "ASDFGHJKL"@[i] as u16 ==> r == Some((30 + i) as u16),
        0 <= i < 7 && vk == "ZXCVBNM"@[i] as u16 ==> r == Some((44 + i) as u16),
{
    reveal_strlit("QWERTYUIOP");
    reveal_strlit("ASDFGHJKL");
    reveal_strlit("ZXCVBNM");
    if 0 <= i < 10 && vk == "QWERTYUIOP"@[i] as u16 {
        lemma_code_of(vk, r, 16 + i);
    }
    if 0 <= i < 9 && vk == "ASDFGHJKL"@[i] as u16 {
        lemma_code_of(vk, r, 30 + i);
    }
    if 0 <= i < 7 && vk == "ZXCVBNM"@[i] as u16 {
        lemma_code_of(vk, r, 44 + i);
    }
}

proof fn lemma_code_of(vk: u16, r: Option<u16>, code: int)
    requires
        call_ensures(vk_to_evdev, (vk,), r),
        0 <= code <= 127,
        vk != 0,
        key_at(code) == sided(vk),
    ensures
        r == Some(code as u16),
{
    if r is Some {
        lemma_no_collisions(r->0 as int, code);
    }
}

/// The digits, the function keys and the keypad.
pub proof fn lemma_rows_of_digits(vk: u16, r: Option<u16>)
    requires
        call_ensures(vk_to_evdev, (vk,), r),
    ensures
        0x31 <= vk <= 0x39 ==> r == Some((vk - 0x31 + 2) as u16),
        0x70 <= vk <= 0x79 ==> r == Some((vk - 0x70 + 59) as u16),
        0x61 <= vk <= 0x63 ==> r == Some((vk - 0x61 + 79) as u16),
        0x64 <= vk <= 0x66 ==> r == Some((vk - 0x64 + 75) as u16),
        0x67 <= vk <= 0x69 ==> r == Some((vk - 0x67 + 71) as u16),
{
    if 0x31 <= vk <= 0x39 {
        lemma_code_of(vk, r, vk - 0x31 + 2);
    }
    if 0x70 <= vk <= 0x79 {
        lemma_code_of(vk, r, vk - 0x70 + 59);
    }
    if 0x61 <= vk <= 0x63 {
        lemma_code_of(vk, r, vk - 0x61 + 79);
    }
    if 0x64 <= vk <= 0x66 {
        lemma_code_of(vk, r, vk - 0x64 + 75);
    }
    if 0x67 <= vk <= 0x69 {
        lemma_code_of(vk, r, vk - 0x67 + 71);
    }
}

/// A modifier without a side is the left one, and a modifier on the right is another key.
pub proof fn lemma_modifiers_have_a_side(vk: u16, r: Option<u16>)
    requires
        call_ensures(vk_to_evdev, (vk,), r),
    ensures
        vk == 0x10 || vk == 0xa0 ==> r == Some(42u16),
        vk == 0x11 || vk == 0xa2 ==> r == Some(29u16),
        vk == 0x12 || vk == 0xa4 ==> r == Some(56u16),
        vk == 0xa1 ==> r == Some(54u16),
        vk == 0xa3 ==> r == Some(97u16),
        vk == 0xa5 ==> r == Some(100u16),
{
    if vk == 0x10 || vk == 0xa0 {
        lemma_code_of(vk, r, 42);
    } else if vk == 0x11 || vk == 0xa2 {
        lemma_code_of(vk, r, 29);
    } else if vk == 0x12 || vk == 0xa4 {
        lemma_code_of(vk, r, 56);
    } else if vk == 0xa1 {
        lemma_code_of(vk, r, 54);
    } else if vk == 0xa3 {
        lemma_code_of(vk, r, 97);
    } else if vk == 0xa5 {
        lemma_code_of(vk, r, 100);
    }
}

/// The keys that stand alone.
pub proof fn lemma_single_keys(vk: u16, r: Option<u16>)
    requires
        call_ensures(vk_to_evdev, (vk,), r),
    ensures
        vk == 0x1b ==> r == Some(1u16),
        vk == 0x08 ==> r == Some(14u16),
        vk == 0x09 ==> r == Some(15u16),
        vk == 0x0d ==> r == Some(28u16),
        vk == 0x20 ==> r == Some(57u16),
        vk == 0x14 ==> r == Some(58u16),
        vk == 0xa1 ==> r == Some(54u16),
        vk == 0xa3 ==> r == Some(97u16),
        vk == 0xa5 ==> r == Some(100u16),
        vk == 0x5b ==> r == Some(125u16),
        vk == 0x5c ==> r == Some(126u16),
        vk == 0x5d ==> r == Some(127u16),
        vk == 0x25 ==> r == Some(105u16),
        vk == 0x26 ==> r == Some(103u16),
        vk == 0x27 ==> r == Some(106u16),
        vk == 0x28 ==> r == Some(108u16),
        vk == 0x24 ==> r == Some(102u16),
        vk == 0x23 ==> r == Some(107u16),
        vk == 0x21 ==> r == Some(104u16),
        vk == 0x22 ==> r == Some(109u16),
        vk == 0x2d ==> r == Some(110u16),
        vk == 0x2e ==> r == Some(111u16),
        vk == 0xbd ==> r == Some(12u16),
        vk == 0xbb ==> r == Some(13u16),
        vk == 0xdb ==> r == Some(26u16),
        vk == 0xdd ==> r == Some(27u16),
        vk == 0xba ==> r == Some(39u16),
        vk == 0xde ==> r == Some(40u16),
        vk == 0xc0 ==> r == Some(41u16),
        vk == 0xdc ==> r == Some(43u16),
        vk == 0xbc ==> r == Some(51u16),
        vk == 0xbe ==> r == Some(52u16),
        vk == 0xbf ==> r == Some(53u16),
        vk == 0x6a ==> r == Some(55u16),
        vk == 0x6b ==> r == Some(78u16),
        vk == 0x6d ==> r == Some(74u16),
        vk == 0x6e ==> r == Some(83u16),
        vk == 0x6f ==> r == Some(98u16),
        vk == 0x90 ==> r == Some(69u16),
        vk == 0x91 ==> r == Some(70u16),
        vk == 0x30 ==> r == Some(11u16),
        vk == 0x60 ==> r == Some(82u16),
        vk == 0x7a ==> r == Some(87u16),
        vk == 0x7b ==> r == Some(88u16),
        vk == 0 ==> r is None,
{
    if vk == 0x1b {
        lemma_code_of(vk, r, 1);
    } else if vk == 0x08 {
        lemma_code_of(vk, r, 14);
    } else if vk == 0x09 {
        lemma_code_of(vk, r, 15);
    } else if vk == 0x0d {
        lemma_code_of(vk, r, 28);
    } else if vk == 0x20 {
        lemma_code_of(vk, r, 57);
    } else if vk == 0x14 {
        lemma_code_of(vk, r, 58);
    } else if vk == 0xa1 {
        lemma_code_of(vk, r, 54);
    } else if vk == 0xa3 {
        lemma_code_of(vk, r, 97);
    } else if vk == 0xa5 {
        lemma_code_of(vk, r, 100);
    } else if vk == 0x5b {
        lemma_code_of(vk, r, 125);
    } else if vk == 0x5c {
        lemma_code_of(vk, r, 126);
    } else if vk == 0x5d {
        lemma_code_of(vk, r, 127);
    } else if vk == 0x25 {
        lemma_code_of(vk, r, 105);
    } else if vk == 0x26 {
        lemma_code_of(vk, r, 103);
    } else if vk == 0x27 {
        lemma_code_of(vk, r, 106);
    } else if vk == 0x28 {
        lemma_code_of(vk, r, 108);
    } else if vk == 0x24 {
        lemma_code_of(vk, r, 102);
    } else if vk == 0x23 {
        lemma_code_of(vk, r, 107);
    } else if vk == 0x21 {
        lemma_code_of(vk, r, 104);
    } else if vk == 0x22 {
        lemma_code_of(vk, r, 109);
    } else if vk == 0x2d {
        lemma_code_of(vk, r, 110);
    } else if vk == 0x2e {
        lemma_code_of(vk, r, 111);
    } else if vk == 0xbd {
        lemma_code_of(vk, r, 12);
    } else if vk == 0xbb {
        lemma_code_of(vk, r, 13);
    } else if vk == 0xdb {
        lemma_code_of(vk, r, 26);
    } else if vk == 0xdd {
        lemma_code_of(vk, r, 27);
    } else if vk == 0xba {
        lemma_code_of(vk, r, 39);
    } else if vk == 0xde {
        lemma_code_of(vk, r, 40);
    } else if vk == 0xc0 {
        lemma_code_of(vk, r, 41);
    } else if vk == 0xdc {
        lemma_code_of(vk, r, 43);
    } else if vk == 0xbc {
        lemma_code_of(vk, r, 51);
    } else if vk == 0xbe {
        lemma_code_of(vk, r, 52);
    } else if vk == 0xbf {
        lemma_code_of(vk, r, 53);
    } else if vk == 0x6a {
        lemma_code_of(vk, r, 55);
    } else if vk == 0x6b {
        lemma_code_of(vk, r, 78);
    } else if vk == 0x6d {
        lemma_code_of(vk, r, 74);
    } else if vk == 0x6e {
        lemma_code_of(vk, r, 83);
    } else if vk == 0x6f {
        lemma_code_of(vk, r, 98);
    } else if vk == 0x90 {
        lemma_code_of(vk, r, 69);
    } else if vk == 0x91 {
        lemma_code_of(vk, r, 70);
    } else if vk == 0x30 {
        lemma_code_of(vk, r, 11);
    } else if vk == 0x60 {
        lemma_code_of(vk, r, 82);
    } else if vk == 0x7a {
        lemma_code_of(vk, r, 87);
    } else if vk == 0x7b {
        lemma_code_of(vk, r, 88);
    }
}

} // verus!
