//! Keyboard input: what each scancode types, and the line editor of the console.
use crate::console::{backspaced, line_written, printed, sent, Console};
use vstd::prelude::*;
use vstd::string::StringSliceAdditionalSpecFns;

verus! {

/// The character a set-1 make scancode types, if any: letters, digits, space, enter,
/// backspace and the usual punctuation of a US layout.
pub open spec fn scancode_char(scancode: u8) -> Option<u8> {
    match scancode {
        0x1E => Some(97u8),
        0x30 => Some(98u8),
        0x2E => Some(99u8),
        0x20 => Some(100u8),
        0x12 => Some(101u8),
        0x21 => Some(102u8),
        0x22 => Some(103u8),
        0x23 => Some(104u8),
        0x17 => Some(105u8),
        0x24 => Some(106u8),
        0x25 => Some(107u8),
        0x26 => Some(108u8),
        0x32 => Some(109u8),
        0x31 => Some(110u8),
        0x18 => Some(111u8),
        0x19 => Some(112u8),
        0x10 => Some(113u8),
        0x13 => Some(114u8),
        0x1F => Some(115u8),
        0x14 => Some(116u8),
        0x16 => Some(117u8),
        0x2F => Some(118u8),
        0x11 => Some(119u8),
        0x2D => Some(120u8),
        0x15 => Some(121u8),
        0x2C => Some(122u8),
        0x02 => Some(49u8),
        0x03 => Some(50u8),
        0x04 => Some(51u8),
        0x05 => Some(52u8),
        0x06 => Some(53u8),
        0x07 => Some(54u8),
        0x08 => Some(55u8),
        0x09 => Some(56u8),
        0x0A => Some(57u8),
        0x0B => Some(48u8),
        0x39 => Some(32u8),
        0x1C => Some(10u8),
        0x0E => Some(8u8),
        0x33 => Some(44u8),
        0x34 => Some(46u8),
        0x35 => Some(47u8),
        0x27 => Some(59u8),
        0x28 => Some(39u8),
        0x1A => Some(91u8),
        0x1B => Some(93u8),
        0x2B => Some(92u8),
        0x0C => Some(45u8),
        0x0D => Some(61u8),
        _ => None,
    }
}

/// The character a scancode types, if any.
pub fn scancode_to_char(scancode: u8) -> (c: Option<u8>)
    ensures
        c == scancode_char(scancode),
{
    match scancode {
        0x1E => Some(97u8),
        0x30 => Some(98u8),
        0x2E => Some(99u8),
        0x20 => Some(100u8),
        0x12 => Some(101u8),
        0x21 => Some(102u8),
        0x22 => Some(103u8),
        0x23 => Some(104u8),
        0x17 => Some(105u8),
        0x24 => Some(106u8),
        0x25 => Some(107u8),
        0x26 => Some(108u8),
        0x32 => Some(109u8),
        0x31 => Some(110u8),
        0x18 => Some(111u8),
        0x19 => Some(112u8),
        0x10 => Some(113u8),
        0x13 => Some(114u8),
        0x1F => Some(115u8),
        0x14 => Some(116u8),
        0x16 => Some(117u8),
        0x2F => Some(118u8),
        0x11 => Some(119u8),
        0x2D => Some(120u8),
        0x15 => Some(121u8),
        0x2C => Some(122u8),
        0x02 => Some(49u8),
        0x03 => Some(50u8),
        0x04 => Some(51u8),
        0x05 => Some(52u8),
        0x06 => Some(53u8),
        0x07 => Some(54u8),
        0x08 => Some(55u8),
        0x09 => Some(56u8),
        0x0A => Some(57u8),
        0x0B => Some(48u8),
        0x39 => Some(32u8),
        0x1C => Some(10u8),
        0x0E => Some(0x08),
        0x33 => Some(44u8),
        0x34 => Some(46u8),
        0x35 => Some(47u8),
        0x27 => Some(59u8),
        0x28 => Some(39u8),
        0x1A => Some(91u8),
        0x1B => Some(93u8),
        0x2B => Some(92u8),
        0x0C => Some(45u8),
        0x0D => Some(61u8),
        _ => None,
    }
}

/// The scancode whose key types `c` (0 for a character no key types).
spec fn key_typing(c: u8) -> u8 {
    match c {
        97u8 => 0x1E,
        98u8 => 0x30,
        99u8 => 0x2E,
        100u8 => 0x20,
        101u8 => 0x12,
        102u8 => 0x21,
        103u8 => 0x22,
        104u8 => 0x23,
        105u8 => 0x17,
        106u8 => 0x24,
        107u8 => 0x25,
        108u8 => 0x26,
        109u8 => 0x32,
        110u8 => 0x31,
        111u8 => 0x18,
        112u8 => 0x19,
        113u8 => 0x10,
        114u8 => 0x13,
        115u8 => 0x1F,
        116u8 => 0x14,
        117u8 => 0x16,
        118u8 => 0x2F,
        119u8 => 0x11,
        120u8 => 0x2D,
        121u8 => 0x15,
        122u8 => 0x2C,
        49u8 => 0x02,
        50u8 => 0x03,
        51u8 => 0x04,
        52u8 => 0x05,
        53u8 => 0x06,
        54u8 => 0x07,
        55u8 => 0x08,
        56u8 => 0x09,
        57u8 => 0x0A,
        48u8 => 0x0B,
        32u8 => 0x39,
        10u8 => 0x1C,
        8u8 => 0x0E,
        44u8 => 0x33,
        46u8 => 0x34,
        47u8 => 0x35,
        59u8 => 0x27,
        39u8 => 0x28,
        91u8 => 0x1A,
        93u8 => 0x1B,
        92u8 => 0x2B,
        45u8 => 0x0C,
        61u8 => 0x0D,
        _ => 0,
    }
}

proof fn lemma_key_typing(s: u8)
    ensures
        scancode_char(s) matches Some(c) ==> key_typing(c) == s,
{
}

/// The digit row of a US keyboard, left to right: `1234567890-=`.
pub open spec fn us_digit_row() -> Seq<u8> {
    seq![49u8, 50u8, 51u8, 52u8, 53u8, 54u8, 55u8, 56u8, 57u8, 48u8, 45u8, 61u8]
}

/// The top letter row of a US keyboard: `qwertyuiop[]`.
pub open spec fn us_top_row() -> Seq<u8> {
    seq![113u8, 119u8, 101u8, 114u8, 116u8, 121u8, 117u8, 105u8, 111u8, 112u8, 91u8, 93u8]
}

/// The middle letter row of a US keyboard: `asdfghjkl;'`.
pub open spec fn us_home_row() -> Seq<u8> {
    seq![97u8, 115u8, 100u8, 102u8, 103u8, 104u8, 106u8, 107u8, 108u8, 59u8, 39u8]
}

/// The bottom letter row of a US keyboard: `zxcvbnm,./`.
pub open spec fn us_bottom_row() -> Seq<u8> {
    seq![122u8, 120u8, 99u8, 118u8, 98u8, 110u8, 109u8, 44u8, 46u8, 47u8]
}

/// No two keys type the same character.
pub proof fn law_scancodes_distinct(a: u8, b: u8)
    requires
        scancode_char(a) is Some,
        scancode_char(a) == scancode_char(b),
    ensures
        a == b,
{
    lemma_key_typing(a);
    lemma_key_typing(b);
}

/// The keys follow the US layout, key after key along each row: the digit row types
/// `1234567890-=` from scancode 0x02 on, the letter rows type `qwertyuiop[]` from 0x10,
/// `asdfghjkl;'` from 0x1E and `zxcvbnm,./` from 0x2C; backspace (0x0E) types 8, the space
/// bar (0x39) a space, and the key left of `z` (0x2B) a backslash.
pub proof fn law_us_layout()
    ensures
        forall|i: int|
            0 <= i < 12 ==> scancode_char((0x02 + i) as u8) == Some(#[trigger] us_digit_row()[i]),
        forall|i: int|
            0 <= i < 12 ==> scancode_char((0x10 + i) as u8) == Some(#[trigger] us_top_row()[i]),
        forall|i: int|
            0 <= i < 11 ==> scancode_char((0x1E + i) as u8) == Some(#[trigger] us_home_row()[i]),
        forall|i: int|
            0 <= i < 10 ==> scancode_char((0x2C + i) as u8) == Some(#[trigger] us_bottom_row()[i]),
        scancode_char(0x0Eu8) == Some(8u8),
        scancode_char(0x39u8) == Some(32u8),
        scancode_char(0x2Bu8) == Some(92u8),
{
    let digits = us_digit_row();
    let top = us_top_row();
    let home = us_home_row();
    let bottom = us_bottom_row();
    assert forall|i: int| 0 <= i < 12 implies scancode_char((0x02 + i) as u8) == Some(#[trigger] digits[i]) by {
        assert(i == 0 || i == 1 || i == 2 || i == 3 || i == 4 || i == 5 || i == 6 || i == 7 || i == 8 || i == 9 || i == 10 || i == 11);
    }
    assert forall|i: int| 0 <= i < 12 implies scancode_char((0x10 + i) as u8) == Some(#[trigger] top[i]) by {
        assert(i == 0 || i == 1 || i == 2 || i == 3 || i == 4 || i == 5 || i == 6 || i == 7 || i == 8 || i == 9 || i == 10 || i == 11);
    }
    assert forall|i: int| 0 <= i < 11 implies scancode_char((0x1E + i) as u8) == Some(#[trigger] home[i]) by {
        assert(i == 0 || i == 1 || i == 2 || i == 3 || i == 4 || i == 5 || i == 6 || i == 7 || i == 8 || i == 9 || i == 10);
    }
    assert forall|i: int| 0 <= i < 10 implies scancode_char((0x2C + i) as u8) == Some(#[trigger] bottom[i]) by {
        assert(i == 0 || i == 1 || i == 2 || i == 3 || i == 4 || i == 5 || i == 6 || i == 7 || i == 8 || i == 9);
    }
}

/// Only the keys of those rows, Enter, backspace and the space bar type anything; every other
/// scancode (a key release among them) types nothing.
pub proof fn law_typing_keys(s: u8)
    ensures
        scancode_char(s) is Some <==> (0x02 <= s <= 0x0E || 0x10 <= s <= 0x1C || 0x1E <= s <= 0x28
            || 0x2B <= s <= 0x35 || s == 0x39),
{
}

/// Both line ends end a line: key 10 (what the Enter key types) and key 13 (what a serial
/// terminal sends), and no other key.
pub proof fn law_line_end_keys(key: u8)
    ensures
        is_enter(key) <==> (key == 10 || key == 13),
{
}

/// The Enter key, scancode 0x1C, types a character that ends a line, and it is the only key
/// that does.
pub proof fn law_enter_key(s: u8)
    ensures
        is_enter(10u8),
        scancode_char(0x1Cu8) == Some(10u8),
        (scancode_char(s) matches Some(c) && is_enter(c)) <==> s == 0x1C,
{
    lemma_key_typing(s);
}

/// Whether `key` ends a line.
pub open spec fn is_enter(key: u8) -> bool {
    key == 10 || key == 13
}

/// Whether `key` is a printable ASCII character.
pub open spec fn is_printable(key: u8) -> bool {
    32 <= key <= 126
}

/// The line after `key`: backspace drops the last character, a printable character is
/// appended, anything else is ignored.
pub open spec fn edited(line: Seq<u8>, key: u8) -> Seq<u8> {
    if key == 8 {
        if line.len() > 0 {
            line.drop_last()
        } else {
            line
        }
    } else if is_printable(key) && !is_enter(key) {
        line.push(key)
    } else {
        line
    }
}

/// The line typed by `keys`, none of them ending it.
pub open spec fn typed(keys: Seq<u8>) -> Seq<u8>
    decreases keys.len(),
{
    if keys.len() == 0 {
        Seq::empty()
    } else {
        edited(typed(keys.drop_last()), keys.last())
    }
}

/// Reads one line of at most `capacity` printable characters, a key at a time, echoing to
/// the console. Enter ends the line; so does filling it.
pub struct LineEditor {
    line: Vec<u8>,
    capacity: usize,
    finished: bool,
}

impl LineEditor {
    /// The characters of the line so far.
    pub closed spec fn text(&self) -> Seq<u8> {
        self.line@
    }

    /// The most characters the line holds.
    pub closed spec fn cap(&self) -> nat {
        self.capacity as nat
    }

    /// Whether enter ended the line.
    pub closed spec fn ended(&self) -> bool {
        self.finished
    }

    /// What the editor keeps true: the line fits and holds printable characters only.
    pub closed spec fn wf(&self) -> bool {
        &&& self.line@.len() <= self.capacity
        &&& forall|i: int| 0 <= i < self.line@.len() ==> is_printable(#[trigger] self.line@[i])
    }

    /// An empty line of at most `capacity` characters.
    pub fn new(capacity: usize) -> (e: Self)
        ensures
            e.wf(),
            e.text() == Seq::<u8>::empty(),
            e.cap() == capacity,
            !e.ended(),
    {
        LineEditor { line: Vec::new(), capacity, finished: false }
    }

    /// Whether the line is complete: enter was typed or the line is full.
    pub fn is_done(&self) -> (b: bool)
        ensures
            b == (self.ended() || self.text().len() >= self.cap()),
    {
        self.finished || self.line.len() >= self.capacity
    }

    /// Takes one key: enter ends the line and moves the console to a new row; backspace
    /// drops the last character and erases it on both outputs; a printable character is
    /// appended and echoed; anything else is ignored.
    pub fn feed_key(&mut self, key: u8, console: &mut Console)
        requires
            old(self).wf(),
            !old(self).ended(),
            old(self).text().len() < old(self).cap(),
            old(console).wf(),
        ensures
            final(self).wf(),
            final(console).wf(),
            final(self).cap() == old(self).cap(),
            final(self).ended() == is_enter(key),
            final(self).text() == if is_enter(key) {
                old(self).text()
            } else {
                edited(old(self).text(), key)
            },
            final(console)@ == if is_enter(key) {
                line_written(old(console)@, Seq::empty())
            } else if key == 8 {
                if old(self).text().len() > 0 {
                    backspaced(sent(old(console)@, seq![8u8, 32u8, 8u8]))
                } else {
                    old(console)@
                }
            } else if is_printable(key) {
                printed(sent(old(console)@, seq![key]), seq![key])
            } else {
                old(console)@
            },
    {
        if key == 10u8 || key == 13u8 {
            console.write_line("");
            proof {
                reveal_strlit("");
                assert("".spec_bytes() =~= Seq::<u8>::empty());
            }
            self.finished = true;
        } else if key == 0x08 {
            if self.line.len() > 0 {
                self.line.pop();
                console.write_byte(0x08);
                console.write_byte(32u8);
                console.write_byte(0x08);
                proof {
                    assert(seq![8u8].add(seq![32u8]).add(seq![8u8]) =~= seq![8u8, 32u8, 8u8]);
                    assert(old(console)@.serial + seq![8u8] + seq![32u8] + seq![8u8] =~= old(console)@.serial + seq![8u8, 32u8, 8u8]);
                }
                console.backspace_vga();
            }
        } else if key >= 32 && key <= 126 {
            self.line.push(key);
            console.write_byte(key);
            let one = [key];
            console.print_bytes(&one);
            assert(one@ =~= seq![key]);
        }
    }

    /// Hands out the characters of the line.
    pub fn into_line(self) -> (line: Vec<u8>)
        ensures
            line@ == self.text(),
    {
        self.line
    }
}

/// Backspace undoes a printable key: the key lands at the end of the line, one character
/// longer, and erasing it gives the line back; keys that are neither printable nor backspace
/// leave the line as it was, and backspace on an empty line does nothing.
pub proof fn law_backspace_undoes(line: Seq<u8>, key: u8)
    ensures
        is_printable(key) ==> edited(line, key).len() == line.len() + 1,
        is_printable(key) ==> edited(line, key).last() == key,
        is_printable(key) ==> edited(edited(line, key), 8u8) == line,
        !is_printable(key) && key != 8 ==> edited(line, key) == line,
        edited(Seq::<u8>::empty(), 8u8) == Seq::<u8>::empty(),
        line.len() > 0 ==> edited(line, 8u8).len() == line.len() - 1,
{
    if is_printable(key) {
        assert(line.push(key).drop_last() =~= line);
    }
}

/// The typed line is the fold of the keys: typing one more key edits the line typed so far.
pub proof fn law_typed_step(keys: Seq<u8>, key: u8)
    ensures
        typed(keys.push(key)) == edited(typed(keys), key),
{
    assert(keys.push(key).drop_last() =~= keys);
}

/// A typed line holds printable characters only, never an enter.
pub proof fn law_typed_printable(keys: Seq<u8>)
    ensures
        forall|i: int| 0 <= i < typed(keys).len() ==> is_printable(#[trigger] typed(keys)[i]) && !is_enter(typed(keys)[i]),
    decreases keys.len(),
{
    if keys.len() > 0 {
        let prev = typed(keys.drop_last());
        law_typed_printable(keys.drop_last());
        assert forall|i: int| 0 <= i < typed(keys).len() implies is_printable(
            #[trigger] typed(keys)[i],
        ) && !is_enter(typed(keys)[i]) by {
            if i < prev.len() {
                assert(typed(keys)[i] == prev[i]);
            }
        }
    }
}

} // verus!
