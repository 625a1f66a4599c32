//! The `HH:MM` input: four digit cells and a cursor, edited by keys.
use vstd::prelude::*;
use crate::text::{decimal, push_char, push_decimal};

verus! {

/// Four digit cells (hours tens, hours units, minutes tens, minutes units),
/// the cursor before cell `cursor` (4 = after the last), and focus.
pub struct TimeInputState {
    pub digits: [Option<u8>; 4],
    pub cursor: usize,
    pub focused: bool,
}

/// A key the input reacts to.
#[derive(Clone, Copy, PartialEq, Eq, Structural, Debug)]
pub enum TimeKey {
    Backspace,
    Delete,
    Left,
    Right,
    /// Enter or space.
    Confirm,
}

pub open spec fn cells_valid(d: Seq<Option<u8>>) -> bool {
    &&& d.len() == 4
    &&& d[0] is Some && d[1] is Some && d[2] is Some && d[3] is Some
    &&& d[0]->0 * 10 + d[1]->0 <= 23
    &&& d[2]->0 * 10 + d[3]->0 <= 59
}

/// `HHMM` digits shown as `H H : M M`, each cell in decimal.
pub open spec fn time_text(d: Seq<Option<u8>>) -> Seq<char> {
    decimal(d[0]->0 as nat) + decimal(d[1]->0 as nat) + seq![':'] + decimal(d[2]->0 as nat) + decimal(d[3]->0 as nat)
}

/// First empty cell, or 4 when all are filled.
pub open spec fn first_empty(d: Seq<Option<u8>>) -> int {
    if d[0] is None { 0 } else if d[1] is None { 1 } else if d[2] is None { 2 } else if d[3] is None { 3 } else { 4 }
}

/// The effect of one key on cells and cursor (and focus, for `Confirm`
/// past the hours).
pub open spec fn key_spec(d: Seq<Option<u8>>, cursor: int, focused: bool, k: TimeKey) -> (Seq<Option<u8>>, int, bool) {
    match k {
        TimeKey::Backspace => if cursor > 0 { (d.update(cursor - 1, None), cursor - 1, focused) } else { (d, cursor, focused) },
        TimeKey::Delete => if cursor < 4 { (d.update(cursor, None), cursor, focused) } else { (d, cursor, focused) },
        TimeKey::Left => if cursor > 0 { (d, cursor - 1, focused) } else { (d, cursor, focused) },
        TimeKey::Right => if cursor < 4 { (d, cursor + 1, focused) } else { (d, cursor, focused) },
        TimeKey::Confirm => if cursor <= 1 { (d, 2, focused) } else { (d, cursor, false) },
    }
}

/// Typing the characters of `t`: each decimal digit fills the cell at the
/// cursor and moves it on, while there is a cell left; other characters
/// do nothing.
pub open spec fn type_spec(d: Seq<Option<u8>>, cursor: int, t: Seq<char>) -> (Seq<Option<u8>>, int)
    decreases t.len(),
{
    if t.len() == 0 {
        (d, cursor)
    } else {
        let (d1, c1) = type_spec(d, cursor, t.drop_last());
        let ch = t.last();
        if '0' <= ch <= '9' && c1 < 4 {
            (d1.update(c1, Some((ch as int - '0' as int) as u8)), c1 + 1)
        } else {
            (d1, c1)
        }
    }
}

impl Default for TimeInputState {
    fn default() -> (r: Self)
        ensures
            r.digits@ == seq![None::<u8>, None, None, None],
            r.cursor == 0,
            !r.focused,
    {
        let r = TimeInputState { digits: [None, None, None, None], cursor: 0, focused: false };
        assert(r.digits@ =~= seq![None::<u8>, None, None, None]);
        r
    }
}

/// No digit typed, cursor at the start, not focused: a fresh input.
pub open spec fn is_fresh_input(t: TimeInputState) -> bool {
    &&& t.digits@ == seq![None::<u8>, None, None, None]
    &&& t.cursor == 0
    &&& !t.focused
}

impl TimeInputState {
    /// The cursor is on one of the five places.
    pub open spec fn wf(&self) -> bool {
        self.cursor <= 4
    }

    /// All four cells filled with hours up to 23 and minutes up to 59.
    pub fn is_valid(&self) -> (r: bool)
        ensures
            r == cells_valid(self.digits@),
    {
        match (self.digits[0], self.digits[1], self.digits[2], self.digits[3]) {
            (Some(h1), Some(h0), Some(m1), Some(m0)) =>
                (h1 as u16) * 10 + (h0 as u16) <= 23 && (m1 as u16) * 10 + (m0 as u16) <= 59,
            _ => false,
        }
    }

    /// The time as `HH:MM` text, when valid.
    pub fn to_time_string(&self) -> (r: Option<String>)
        ensures
            match r {
                Some(s) => cells_valid(self.digits@) && s@ == time_text(self.digits@),
                None => !cells_valid(self.digits@),
            },
    {
        if !self.is_valid() {
            return None;
        }
        let mut s = String::new();
        push_decimal(&mut s, self.digits[0].unwrap() as u64);
        push_decimal(&mut s, self.digits[1].unwrap() as u64);
        push_char(&mut s, ':');
        push_decimal(&mut s, self.digits[2].unwrap() as u64);
        push_decimal(&mut s, self.digits[3].unwrap() as u64);
        assert(s@ =~= time_text(self.digits@));
        Some(s)
    }

    /// Back to empty, unfocused.
    pub fn clear(&mut self)
        ensures
            final(self).digits@ == seq![None::<u8>, None, None, None],
            final(self).cursor == 0,
            !final(self).focused,
    {
        *self = TimeInputState::default();
    }

    /// A click that focuses the input puts the cursor on the first empty
    /// cell (after the last one when all are filled).
    pub fn focus(&mut self)
        ensures
            final(self).focused,
            final(self).cursor == first_empty(old(self).digits@),
            final(self).digits == old(self).digits,
    {
        self.focused = true;
        self.cursor = if self.digits[0].is_none() {
            0
        } else if self.digits[1].is_none() {
            1
        } else if self.digits[2].is_none() {
            2
        } else if self.digits[3].is_none() {
            3
        } else {
            4
        };
    }

    /// One key press.
    pub fn press(&mut self, k: TimeKey)
        requires
            old(self).wf(),
        ensures
            final(self).wf(),
            (final(self).digits@, final(self).cursor as int, final(self).focused)
                == key_spec(old(self).digits@, old(self).cursor as int, old(self).focused, k),
    {
        match k {
            TimeKey::Backspace => {
                if self.cursor > 0 {
                    self.cursor = self.cursor - 1;
                    self.digits.set(self.cursor, None);
                }
            },
            TimeKey::Delete => {
                if self.cursor < 4 {
                    self.digits.set(self.cursor, None);
                }
            },
            TimeKey::Left => {
                if self.cursor > 0 {
                    self.cursor = self.cursor - 1;
                }
            },
            TimeKey::Right => {
                if self.cursor < 4 {
                    self.cursor = self.cursor + 1;
                }
            },
            TimeKey::Confirm => {
                if self.cursor <= 1 {
                    self.cursor = 2;
                } else {
                    self.focused = false;
                }
            },
        }
    }

    /// Typed text.
    pub fn type_text(&mut self, text: &str)
        requires
            old(self).wf(),
        ensures
            final(self).wf(),
            (final(self).digits@, final(self).cursor as int) == type_spec(old(self).digits@, old(self).cursor as int, text@),
            final(self).focused == old(self).focused,
    {
        let n = text.unicode_len();
        let mut i: usize = 0;
        while i < n
            invariant
                n == text@.len(),
                i <= n,
                self.wf(),
                self.focused == old(self).focused,
                (self.digits@, self.cursor as int) == type_spec(old(self).digits@, old(self).cursor as int, text@.take(i as int)),
            decreases n - i,
        {
            assert(text@.take(i + 1).drop_last() =~= text@.take(i as int));
            assert(text@.take(i + 1).last() == text@[i as int]);
            let ch = text.get_char(i);
            if '0' <= ch && ch <= '9' && self.cursor < 4 {
                let d = (ch as u32 - '0' as u32) as u8;
                self.digits.set(self.cursor, Some(d));
                self.cursor = self.cursor + 1;
            }
            i = i + 1;
        }
        assert(text@.take(n as int) =~= text@);
    }
}

} // verus!
