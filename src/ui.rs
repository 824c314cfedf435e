//! What the terminal frame shows of the list: the key legend, the rows and
//! where the cursor goes.
use vstd::prelude::*;

use crate::app::{App, InputMode};
use crate::text::chars_of;

verus! {

/// The legend of the keys for a mode: pieces of text, each marked bold or not.
pub open spec fn legend_of(mode: InputMode) -> Seq<(Seq<char>, bool)> {
    match mode {
        InputMode::Normal => seq![
            ("Press "@, false),
            ("q"@, true),
            (" to exit, "@, false),
            ("Enter"@, true),
            (" to execute, "@, false),
            ("e"@, true),
            (" to start editing."@, false),
        ],
        InputMode::Editing => seq![
            ("Press "@, false),
            ("Esc"@, true),
            (" to stop editing, "@, false),
            ("Enter"@, true),
            (" to execute"@, false),
        ],
    }
}

pub open spec fn pieces_view(v: Seq<(String, bool)>) -> Seq<(Seq<char>, bool)> {
    v.map_values(|p: (String, bool)| (p.0@, p.1))
}

fn piece(text: &str, bold: bool) -> (r: (String, bool))
    ensures
        r.0@ == text@,
        r.1 == bold,
{
    (text.to_owned(), bold)
}

/// The legend of the keys that `mode` takes.
pub fn legend(mode: InputMode) -> (r: Vec<(String, bool)>)
    ensures
        pieces_view(r@) == legend_of(mode),
{
    let r = match mode {
        InputMode::Normal => vec![
            piece("Press ", false),
            piece("q", true),
            piece(" to exit, ", false),
            piece("Enter", true),
            piece(" to execute, ", false),
            piece("e", true),
            piece(" to start editing.", false),
        ],
        InputMode::Editing => vec![
            piece("Press ", false),
            piece("Esc", true),
            piece(" to stop editing, ", false),
            piece("Enter", true),
            piece(" to execute", false),
        ],
    };
    assert(pieces_view(r@) =~= legend_of(mode));
    r
}

/// The legend blinks while browsing.
pub fn legend_blinks(mode: InputMode) -> (r: bool)
    ensures
        r == (mode == InputMode::Normal),
{
    match mode {
        InputMode::Normal => true,
        InputMode::Editing => false,
    }
}

/// How often `c` occurs in `s`.
pub open spec fn count_of(s: Seq<char>, c: char) -> nat
    decreases s.len(),
{
    if s.len() == 0 {
        0
    } else {
        count_of(s.drop_last(), c) + if s.last() == c {
            1nat
        } else {
            0nat
        }
    }
}

proof fn lemma_count_bounded(s: Seq<char>, c: char)
    ensures
        count_of(s, c) <= s.len(),
    decreases s.len(),
{
    if s.len() > 0 {
        lemma_count_bounded(s.drop_last(), c);
    }
}

/// The height of the row of a candidate: one line, and one more for each `#`
/// in it, as far as a terminal cell count goes.
pub fn row_height(item: &str) -> (r: u16)
    ensures
        r == if count_of(item@, '#') + 1 <= u16::MAX {
            count_of(item@, '#') + 1
        } else {
            u16::MAX as nat
        },
{
    let v = chars_of(item);
    let mut n: usize = 0;
    let mut i: usize = 0;
    assert(v@.subrange(0, 0) =~= Seq::<char>::empty());
    while i < v.len()
        invariant
            i <= v.len(),
            n == count_of(v@.subrange(0, i as int), '#'),
        decreases v.len() - i,
    {
        proof {
            assert(v@.subrange(0, i + 1).drop_last() =~= v@.subrange(0, i as int));
            lemma_count_bounded(v@.subrange(0, i as int), '#');
        }
        if v[i] == '#' {
            n = n + 1;
        }
        i = i + 1;
    }
    assert(v@.subrange(0, i as int) =~= item@);
    if n < u16::MAX as usize {
        (n + 1) as u16
    } else {
        u16::MAX
    }
}

/// Where the cursor goes while editing, for a list whose border starts at
/// column `left` and line `top`: past the border and `cursor` characters in,
/// on the line of the selected row (each row two lines high). `None` while
/// browsing, and where the cell lies beyond what a terminal addresses.
pub open spec fn cursor_cell_of(m: crate::app::ListModel, left: u16, top: u16) -> Option<(u16, u16)> {
    if m.editing && m.selected is Some {
        let x = left + 1 + m.cursor;
        let y = top + 1 + 2 * m.selected->0;
        if x <= u16::MAX && y <= u16::MAX {
            Some((x as u16, y as u16))
        } else {
            None
        }
    } else {
        None
    }
}

impl App {
    pub fn cursor_cell(&self, left: u16, top: u16) -> (r: Option<(u16, u16)>)
        ensures
            r == cursor_cell_of(self@, left, top),
    {
        match (self.input_mode(), self.selected()) {
            (InputMode::Editing, Some(i)) => {
                let room_x = (u16::MAX - left) as usize;
                let room_y = (u16::MAX - top) as usize;
                let p = self.position();
                if p < room_x && i < room_y && 2 * i + 1 <= room_y {
                    Some(((left as usize + 1 + p) as u16, (top as usize + 1 + 2 * i) as u16))
                } else {
                    None
                }
            },
            _ => None,
        }
    }
}

} // verus!
