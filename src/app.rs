//! The editable list of candidates: selection, in-place editing, and the
//! dispatch of key presses.
use vstd::prelude::*;

use crate::ais::ShellCommand;
use crate::exec::{
    request_of_words, request_view, shell_words, spawn_request, CommandError, SpawnRequest,
};
use crate::text::{chars_of, string_from_chars, strings_view};

verus! {

/// Browsing the list, or editing the selected candidate.
#[derive(Debug, Clone, Copy, PartialEq, Eq, Structural)]
pub enum InputMode {
    Normal,
    Editing,
}

/// The state of the list, as the contracts see it.
pub struct ListModel {
    pub items: Seq<Seq<char>>,
    pub selected: Option<int>,
    pub cursor: int,
    pub editing: bool,
}

/// The selection is in bounds, the cursor within the selected candidate, and
/// editing needs a selection.
pub open spec fn model_wf(m: ListModel) -> bool {
    &&& 0 <= m.cursor
    &&& (m.selected matches Some(i) ==> 0 <= i < m.items.len() && m.cursor <= m.items[i].len())
    &&& (m.editing ==> m.selected is Some)
}

/// A list with `items`: the first candidate selected, if there is one, with
/// the cursor at the start.
pub open spec fn initial_model(items: Seq<Seq<char>>) -> ListModel {
    if items.len() == 0 {
        ListModel { items, selected: None, cursor: 0, editing: false }
    } else {
        ListModel { items, selected: Some(0), cursor: 0, editing: false }
    }
}

/// Selects candidate `i`, with the cursor at its end.
pub open spec fn select_model(m: ListModel, i: int) -> ListModel {
    ListModel { selected: Some(i), cursor: m.items[i].len() as int, ..m }
}

/// One step forward, from the last candidate round to the first; the first
/// candidate where none is selected.
pub open spec fn next_model(m: ListModel) -> ListModel {
    if m.items.len() == 0 {
        m
    } else {
        match m.selected {
            None => select_model(m, 0),
            Some(i) => select_model(m, (i + 1) % (m.items.len() as int)),
        }
    }
}

/// One step back, from the first candidate round to the last; the first
/// candidate where none is selected.
pub open spec fn previous_model(m: ListModel) -> ListModel {
    if m.items.len() == 0 {
        m
    } else {
        match m.selected {
            None => select_model(m, 0),
            Some(i) => select_model(m, (i + m.items.len() - 1) % (m.items.len() as int)),
        }
    }
}

pub open spec fn enter_edit_model(m: ListModel) -> Result<ListModel, CommandError> {
    if m.selected is Some {
        Ok(ListModel { editing: true, ..m })
    } else {
        Err(CommandError::NoSelection)
    }
}

pub open spec fn exit_edit_model(m: ListModel) -> ListModel {
    ListModel { editing: false, ..m }
}

/// While editing: `c` goes in at the cursor, and the cursor after it.
pub open spec fn insert_model(m: ListModel, c: char) -> ListModel {
    if m.editing {
        let i = m.selected->0;
        ListModel {
            items: m.items.update(i, m.items[i].insert(m.cursor, c)),
            cursor: m.cursor + 1,
            ..m
        }
    } else {
        m
    }
}

/// While editing, with the cursor past the start: the character before the
/// cursor goes, and the cursor one step back.
pub open spec fn delete_model(m: ListModel) -> ListModel {
    if m.editing && m.cursor > 0 {
        let i = m.selected->0;
        ListModel {
            items: m.items.update(i, m.items[i].remove(m.cursor - 1)),
            cursor: m.cursor - 1,
            ..m
        }
    } else {
        m
    }
}

pub open spec fn left_model(m: ListModel) -> ListModel {
    if m.editing && m.cursor > 0 {
        ListModel { cursor: m.cursor - 1, ..m }
    } else {
        m
    }
}

pub open spec fn right_model(m: ListModel) -> ListModel {
    if m.editing && m.cursor < m.items[m.selected->0].len() {
        ListModel { cursor: m.cursor + 1, ..m }
    } else {
        m
    }
}

/// New candidates. Without `preserve`, or with no candidates, nothing stays
/// selected. With it, the selection stays at its index where that index is
/// still in the list, with the cursor clamped to the candidate; else it moves
/// to the last candidate, with the cursor at its end.
pub open spec fn replace_model(m: ListModel, items: Seq<Seq<char>>, preserve: bool) -> ListModel {
    if !preserve || items.len() == 0 || m.selected is None {
        ListModel { items, selected: None, cursor: 0, editing: false }
    } else {
        let i = m.selected->0;
        if i < items.len() {
            ListModel {
                items,
                selected: Some(i),
                cursor: if m.cursor <= items[i].len() {
                    m.cursor
                } else {
                    items[i].len() as int
                },
                editing: m.editing,
            }
        } else {
            let last = items.len() - 1;
            ListModel {
                items,
                selected: Some(last),
                cursor: items[last].len() as int,
                editing: m.editing,
            }
        }
    }
}

/// The text of the selected candidate, edits included.
pub open spec fn finalize_model(m: ListModel) -> Result<Seq<char>, CommandError> {
    match m.selected {
        Some(i) => Ok(m.items[i]),
        None => Err(CommandError::NoSelection),
    }
}

/// The process that the selected candidate starts.
pub open spec fn execute_model(m: ListModel) -> Result<(Seq<char>, Seq<Seq<char>>), CommandError> {
    match finalize_model(m) {
        Ok(t) => request_of_words(shell_words(t)),
        Err(e) => Err(e),
    }
}

/// A key press, as the list reads it.
#[derive(Debug, Clone, Copy, PartialEq, Eq, Structural)]
pub enum Key {
    Char(char),
    Up,
    Down,
    Left,
    Right,
    Enter,
    Esc,
    Backspace,
    Other,
}

/// What the event loop does after a key press.
#[derive(Debug, Clone, Copy, PartialEq, Eq, Structural)]
pub enum Action {
    /// Draw the list again and wait for the next key.
    Continue,
    /// Stop without starting anything.
    Quit,
    /// Start the selected candidate and stop; only given while one is selected.
    Execute,
}

/// The effect of a key press: the new state and what the loop does next.
pub open spec fn dispatch_model(m: ListModel, key: Key) -> (ListModel, Action) {
    if !m.editing {
        match key {
            Key::Char('q') => (m, Action::Quit),
            Key::Char('e') => (
                match enter_edit_model(m) {
                    Ok(n) => n,
                    Err(_) => m,
                },
                Action::Continue,
            ),
            Key::Down => (next_model(m), Action::Continue),
            Key::Up => (previous_model(m), Action::Continue),
            Key::Enter => (m, if m.selected is Some {
                Action::Execute
            } else {
                Action::Continue
            }),
            _ => (m, Action::Continue),
        }
    } else {
        match key {
            Key::Enter => (m, Action::Execute),
            Key::Char(c) => (insert_model(m, c), Action::Continue),
            Key::Backspace => (delete_model(m), Action::Continue),
            Key::Left => (left_model(m), Action::Continue),
            Key::Right => (right_model(m), Action::Continue),
            Key::Esc => (exit_edit_model(m), Action::Continue),
            _ => (m, Action::Continue),
        }
    }
}

pub open spec fn text_view(r: Result<String, CommandError>) -> Result<Seq<char>, CommandError> {
    match r {
        Ok(t) => Ok(t@),
        Err(e) => Err(e),
    }
}

/// Navigation wraps round: from the last candidate `next` goes to the first,
/// and from the first `previous` goes to the last.
pub proof fn lemma_navigation_wraps(m: ListModel)
    requires
        model_wf(m),
        m.items.len() > 0,
    ensures
        m.selected == Some(m.items.len() - 1) ==> next_model(m).selected == Some(0int),
        m.selected == Some(0int) ==> previous_model(m).selected == Some(m.items.len() - 1),
{
    let n = m.items.len() as int;
    vstd::arithmetic::div_mod::lemma_mod_self_0(n);
    vstd::arithmetic::div_mod::lemma_small_mod((n - 1) as nat, n as nat);
}

/// On an empty list every operation leaves the state as it is, and those that
/// need a selection fail with `NoSelection`; no key press starts a command.
pub proof fn lemma_empty_list_is_safe(m: ListModel, c: char, key: Key)
    requires
        model_wf(m),
        m.items.len() == 0,
    ensures
        next_model(m) == m,
        previous_model(m) == m,
        enter_edit_model(m) == Err::<ListModel, CommandError>(CommandError::NoSelection),
        exit_edit_model(m) == m,
        insert_model(m, c) == m,
        delete_model(m) == m,
        left_model(m) == m,
        right_model(m) == m,
        finalize_model(m) == Err::<Seq<char>, CommandError>(CommandError::NoSelection),
        execute_model(m) == Err::<(Seq<char>, Seq<Seq<char>>), CommandError>(
            CommandError::NoSelection,
        ),
        dispatch_model(m, key) == (m, if key == Key::Char('q') {
            Action::Quit
        } else {
            Action::Continue
        }),
{
}

/// While editing, inserting a character and deleting backward gives back the
/// same state, text and cursor.
pub proof fn lemma_insert_then_delete(m: ListModel, c: char)
    requires
        model_wf(m),
        m.editing,
    ensures
        delete_model(insert_model(m, c)) == m,
{
    let i = m.selected->0;
    let t = m.items[i];
    assert(t.insert(m.cursor, c).remove(m.cursor) =~= t);
    assert(m.items.update(i, t.insert(m.cursor, c)).update(i, t) =~= m.items);
}

/// A fresh list keeps the state well formed: the selection stays in bounds,
/// and with `preserve` a selection past the end moves to the last candidate.
pub proof fn lemma_replace_keeps_bounds(m: ListModel, items: Seq<Seq<char>>, preserve: bool)
    requires
        model_wf(m),
    ensures
        model_wf(replace_model(m, items, preserve)),
        preserve && items.len() > 0 && m.selected is Some ==> replace_model(
            m,
            items,
            preserve,
        ).selected == Some(
            if m.selected->0 < items.len() {
                m.selected->0
            } else {
                items.len() - 1
            },
        ),
        items.len() == 0 ==> replace_model(m, items, preserve).selected is None,
{
}

/// A list made with `new` is well formed.
pub proof fn lemma_initial_well_formed(items: Seq<Seq<char>>)
    ensures
        model_wf(initial_model(items)),
{
}

/// The editable list of candidates.
pub struct App {
    input_mode: InputMode,
    items: ShellCommand,
    position: usize,
    selected: Option<usize>,
}

impl View for App {
    type V = ListModel;

    closed spec fn view(&self) -> ListModel {
        ListModel {
            items: self.items@,
            selected: match self.selected {
                Some(i) => Some(i as int),
                None => None,
            },
            cursor: self.position as int,
            editing: self.input_mode == InputMode::Editing,
        }
    }
}

impl App {
    #[verifier::type_invariant]
    closed spec fn well_formed(self) -> bool {
        model_wf(self@)
    }

    /// The number of characters of candidate `i`.
    fn item_len(&self, i: usize) -> (r: usize)
        requires
            i < self@.items.len(),
        ensures
            r == self@.items[i as int].len(),
    {
        let v = chars_of(self.items.commands[i].as_str());
        v.len()
    }

    /// A list over `input`, browsing, its first candidate selected if it has
    /// one, with the cursor at the start.
    pub fn new(input: ShellCommand) -> (r: App)
        ensures
            r@ == initial_model(input@),
    {
        if input.len() == 0 {
            App { input_mode: InputMode::Normal, items: input, position: 0, selected: None }
        } else {
            App { input_mode: InputMode::Normal, items: input, position: 0, selected: Some(0) }
        }
    }

    pub fn input_mode(&self) -> (r: InputMode)
        ensures
            r == InputMode::Editing <==> self@.editing,
    {
        self.input_mode
    }

    pub fn items(&self) -> (r: &ShellCommand)
        ensures
            r@ == self@.items,
    {
        &self.items
    }

    /// The cursor, as a character offset into the selected candidate.
    pub fn position(&self) -> (r: usize)
        ensures
            r == self@.cursor,
    {
        self.position
    }

    pub fn selected(&self) -> (r: Option<usize>)
        ensures
            r matches Some(i) ==> self@.selected == Some(i as int),
            r is None ==> self@.selected is None,
    {
        self.selected
    }

    fn select(&mut self, i: usize)
        requires
            i < old(self)@.items.len(),
        ensures
            final(self)@ == select_model(old(self)@, i as int),
    {
        proof {
            use_type_invariant(&*self);
        }
        let n = self.item_len(i);
        self.position = 0;
        self.selected = Some(i);
        self.position = n;
    }

    /// Selects the next candidate, round to the first after the last.
    pub fn next(&mut self)
        ensures
            final(self)@ == next_model(old(self)@),
    {
        proof {
            use_type_invariant(&*self);
        }
        let n = self.items.len();
        if n > 0 {
            match self.selected {
                None => self.select(0),
                Some(i) => {
                    if i + 1 >= n {
                        assert((i + 1) % (n as int) == 0) by {
                            vstd::arithmetic::div_mod::lemma_mod_self_0(n as int);
                        }
                        self.select(0);
                    } else {
                        assert((i + 1) % (n as int) == i + 1) by {
                            vstd::arithmetic::div_mod::lemma_small_mod((i + 1) as nat, n as nat);
                        }
                        self.select(i + 1);
                    }
                },
            }
        }
    }

    /// Puts `t` in place of the selected candidate `i`, with the cursor at `position`.
    fn set_item(&mut self, i: usize, t: String, position: usize)
        requires
            old(self)@.selected == Some(i as int),
            position <= t@.len(),
        ensures
            final(self)@ == (ListModel {
                items: old(self)@.items.update(i as int, t@),
                cursor: position as int,
                ..old(self)@
            }),
    {
        proof {
            use_type_invariant(&*self);
        }
        let mut whole = App {
            input_mode: InputMode::Normal,
            items: ShellCommand::new(),
            position: 0,
            selected: None,
        };
        core::mem::swap(self, &mut whole);
        let App { input_mode, mut items, position: _, selected } = whole;
        items.commands.set(i, t);
        proof {
            assert(strings_view(items.commands@) =~= old(self)@.items.update(i as int, t@));
        }
        *self = App { input_mode, items, position, selected };
    }

    /// Selects the previous candidate, round to the last before the first.
    pub fn previous(&mut self)
        ensures
            final(self)@ == previous_model(old(self)@),
    {
        proof {
            use_type_invariant(&*self);
        }
        let n = self.items.len();
        if n > 0 {
            match self.selected {
                None => self.select(0),
                Some(i) => {
                    if i == 0 {
                        assert((n - 1) % (n as int) == n - 1) by {
                            vstd::arithmetic::div_mod::lemma_small_mod((n - 1) as nat, n as nat);
                        }
                        self.select(n - 1);
                    } else {
                        assert((i + n - 1) % (n as int) == i - 1) by {
                            vstd::arithmetic::div_mod::lemma_mod_add_multiples_vanish(
                                i - 1,
                                n as int,
                            );
                            vstd::arithmetic::div_mod::lemma_small_mod((i - 1) as nat, n as nat);
                        }
                        self.select(i - 1);
                    }
                },
            }
        }
    }

    /// Starts editing the selected candidate; fails where none is selected.
    pub fn enter_edit_mode(&mut self) -> (r: Result<(), CommandError>)
        ensures
            match enter_edit_model(old(self)@) {
                Ok(m) => r is Ok && final(self)@ == m,
                Err(e) => r == Err::<(), CommandError>(e) && final(self)@ == old(self)@,
            },
    {
        proof {
            use_type_invariant(&*self);
        }
        if self.selected.is_some() {
            self.input_mode = InputMode::Editing;
            Ok(())
        } else {
            Err(CommandError::NoSelection)
        }
    }

    /// Back to browsing; the cursor stays where it is.
    pub fn exit_edit_mode(&mut self)
        ensures
            final(self)@ == exit_edit_model(old(self)@),
    {
        proof {
            use_type_invariant(&*self);
        }
        self.input_mode = InputMode::Normal;
    }

    /// While editing, puts `c` at the cursor and moves the cursor past it.
    pub fn insert_char(&mut self, c: char)
        ensures
            final(self)@ == insert_model(old(self)@, c),
    {
        proof {
            use_type_invariant(&*self);
        }
        if let InputMode::Editing = self.input_mode {
            if let Some(i) = self.selected {
                let mut v = chars_of(self.items.commands[i].as_str());
                v.insert(self.position, c);
                let n = v.len();
                let t = string_from_chars(&v, 0, n);
                assert(v@.subrange(0, n as int) =~= v@);
                let p = self.position + 1;
                self.set_item(i, t, p);
                assert(self@.items =~= old(self)@.items.update(
                    i as int,
                    old(self)@.items[i as int].insert(old(self)@.cursor, c),
                ));
            }
        }
    }

    /// While editing, removes the character before the cursor and moves the
    /// cursor back over it.
    pub fn delete_char_backward(&mut self)
        ensures
            final(self)@ == delete_model(old(self)@),
    {
        proof {
            use_type_invariant(&*self);
        }
        if let InputMode::Editing = self.input_mode {
            if let Some(i) = self.selected {
                if self.position > 0 {
                    let mut v = chars_of(self.items.commands[i].as_str());
                    let p = self.position - 1;
                    v.remove(p);
                    let n = v.len();
                    let t = string_from_chars(&v, 0, n);
                    assert(v@.subrange(0, n as int) =~= v@);
                    self.set_item(i, t, p);
                    assert(self@.items =~= old(self)@.items.update(
                        i as int,
                        old(self)@.items[i as int].remove(p as int),
                    ));
                }
            }
        }
    }

    /// While editing, one character left, not past the start.
    pub fn move_cursor_left(&mut self)
        ensures
            final(self)@ == left_model(old(self)@),
    {
        proof {
            use_type_invariant(&*self);
        }
        if let InputMode::Editing = self.input_mode {
            if self.position > 0 {
                self.position = self.position - 1;
            }
        }
    }

    /// While editing, one character right, not past the end.
    pub fn move_cursor_right(&mut self)
        ensures
            final(self)@ == right_model(old(self)@),
    {
        proof {
            use_type_invariant(&*self);
        }
        if let InputMode::Editing = self.input_mode {
            if let Some(i) = self.selected {
                if self.position < self.item_len(i) {
                    self.position = self.position + 1;
                }
            }
        }
    }

    /// Takes a fresh list of candidates and clamps the selection and the
    /// cursor to it.
    pub fn replace_items(&mut self, items: ShellCommand, preserve_selection: bool)
        ensures
            final(self)@ == replace_model(old(self)@, items@, preserve_selection),
    {
        proof {
            use_type_invariant(&*self);
        }
        let mode = self.input_mode;
        let kept = self.selected;
        let cursor = self.position;
        self.input_mode = InputMode::Normal;
        self.selected = None;
        self.position = 0;
        self.items = items;
        let n = self.items.len();
        if preserve_selection && n > 0 {
            if let Some(i) = kept {
                if i < n {
                    let len = self.item_len(i);
                    self.selected = Some(i);
                    if cursor <= len {
                        self.position = cursor;
                    } else {
                        self.position = len;
                    }
                } else {
                    self.select(n - 1);
                }
                self.input_mode = mode;
            }
        }
    }

    /// The text of the selected candidate, with its edits.
    pub fn finalize_selection(&self) -> (r: Result<String, CommandError>)
        ensures
            text_view(r) == finalize_model(self@),
    {
        proof {
            use_type_invariant(&*self);
        }
        match self.selected {
            Some(i) => Ok(self.items.commands[i].clone()),
            None => Err(CommandError::NoSelection),
        }
    }

    /// The process that the selected candidate starts, its words split by
    /// POSIX shell quoting.
    pub fn execute(&self) -> (r: Result<SpawnRequest, CommandError>)
        ensures
            request_view(r) == execute_model(self@),
    {
        proof {
            use_type_invariant(&*self);
        }
        match self.selected {
            Some(i) => spawn_request(self.items.commands[i].as_str()),
            None => Err(CommandError::NoSelection),
        }
    }

    /// Applies a key press and says what the event loop does next.
    pub fn handle_key(&mut self, key: Key) -> (r: Action)
        ensures
            (final(self)@, r) == dispatch_model(old(self)@, key),
    {
        match self.input_mode {
            InputMode::Normal => match key {
                Key::Char('q') => Action::Quit,
                Key::Char('e') => {
                    let _ = self.enter_edit_mode();
                    Action::Continue
                },
                Key::Down => {
                    self.next();
                    Action::Continue
                },
                Key::Up => {
                    self.previous();
                    Action::Continue
                },
                Key::Enter => {
                    if self.selected.is_some() {
                        Action::Execute
                    } else {
                        Action::Continue
                    }
                },
                _ => Action::Continue,
            },
            InputMode::Editing => match key {
                Key::Enter => Action::Execute,
                Key::Char(c) => {
                    self.insert_char(c);
                    Action::Continue
                },
                Key::Backspace => {
                    self.delete_char_backward();
                    Action::Continue
                },
                Key::Left => {
                    self.move_cursor_left();
                    Action::Continue
                },
                Key::Right => {
                    self.move_cursor_right();
                    Action::Continue
                },
                Key::Esc => {
                    self.exit_edit_mode();
                    Action::Continue
                },
                _ => Action::Continue,
            },
        }
    }
}

} // verus!
