//! The line editor: a key-event state machine over an editable buffer, a
//! cursor and an inline completion dropdown. Drawing is left to the caller,
//! which renders from the editor's state and the effect of each key.

use vstd::prelude::*;
use crate::completion::{
    complete_at, find_unique_match, is_capped_list, lemma_space_back_bounds,
    lemma_word_back_bounds, space_back, spaces_start, unique_match, word_back, word_start,
};
use crate::text::{chars_of, string_of, views};

verus! {

/// A key press, as far as the editor tells keys apart.
#[derive(Debug)]
pub enum Key {
    Char(char),
    Backspace,
    /// Ctrl+Backspace: delete the word before the cursor.
    DeleteWord,
    Left,
    Right,
    Up,
    Down,
    Tab,
    Enter,
    Esc,
}

/// What the caller has to redraw after a key.
#[derive(PartialEq, Eq, Structural, Clone, Copy, Debug)]
pub enum Effect {
    /// Nothing changed.
    Nothing,
    /// Only the cursor moved.
    MoveCursor,
    /// The buffer or the dropdown changed: redraw both.
    Redraw,
    /// Only the selected candidate changed.
    RedrawDropdown,
    /// The dropdown was closed; the buffer is unchanged.
    ClearDropdown,
    /// Enter was pressed: the line is final.
    Submit,
}

/// The editor as a mathematical value.
pub struct EditorView {
    pub buffer: Seq<char>,
    pub cursor: nat,
    pub candidates: Seq<Seq<char>>,
    pub selected: nat,
    pub dropdown: bool,
}

impl EditorView {
    /// The cursor stays within the buffer; the dropdown is visible exactly
    /// when there are candidates, and then the selection is one of them.
    pub open spec fn wf(self) -> bool {
        &&& self.cursor <= self.buffer.len()
        &&& self.dropdown <==> self.candidates.len() > 0
        &&& self.dropdown ==> self.selected < self.candidates.len()
        &&& !self.dropdown ==> self.selected == 0
    }

    /// The candidates were just recomputed for the buffer and cursor.
    pub open spec fn recomputed(self, names: Seq<Seq<char>>) -> bool {
        &&& is_capped_list(self.candidates, names, self.buffer, self.cursor as int)
        &&& self.selected == 0
        &&& self.dropdown == (self.candidates.len() > 0)
    }

    /// The dropdown is closed and empty.
    pub open spec fn cleared(self) -> bool {
        &&& self.candidates.len() == 0
        &&& !self.dropdown
        &&& self.selected == 0
    }

    /// The same buffer and cursor as `o`.
    pub open spec fn same_text(self, o: EditorView) -> bool {
        self.buffer == o.buffer && self.cursor == o.cursor
    }

    /// The same candidates, selection and visibility as `o`.
    pub open spec fn same_dropdown(self, o: EditorView) -> bool {
        &&& self.candidates == o.candidates
        &&& self.selected == o.selected
        &&& self.dropdown == o.dropdown
    }
}

/// A printable character is inserted at the cursor, which moves past it.
pub open spec fn after_insert(o: EditorView, n: EditorView, c: char, names: Seq<Seq<char>>) -> bool {
    &&& n.buffer == o.buffer.insert(o.cursor as int, c)
    &&& n.cursor == o.cursor + 1
    &&& n.recomputed(names)
}

/// Backspace removes the character before the cursor, if any.
pub open spec fn after_backspace(o: EditorView, n: EditorView, names: Seq<Seq<char>>) -> bool {
    if o.cursor > 0 {
        &&& n.buffer == o.buffer.remove(o.cursor - 1)
        &&& n.cursor == o.cursor - 1
        &&& n.recomputed(names)
    } else {
        n == o
    }
}

/// Where Ctrl+Backspace moves the cursor: back over whitespace, then back
/// over the word before it.
pub open spec fn delete_word_start(b: Seq<char>, cursor: int) -> int {
    word_back(b, space_back(b, cursor))
}

/// Ctrl+Backspace removes the trailing whitespace and the word before the
/// cursor.
pub open spec fn after_delete_word(o: EditorView, n: EditorView, names: Seq<Seq<char>>) -> bool {
    if o.cursor > 0 {
        let s = delete_word_start(o.buffer, o.cursor as int);
        &&& n.buffer == o.buffer.subrange(0, s) + o.buffer.subrange(o.cursor as int, o.buffer.len() as int)
        &&& n.cursor == s
        &&& n.recomputed(names)
    } else {
        n == o
    }
}

/// Left moves the cursor back by one, when it can.
pub open spec fn after_left(o: EditorView, n: EditorView) -> bool {
    if o.cursor > 0 {
        n == EditorView { cursor: (o.cursor - 1) as nat, ..o }
    } else {
        n == o
    }
}

/// Right moves the cursor forward by one, when it can.
pub open spec fn after_right(o: EditorView, n: EditorView) -> bool {
    if o.cursor < o.buffer.len() {
        n == EditorView { cursor: o.cursor + 1, ..o }
    } else {
        n == o
    }
}

/// Down selects the next candidate, wrapping around.
pub open spec fn after_next(o: EditorView, n: EditorView) -> bool {
    if o.dropdown {
        n == EditorView { selected: ((o.selected + 1) % o.candidates.len()) as nat, ..o }
    } else {
        n == o
    }
}

/// Up selects the previous candidate, wrapping around.
pub open spec fn after_previous(o: EditorView, n: EditorView) -> bool {
    if o.dropdown {
        let s = if o.selected == 0 { (o.candidates.len() - 1) as nat } else { (o.selected - 1) as nat };
        n == EditorView { selected: s, ..o }
    } else {
        n == o
    }
}

/// Accepting the selected candidate replaces the active token with it and
/// puts the cursor after it; the dropdown closes.
pub open spec fn after_accept(o: EditorView, n: EditorView) -> bool {
    let start = word_back(o.buffer, o.cursor as int);
    let cand = o.candidates[o.selected as int];
    &&& n.buffer == o.buffer.subrange(0, start) + cand + o.buffer.subrange(o.cursor as int, o.buffer.len() as int)
    &&& n.cursor == start + cand.len()
    &&& n.cleared()
}

/// Tab accepts the selection while the dropdown is visible; otherwise it
/// replaces the whole buffer by the one name that starts with it, if there is
/// exactly one, and else shows the candidates.
pub open spec fn after_tab(o: EditorView, n: EditorView, names: Seq<Seq<char>>) -> bool {
    if o.dropdown {
        after_accept(o, n)
    } else if exists|s: Seq<char>| unique_match(names, o.buffer, s) {
        &&& unique_match(names, o.buffer, n.buffer)
        &&& n.cursor == n.buffer.len()
        &&& n.cleared()
    } else {
        &&& n.same_text(o)
        &&& n.recomputed(names)
    }
}

/// Esc and Enter close the dropdown and keep the text.
pub open spec fn after_close(o: EditorView, n: EditorView) -> bool {
    n.same_text(o) && n.cleared()
}

/// The effect reported for a key, from the state before it.
pub open spec fn effect_of(o: EditorView, key: Key) -> Effect {
    match key {
        Key::Char(_) => Effect::Redraw,
        Key::Backspace => if o.cursor > 0 { Effect::Redraw } else { Effect::Nothing },
        Key::DeleteWord => if o.cursor > 0 { Effect::Redraw } else { Effect::Nothing },
        Key::Left => if o.cursor > 0 { Effect::MoveCursor } else { Effect::Nothing },
        Key::Right => if o.cursor < o.buffer.len() { Effect::MoveCursor } else { Effect::Nothing },
        Key::Up => if o.dropdown { Effect::RedrawDropdown } else { Effect::Nothing },
        Key::Down => if o.dropdown { Effect::RedrawDropdown } else { Effect::Nothing },
        Key::Tab => Effect::Redraw,
        Key::Enter => Effect::Submit,
        Key::Esc => if o.dropdown { Effect::ClearDropdown } else { Effect::Nothing },
    }
}

/// The transition table of the editor.
pub open spec fn step(o: EditorView, n: EditorView, key: Key, names: Seq<Seq<char>>) -> bool {
    match key {
        Key::Char(c) => after_insert(o, n, c, names),
        Key::Backspace => after_backspace(o, n, names),
        Key::DeleteWord => after_delete_word(o, n, names),
        Key::Left => after_left(o, n),
        Key::Right => after_right(o, n),
        Key::Up => after_previous(o, n),
        Key::Down => after_next(o, n),
        Key::Tab => after_tab(o, n, names),
        Key::Enter => after_close(o, n),
        Key::Esc => after_close(o, n),
    }
}

/// Typing a character inserts it at the cursor and moves the cursor one past
/// it: the buffer becomes its part before the cursor, the character, and its
/// part after the cursor.
pub proof fn lemma_typing_inserts_at_cursor(o: EditorView, n: EditorView, c: char, names: Seq<Seq<char>>)
    requires
        o.wf(),
        step(o, n, Key::Char(c), names),
    ensures
        n.buffer == o.buffer.subrange(0, o.cursor as int) + seq![c] + o.buffer.subrange(
            o.cursor as int,
            o.buffer.len() as int,
        ),
        n.cursor == o.cursor + 1,
{
    assert(n.buffer =~= o.buffer.subrange(0, o.cursor as int) + seq![c] + o.buffer.subrange(
        o.cursor as int,
        o.buffer.len() as int,
    ));
}

/// Backspace at a cursor after the start, followed by typing the removed
/// character, gives back the buffer and cursor it started from.
pub proof fn lemma_backspace_then_reinsert(
    o: EditorView,
    m: EditorView,
    n: EditorView,
    names: Seq<Seq<char>>,
    names_after: Seq<Seq<char>>,
)
    requires
        o.wf(),
        o.cursor > 0,
        step(o, m, Key::Backspace, names),
        step(m, n, Key::Char(o.buffer[o.cursor - 1]), names_after),
    ensures
        n.buffer == o.buffer,
        n.cursor == o.cursor,
{
    assert(n.buffer =~= o.buffer);
}

#[derive(Debug)]
pub struct LineEditor {
    buffer: Vec<char>,
    cursor: usize,
    candidates: Vec<String>,
    selected: usize,
    dropdown: bool,
}

impl View for LineEditor {
    type V = EditorView;

    closed spec fn view(&self) -> EditorView {
        EditorView {
            buffer: self.buffer@,
            cursor: self.cursor as nat,
            candidates: views(self.candidates@),
            selected: self.selected as nat,
            dropdown: self.dropdown,
        }
    }
}

impl LineEditor {
    /// An editor holding `initial`, with the cursor at its end and no
    /// dropdown.
    pub fn new(initial: &str) -> (r: Self)
        ensures
            r@.wf(),
            r@.buffer == initial@,
            r@.cursor == initial@.len(),
            r@.cleared(),
    {
        let buffer = chars_of(initial);
        let cursor = buffer.len();
        let r = LineEditor { buffer, cursor, candidates: Vec::new(), selected: 0, dropdown: false };
        assert(views(r.candidates@) =~= Seq::<Seq<char>>::empty());
        r
    }

    /// The text being edited.
    pub fn line(&self) -> (r: String)
        ensures
            r@ == self@.buffer,
    {
        string_of(&self.buffer)
    }

    pub fn cursor(&self) -> (r: usize)
        ensures
            r == self@.cursor,
    {
        self.cursor
    }

    pub fn candidates(&self) -> (r: &Vec<String>)
        ensures
            views(r@) == self@.candidates,
    {
        &self.candidates
    }

    pub fn selected(&self) -> (r: usize)
        ensures
            r == self@.selected,
    {
        self.selected
    }

    pub fn dropdown_visible(&self) -> (r: bool)
        ensures
            r == self@.dropdown,
    {
        self.dropdown
    }

    fn recompute(&mut self, names: &Vec<String>)
        requires
            old(self)@.cursor <= old(self)@.buffer.len(),
        ensures
            final(self)@.same_text(old(self)@),
            final(self)@.recomputed(views(names@)),
    {
        self.candidates = complete_at(names, &self.buffer, self.cursor);
        self.selected = 0;
        self.dropdown = self.candidates.len() > 0;
    }

    fn clear_candidates(&mut self)
        ensures
            final(self)@.same_text(old(self)@),
            final(self)@.cleared(),
    {
        self.candidates = Vec::new();
        self.selected = 0;
        self.dropdown = false;
        assert(views(self.candidates@) =~= Seq::<Seq<char>>::empty());
    }

    /// Inserts `c` at the cursor and moves the cursor past it.
    pub fn insert_char(&mut self, c: char, names: &Vec<String>)
        requires
            old(self)@.wf(),
            old(self)@.buffer.len() < usize::MAX,
        ensures
            final(self)@.wf(),
            after_insert(old(self)@, final(self)@, c, views(names@)),
    {
        self.buffer.insert(self.cursor, c);
        self.cursor += 1;
        self.recompute(names);
    }

    /// Removes the character before the cursor, if any.
    pub fn backspace(&mut self, names: &Vec<String>)
        requires
            old(self)@.wf(),
        ensures
            final(self)@.wf(),
            after_backspace(old(self)@, final(self)@, views(names@)),
    {
        if self.cursor > 0 {
            self.buffer.remove(self.cursor - 1);
            self.cursor -= 1;
            self.recompute(names);
        }
    }

    /// Removes the whitespace and then the word before the cursor.
    pub fn delete_word(&mut self, names: &Vec<String>)
        requires
            old(self)@.wf(),
        ensures
            final(self)@.wf(),
            after_delete_word(old(self)@, final(self)@, views(names@)),
    {
        if self.cursor > 0 {
            let ghost b = self.buffer@;
            let spaces = spaces_start(&self.buffer, self.cursor);
            let start = word_start(&self.buffer, spaces);
            proof {
                lemma_space_back_bounds(b, self.cursor as int);
                lemma_word_back_bounds(b, spaces as int);
            }
            let mut kept: Vec<char> = Vec::new();
            let mut i: usize = 0;
            while i < start
                invariant
                    start <= self.cursor <= self.buffer@.len(),
                    i <= start,
                    kept@ == self.buffer@.subrange(0, i as int),
                decreases start - i,
            {
                kept.push(self.buffer[i]);
                i += 1;
            }
            let mut j: usize = self.cursor;
            while j < self.buffer.len()
                invariant
                    start <= self.cursor <= j <= self.buffer@.len(),
                    kept@ == self.buffer@.subrange(0, start as int) + self.buffer@.subrange(
                        self.cursor as int,
                        j as int,
                    ),
                decreases self.buffer@.len() - j,
            {
                kept.push(self.buffer[j]);
                assert(self.buffer@.subrange(self.cursor as int, j + 1) =~= self.buffer@.subrange(
                    self.cursor as int,
                    j as int,
                ).push(self.buffer@[j as int]));
                j += 1;
            }
            self.buffer = kept;
            self.cursor = start;
            self.recompute(names);
        }
    }

    /// Moves the cursor one position back, when it can.
    pub fn move_left(&mut self)
        requires
            old(self)@.wf(),
        ensures
            final(self)@.wf(),
            after_left(old(self)@, final(self)@),
    {
        if self.cursor > 0 {
            self.cursor -= 1;
        }
    }

    /// Moves the cursor one position forward, when it can.
    pub fn move_right(&mut self)
        requires
            old(self)@.wf(),
        ensures
            final(self)@.wf(),
            after_right(old(self)@, final(self)@),
    {
        if self.cursor < self.buffer.len() {
            self.cursor += 1;
        }
    }

    /// Selects the next candidate, wrapping to the first.
    pub fn select_next(&mut self)
        requires
            old(self)@.wf(),
        ensures
            final(self)@.wf(),
            after_next(old(self)@, final(self)@),
    {
        if self.dropdown {
            assert(self.candidates@.len() == views(self.candidates@).len());
            let ghost n = self.candidates@.len() as int;
            let ghost s = self.selected as int;
            if self.selected < self.candidates.len() - 1 {
                assert((s + 1) % n == s + 1) by (nonlinear_arith)
                    requires 0 <= s + 1 < n;
                self.selected += 1;
            } else {
                assert((s + 1) % n == 0) by (nonlinear_arith)
                    requires s + 1 == n, n > 0;
                self.selected = 0;
            }
        }
    }

    /// Selects the previous candidate, wrapping to the last.
    pub fn select_previous(&mut self)
        requires
            old(self)@.wf(),
        ensures
            final(self)@.wf(),
            after_previous(old(self)@, final(self)@),
    {
        if self.dropdown {
            if self.selected == 0 {
                self.selected = self.candidates.len() - 1;
            } else {
                self.selected -= 1;
            }
        }
    }

    /// Replaces the active token with the selected candidate and closes the
    /// dropdown.
    pub fn accept_selection(&mut self)
        requires
            old(self)@.wf(),
            old(self)@.dropdown,
        ensures
            final(self)@.wf(),
            after_accept(old(self)@, final(self)@),
    {
        let ghost b = self.buffer@;
        let start = word_start(&self.buffer, self.cursor);
        proof {
            lemma_word_back_bounds(b, self.cursor as int);
        }
        let cand = chars_of(self.candidates[self.selected].as_str());
        let mut next: Vec<char> = Vec::new();
        let mut i: usize = 0;
        while i < start
            invariant
                start <= self.cursor <= self.buffer@.len(),
                i <= start,
                next@ == self.buffer@.subrange(0, i as int),
            decreases start - i,
        {
            next.push(self.buffer[i]);
            i += 1;
        }
        let mut k: usize = 0;
        while k < cand.len()
            invariant
                k <= cand@.len(),
                next@ == self.buffer@.subrange(0, start as int) + cand@.subrange(0, k as int),
            decreases cand@.len() - k,
        {
            next.push(cand[k]);
            assert(cand@.subrange(0, k + 1) =~= cand@.subrange(0, k as int).push(cand@[k as int]));
            k += 1;
        }
        assert(cand@.subrange(0, k as int) =~= cand@);
        let new_cursor = next.len();
        let mut j: usize = self.cursor;
        while j < self.buffer.len()
            invariant
                start <= self.cursor <= j <= self.buffer@.len(),
                new_cursor == start + cand@.len(),
                next@ == self.buffer@.subrange(0, start as int) + cand@ + self.buffer@.subrange(
                    self.cursor as int,
                    j as int,
                ),
            decreases self.buffer@.len() - j,
        {
            next.push(self.buffer[j]);
            assert(self.buffer@.subrange(self.cursor as int, j + 1) =~= self.buffer@.subrange(
                self.cursor as int,
                j as int,
            ).push(self.buffer@[j as int]));
            j += 1;
        }
        self.buffer = next;
        self.cursor = new_cursor;
        self.clear_candidates();
    }

    /// Tab: accepts the selection while the dropdown is visible; otherwise
    /// completes the whole buffer when exactly one name starts with it, and
    /// else shows the candidates.
    pub fn tab(&mut self, names: &Vec<String>)
        requires
            old(self)@.wf(),
        ensures
            final(self)@.wf(),
            after_tab(old(self)@, final(self)@, views(names@)),
    {
        if self.dropdown {
            self.accept_selection();
        } else {
            match find_unique_match(names, &self.buffer) {
                Some(j) => {
                    self.buffer = chars_of(names[j].as_str());
                    self.cursor = self.buffer.len();
                    self.clear_candidates();
                },
                None => {
                    self.recompute(names);
                },
            }
        }
    }

    /// Esc or Enter: closes the dropdown, keeping the text.
    pub fn close_dropdown(&mut self)
        requires
            old(self)@.wf(),
        ensures
            final(self)@.wf(),
            after_close(old(self)@, final(self)@),
    {
        self.clear_candidates();
    }

    /// Applies one key press and reports what has to be redrawn.
    pub fn handle_key(&mut self, key: Key, names: &Vec<String>) -> (r: Effect)
        requires
            old(self)@.wf(),
            old(self)@.buffer.len() < usize::MAX,
        ensures
            final(self)@.wf(),
            step(old(self)@, final(self)@, key, views(names@)),
            r == effect_of(old(self)@, key),
    {
        match key {
            Key::Char(c) => {
                self.insert_char(c, names);
                Effect::Redraw
            },
            Key::Backspace => {
                let moved = self.cursor > 0;
                self.backspace(names);
                if moved { Effect::Redraw } else { Effect::Nothing }
            },
            Key::DeleteWord => {
                let moved = self.cursor > 0;
                self.delete_word(names);
                if moved { Effect::Redraw } else { Effect::Nothing }
            },
            Key::Left => {
                let moved = self.cursor > 0;
                self.move_left();
                if moved { Effect::MoveCursor } else { Effect::Nothing }
            },
            Key::Right => {
                let moved = self.cursor < self.buffer.len();
                self.move_right();
                if moved { Effect::MoveCursor } else { Effect::Nothing }
            },
            Key::Up => {
                let shown = self.dropdown;
                self.select_previous();
                if shown { Effect::RedrawDropdown } else { Effect::Nothing }
            },
            Key::Down => {
                let shown = self.dropdown;
                self.select_next();
                if shown { Effect::RedrawDropdown } else { Effect::Nothing }
            },
            Key::Tab => {
                self.tab(names);
                Effect::Redraw
            },
            Key::Enter => {
                self.close_dropdown();
                Effect::Submit
            },
            Key::Esc => {
                let shown = self.dropdown;
                self.close_dropdown();
                if shown { Effect::ClearDropdown } else { Effect::Nothing }
            },
        }
    }
}

} // verus!
