//! The query line and the selection of the interactive prompt, driven by
//! decoded key presses.

use vstd::prelude::*;
use crate::result::{display_line, LauncherResult, ResultView};
use crate::text::{find_char, find_from, trim, trim_spec};

verus! {

/// A decoded key press.
#[derive(Debug, Clone, Copy, PartialEq, Eq, Structural)]
pub enum Key {
    Char(char),
    Backspace,
    Delete,
    Up,
    Down,
    Left,
    Right,
    Enter,
    Tab,
    Esc,
    /// Control-C.
    Interrupt,
    Other,
}

/// Relies on std's `String::push`: appends one character.
#[verifier::external_body]
fn push_char(s: &mut String, c: char)
    ensures
        final(s)@ == old(s)@.push(c),
{
    s.push(c)
}

/// The editable state of the prompt.
#[derive(Debug)]
pub struct InputState {
    pub query: String,
    pub prompt: String,
    /// Cursor position, in characters.
    pub cursor_index: usize,
    /// Length of the list shown.
    pub list_len: usize,
    /// The highlighted row.
    pub selected: Option<usize>,
    /// The highlighted result stands in the query line.
    pub completion: bool,
    /// Text of the highlighted result when it stands in the query line.
    pub completion_content: Option<String>,
}

pub struct InputView {
    pub query: Seq<char>,
    pub cursor: int,
    pub list_len: int,
    pub selected: Option<int>,
    pub completion: bool,
    pub completion_content: Option<Seq<char>>,
}

pub open spec fn opt_usize(o: Option<usize>) -> Option<int> {
    match o {
        Some(i) => Some(i as int),
        None => None,
    }
}

pub open spec fn opt_string(o: Option<String>) -> Option<Seq<char>> {
    match o {
        Some(s) => Some(s@),
        None => None,
    }
}

impl View for InputState {
    type V = InputView;

    open spec fn view(&self) -> InputView {
        InputView {
            query: self.query@,
            cursor: self.cursor_index as int,
            list_len: self.list_len as int,
            selected: opt_usize(self.selected),
            completion: self.completion,
            completion_content: opt_string(self.completion_content),
        }
    }
}

/// The previewed completion, if any, becomes the query, with the cursor at
/// its end.
pub open spec fn replace_spec(v: InputView) -> InputView {
    match v.completion_content {
        Some(s) => InputView { query: s, cursor: s.len() as int, completion: false, ..v },
        None => v,
    }
}

/// The highlighted row after one step up or down, wrapping around.
pub open spec fn move_spec(len: int, sel: Option<int>, up: bool) -> Option<int> {
    if len > 0 {
        match sel {
            Some(i) => Some(
                if up {
                    if i == 0 {
                        len - 1
                    } else {
                        (i - 1) % len
                    }
                } else {
                    (i + 1) % len
                },
            ),
            None => None,
        }
    } else {
        sel
    }
}

/// A highlighted row inside a list of `len` rows: the first by default,
/// the last where it fell off the end, none in an empty list.
pub open spec fn fix_spec(len: int, sel: Option<int>) -> Option<int> {
    if len > 0 {
        match sel {
            Some(i) => if i >= len {
                Some(len - 1)
            } else {
                Some(i)
            },
            None => Some(0),
        }
    } else {
        None
    }
}

/// What a key press does to the prompt, and whether the prompt is left:
/// `None` where the next key is read at once, `Some(b)` where control goes
/// back to the caller, with `b` true when the prompt is done.
pub open spec fn key_spec(v: InputView, key: Key) -> (InputView, Option<bool>) {
    match key {
        Key::Char(c) => {
            let w = replace_spec(v);
            (InputView { query: w.query.insert(w.cursor, c), cursor: w.cursor + 1, ..w }, Some(false))
        },
        Key::Backspace | Key::Delete => {
            let w = InputView { completion: false, ..v };
            if v.cursor > 0 {
                (InputView { query: w.query.remove(w.cursor - 1), cursor: w.cursor - 1, ..w }, Some(false))
            } else {
                (w, Some(false))
            }
        },
        Key::Up => (InputView { selected: move_spec(v.list_len, v.selected, true), ..v }, Some(false)),
        Key::Down => (InputView { selected: move_spec(v.list_len, v.selected, false), ..v }, Some(false)),
        Key::Left => {
            let w = replace_spec(v);
            (InputView { cursor: if w.cursor > 0 { w.cursor - 1 } else { w.cursor }, ..w }, Some(false))
        },
        Key::Right => {
            let w = replace_spec(v);
            (InputView { cursor: if w.cursor < w.query.len() { w.cursor + 1 } else { w.cursor }, ..w }, Some(false))
        },
        Key::Enter => (v, Some(v.selected is Some)),
        Key::Tab => (
            InputView {
                completion: v.list_len > 0,
                selected: move_spec(v.list_len, v.selected, false),
                ..v
            },
            Some(false),
        ),
        Key::Esc => (InputView { completion: false, ..v }, None),
        Key::Interrupt => (v, Some(true)),
        Key::Other => (v, Some(false)),
    }
}

/// The text a result previews in the query line: its display line after the
/// first `|`, trimmed.
pub open spec fn completion_spec(r: ResultView) -> Seq<char> {
    let line = display_line(r);
    let k = find_from(line, '|', 0);
    if k < line.len() {
        trim_spec(line.subrange(k + 1, line.len() as int))
    } else {
        Seq::empty()
    }
}

pub fn completion_text(r: &LauncherResult) -> (t: String)
    ensures
        t@ == completion_spec(r@),
{
    let line = r.get_string();
    let n = line.as_str().unicode_len();
    let k = find_char(line.as_str(), '|');
    if k < n {
        trim(line.as_str().substring_char(k + 1, n))
    } else {
        String::new()
    }
}

impl InputState {
    /// The cursor stands inside the query.
    pub open spec fn wf(&self) -> bool {
        self.cursor_index <= self.query@.len()
    }

    pub fn new(prompt: &str) -> (r: InputState)
        ensures
            r.wf(),
            r.query@.len() == 0,
            r.prompt@ == prompt@,
            r.cursor_index == 0,
            r.list_len == 0,
            r.selected is None,
            !r.completion,
            r.completion_content is None,
    {
        InputState {
            query: String::new(),
            prompt: String::from_str(prompt),
            cursor_index: 0,
            list_len: 0,
            selected: None,
            completion: false,
            completion_content: None,
        }
    }

    pub fn get_query(&self) -> (r: String)
        ensures
            r@ == self.query@,
    {
        self.query.clone()
    }

    pub fn set_prompt(&mut self, prompt: &str)
        ensures
            final(self).prompt@ == prompt@,
            final(self)@ == old(self)@,
    {
        self.prompt = String::from_str(prompt);
    }

    fn replace_query(&mut self)
        requires
            old(self).wf(),
        ensures
            final(self).wf(),
            final(self)@ == replace_spec(old(self)@),
            final(self).prompt@ == old(self).prompt@,
    {
        if let Some(s) = &self.completion_content {
            self.query = s.clone();
            self.cursor_index = self.query.as_str().unicode_len();
            self.completion = false;
        }
    }

    fn fix_selection(&mut self)
        ensures
            final(self)@ == (InputView { selected: fix_spec(old(self)@.list_len, old(self)@.selected), ..old(self)@ }),
            final(self).prompt@ == old(self).prompt@,
    {
        if self.list_len > 0 {
            match self.selected {
                Some(i) => {
                    if i >= self.list_len {
                        self.selected = Some(self.list_len - 1);
                    }
                },
                None => self.selected = Some(0),
            }
        } else {
            self.selected = None;
        }
    }

    fn move_selection(&mut self, up: bool)
        ensures
            final(self)@ == (InputView { selected: move_spec(old(self)@.list_len, old(self)@.selected, up), ..old(self)@ }),
            final(self).prompt@ == old(self).prompt@,
    {
        if self.list_len > 0 {
            if let Some(i) = self.selected {
                let j = if up {
                    if i == 0 {
                        self.list_len - 1
                    } else {
                        (i - 1) % self.list_len
                    }
                } else if i < usize::MAX {
                    (i + 1) % self.list_len
                } else {
                    ((i % self.list_len) + 1) % self.list_len
                };
                proof {
                    if !up && i == usize::MAX {
                        let a = i as int;
                        let m = self.list_len as int;
                        assert(((a % m) + 1) % m == (a + 1) % m) by (nonlinear_arith)
                            requires
                                m > 0,
                        ;
                    }
                }
                self.selected = Some(j);
            }
        }
    }

    /// Takes in the list now shown: an empty query shows nothing, the
    /// highlight is kept inside the list, and the highlighted result's text
    /// is previewed while completion is on.
    pub fn update(&mut self, list: &Vec<LauncherResult>)
        ensures
            final(self).query@ == old(self).query@,
            final(self).cursor_index == old(self).cursor_index,
            final(self).completion == old(self).completion,
            final(self).prompt@ == old(self).prompt@,
            final(self).list_len == (if old(self).query@.len() == 0 { 0 } else { list@.len() }),
            opt_usize(final(self).selected) == fix_spec(final(self).list_len as int, opt_usize(old(self).selected)),
            opt_string(final(self).completion_content) == (match final(self).selected {
                Some(i) if final(self).completion && i < final(self).list_len => Some(completion_spec(list@[i as int]@)),
                _ => None::<Seq<char>>,
            }),
    {
        let empty = self.query.as_str().unicode_len() == 0;
        self.list_len = if empty { 0 } else { list.len() };
        self.fix_selection();
        self.completion_content = match self.selected {
            Some(i) => {
                if self.completion && i < self.list_len {
                    Some(completion_text(&list[i]))
                } else {
                    None
                }
            },
            None => None,
        };
    }

    /// Applies one key press; `index` receives the highlighted row on Enter.
    pub fn handle_key(&mut self, key: Key, index: &mut Option<usize>) -> (r: Option<bool>)
        requires
            old(self).wf(),
        ensures
            final(self).wf(),
            final(self).prompt@ == old(self).prompt@,
            (final(self)@, r) == key_spec(old(self)@, key),
            *final(index) == (if key == Key::Enter { old(self).selected } else { *old(index) }),
    {
        match key {
            Key::Char(c) => {
                self.replace_query();
                let n = self.query.as_str().unicode_len();
                let mut q = String::from_str(self.query.as_str().substring_char(0, self.cursor_index));
                push_char(&mut q, c);
                q.append(self.query.as_str().substring_char(self.cursor_index, n));
                proof {
                    assert(q@ =~= self.query@.insert(self.cursor_index as int, c));
                }
                let grown = q.as_str().unicode_len();
                assert(grown == self.cursor_index + (n - self.cursor_index) + 1);
                self.query = q;
                self.cursor_index = self.cursor_index + 1;
                Some(false)
            },
            Key::Backspace | Key::Delete => {
                self.completion = false;
                if self.cursor_index > 0 {
                    let n = self.query.as_str().unicode_len();
                    let mut q = String::from_str(self.query.as_str().substring_char(0, self.cursor_index - 1));
                    q.append(self.query.as_str().substring_char(self.cursor_index, n));
                    proof {
                        assert(q@ =~= self.query@.remove(self.cursor_index - 1));
                    }
                    self.query = q;
                    self.cursor_index = self.cursor_index - 1;
                }
                Some(false)
            },
            Key::Up => {
                self.move_selection(true);
                Some(false)
            },
            Key::Down => {
                self.move_selection(false);
                Some(false)
            },
            Key::Left => {
                self.replace_query();
                if self.cursor_index > 0 {
                    self.cursor_index = self.cursor_index - 1;
                }
                Some(false)
            },
            Key::Right => {
                self.replace_query();
                if self.cursor_index < self.query.as_str().unicode_len() {
                    self.cursor_index = self.cursor_index + 1;
                }
                Some(false)
            },
            Key::Enter => {
                *index = self.selected;
                Some(self.selected.is_some())
            },
            Key::Tab => {
                self.completion = self.list_len > 0;
                self.move_selection(false);
                Some(false)
            },
            Key::Esc => {
                self.completion = false;
                None
            },
            Key::Interrupt => Some(true),
            Key::Other => Some(false),
        }
    }
}

} // verus!
