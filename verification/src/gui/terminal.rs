//! The decisions of the terminal front end: what a key press does, and how
//! the file completer edits its query and picks its selection.
use vstd::prelude::*;
use crate::gui::keymap_handler::Key;

verus! {

/// A key as the terminal reports it.
#[derive(Debug, Clone, Copy, PartialEq, Eq, Structural)]
pub enum TerminalKey {
    Char(char),
    Ctrl(char),
    Esc,
    Enter,
    Backspace,
    Up,
    Down,
    Left,
    Right,
    Tab,
    /// Any other key.
    Other,
}

/// What the front end does about a key press while no completer is open.
#[derive(Debug, Clone, Copy, PartialEq, Eq, Structural)]
pub enum KeyAction {
    /// Quit the front end.
    Quit,
    /// Open the file completer.
    OpenCompleter,
    /// Close the key sequence: the key mappings time out.
    Timeout,
    /// Press the key, for the key mappings.
    Press(Key),
    /// Press Ctrl, then, where there is one, the key that came with it.
    PressCtrl(Option<Key>),
    /// Nothing.
    Ignore,
}

/// What a key does when it comes alone, without Ctrl.
pub open spec fn plain_action(key: TerminalKey) -> KeyAction {
    match key {
        TerminalKey::Char(c) => if c == 'q' { KeyAction::Quit } else { KeyAction::Press(Key::Char(c)) },
        TerminalKey::Ctrl(c) => if c == 't' { KeyAction::OpenCompleter } else { KeyAction::Ignore },
        TerminalKey::Esc => KeyAction::Timeout,
        TerminalKey::Up => KeyAction::Press(Key::Up),
        TerminalKey::Down => KeyAction::Press(Key::Down),
        TerminalKey::Left => KeyAction::Press(Key::Left),
        TerminalKey::Right => KeyAction::Press(Key::Right),
        TerminalKey::Tab => KeyAction::Press(Key::Tab),
        _ => KeyAction::Ignore,
    }
}

/// The arrow keys and Tab reach the key mappings as the very keys the
/// terminal reported, Esc times them out, and a plain character other than
/// `q` is pressed as that character.
pub proof fn lemma_plain_keys_pressed_as_reported(key: TerminalKey)
    ensures
        key == TerminalKey::Up ==> plain_action(key) == KeyAction::Press(Key::Up),
        key == TerminalKey::Down ==> plain_action(key) == KeyAction::Press(Key::Down),
        key == TerminalKey::Left ==> plain_action(key) == KeyAction::Press(Key::Left),
        key == TerminalKey::Right ==> plain_action(key) == KeyAction::Press(Key::Right),
        key == TerminalKey::Tab ==> plain_action(key) == KeyAction::Press(Key::Tab),
        key == TerminalKey::Esc ==> plain_action(key) == KeyAction::Timeout,
        key is Char && key->Char_0 != 'q' ==> plain_action(key) == KeyAction::Press(Key::Char(key->Char_0)),
{
}

/// What a key press does: `q` quits, Ctrl-t opens the completer, Esc times
/// the key mappings out, and the other keys go to the key mappings; a key
/// held with Ctrl is pressed after Ctrl, unless it is `q`.
pub fn key_action(key: TerminalKey) -> (action: KeyAction)
    ensures
        action == (match key {
            TerminalKey::Ctrl(c) => if c == 't' {
                KeyAction::OpenCompleter
            } else {
                KeyAction::PressCtrl(
                    match plain_action(TerminalKey::Char(c)) {
                        KeyAction::Press(k) => Some(k),
                        _ => None,
                    },
                )
            },
            _ => plain_action(key),
        }),
        key == TerminalKey::Up ==> action == KeyAction::Press(Key::Up),
        key == TerminalKey::Down ==> action == KeyAction::Press(Key::Down),
        key == TerminalKey::Left ==> action == KeyAction::Press(Key::Left),
        key == TerminalKey::Right ==> action == KeyAction::Press(Key::Right),
        key == TerminalKey::Tab ==> action == KeyAction::Press(Key::Tab),
        key == TerminalKey::Esc ==> action == KeyAction::Timeout,
        key == TerminalKey::Char('q') ==> action == KeyAction::Quit,
        key is Char && key->Char_0 != 'q' ==> action == KeyAction::Press(Key::Char(key->Char_0)),
        key == TerminalKey::Ctrl('t') ==> action == KeyAction::OpenCompleter,
        key == TerminalKey::Ctrl('q') ==> action == KeyAction::PressCtrl(None),
        key is Ctrl && key->Ctrl_0 != 't' && key->Ctrl_0 != 'q'
            ==> action == KeyAction::PressCtrl(Some(Key::Char(key->Ctrl_0))),
        key == TerminalKey::Enter || key == TerminalKey::Backspace || key == TerminalKey::Other
            ==> action == KeyAction::Ignore,
{
    match key {
        TerminalKey::Char(c) => if c == 'q' { KeyAction::Quit } else { KeyAction::Press(Key::Char(c)) },
        TerminalKey::Ctrl(c) => if c == 't' {
            KeyAction::OpenCompleter
        } else if c == 'q' {
            KeyAction::PressCtrl(None)
        } else {
            KeyAction::PressCtrl(Some(Key::Char(c)))
        },
        TerminalKey::Esc => KeyAction::Timeout,
        TerminalKey::Up => KeyAction::Press(Key::Up),
        TerminalKey::Down => KeyAction::Press(Key::Down),
        TerminalKey::Left => KeyAction::Press(Key::Left),
        TerminalKey::Right => KeyAction::Press(Key::Right),
        TerminalKey::Tab => KeyAction::Press(Key::Tab),
        _ => KeyAction::Ignore,
    }
}

/// Puts `v` into `min..=max`: below `min` it becomes `min`, above `max` it
/// becomes `max`.
pub fn clamp(min: isize, max: isize, v: &mut isize)
    ensures
        *final(v) == (if *old(v) < min {
            if max < min { max } else { min }
        } else if max < *old(v) {
            max
        } else {
            *old(v)
        }),
{
    let low = if *v < min { min } else { *v };
    let new_value = if max < low { max } else { low };
    *v = new_value;
}

/// Whether a character is white space: it has the Unicode property
/// `White_Space`, as `char::is_whitespace` tests. These are the tab, line
/// feed, vertical tab, form feed and carriage return, the space, the next
/// line, the no-break space, the Ogham space mark, the spaces from the en
/// quad to the hair space, the line and paragraph separators, the narrow
/// no-break space, the medium mathematical space and the ideographic space.
pub open spec fn white_space(c: char) -> bool {
    let u = c as u32;
    ||| 0x9 <= u <= 0xd
    ||| u == 0x20
    ||| u == 0x85
    ||| u == 0xa0
    ||| u == 0x1680
    ||| 0x2000 <= u <= 0x200a
    ||| u == 0x2028
    ||| u == 0x2029
    ||| u == 0x202f
    ||| u == 0x205f
    ||| u == 0x3000
}

fn is_whitespace(c: char) -> (res: bool)
    ensures
        res == white_space(c),
{
    let u = c as u32;
    (0x9 <= u && u <= 0xd) || u == 0x20 || u == 0x85 || u == 0xa0 || u == 0x1680 || (0x2000 <= u && u <= 0x200a)
        || u == 0x2028 || u == 0x2029 || u == 0x202f || u == 0x205f || u == 0x3000
}

/// The characters of `query` that are not white space, in order.
pub open spec fn without_white_space(query: Seq<char>) -> Seq<char>
    decreases query.len(),
{
    if query.len() == 0 {
        Seq::empty()
    } else if white_space(query.last()) {
        without_white_space(query.drop_last())
    } else {
        without_white_space(query.drop_last()).push(query.last())
    }
}

/// How the completer answers a key.
#[derive(Debug, Clone, PartialEq, Eq)]
pub enum CompleterState {
    /// It stays open.
    Running,
    /// It closes without a choice.
    Canceled,
    /// It closes with the chosen file.
    Selected(String),
}

/// The file completer: the query typed so far, the files that match it, and
/// the position of the selected one.
pub struct CompleterWidget {
    query: Vec<char>,
    results: Vec<String>,
    selection_index: isize,
}

impl CompleterWidget {
    /// The results can be counted in an `isize`, as any vector's length can.
    pub closed spec fn wf(&self) -> bool {
        self.results@.len() <= isize::MAX
    }

    /// The query typed so far.
    pub closed spec fn query_spec(&self) -> Seq<char> {
        self.query@
    }

    /// The files that match the query, best first.
    pub closed spec fn results_spec(&self) -> Seq<String> {
        self.results@
    }

    /// The position of the selected file.
    pub closed spec fn selection(&self) -> isize {
        self.selection_index
    }

    /// A completer with an empty query and no results.
    pub fn new() -> (widget: Self)
        ensures
            widget.wf(),
            widget.query_spec() == Seq::<char>::empty(),
            widget.results_spec() == Seq::<String>::empty(),
            widget.selection() == 0,
    {
        CompleterWidget { query: Vec::new(), results: Vec::new(), selection_index: 0 }
    }

    /// The query typed so far.
    pub fn query(&self) -> (query: &Vec<char>)
        ensures
            query@ == self.query_spec(),
    {
        &self.query
    }

    /// The files that match the query, best first.
    pub fn results(&self) -> (results: &Vec<String>)
        ensures
            results@ == self.results_spec(),
    {
        &self.results
    }

    /// The position of the selected file.
    pub fn selection_index(&self) -> (index: isize)
        ensures
            index == self.selection(),
    {
        self.selection_index
    }

    /// Answers a key: a character extends the query and Backspace shortens
    /// it, both dropping the results; Up and Down move the selection; Esc
    /// cancels; Enter picks the selected file, with the selection put into
    /// the results first, or cancels when nothing matches.
    pub fn on_key(&mut self, key: TerminalKey) -> (state: CompleterState)
        requires
            old(self).wf(),
            key == TerminalKey::Down ==> old(self).selection() < isize::MAX,
            key == TerminalKey::Up ==> old(self).selection() > isize::MIN,
        ensures
            final(self).wf(),
            match key {
                TerminalKey::Char(c) => {
                    &&& state == CompleterState::Running
                    &&& final(self).query_spec() == old(self).query_spec().push(c)
                    &&& final(self).results_spec() == Seq::<String>::empty()
                    &&& final(self).selection() == old(self).selection()
                },
                TerminalKey::Backspace => {
                    &&& state == CompleterState::Running
                    &&& final(self).query_spec() == (if old(self).query_spec().len() == 0 {
                        old(self).query_spec()
                    } else {
                        old(self).query_spec().drop_last()
                    })
                    &&& final(self).results_spec() == Seq::<String>::empty()
                    &&& final(self).selection() == old(self).selection()
                },
                TerminalKey::Down => {
                    &&& state == CompleterState::Running
                    &&& final(self).query_spec() == old(self).query_spec()
                    &&& final(self).results_spec() == old(self).results_spec()
                    &&& final(self).selection() == old(self).selection() + 1
                },
                TerminalKey::Up => {
                    &&& state == CompleterState::Running
                    &&& final(self).query_spec() == old(self).query_spec()
                    &&& final(self).results_spec() == old(self).results_spec()
                    &&& final(self).selection() == old(self).selection() - 1
                },
                TerminalKey::Esc => {
                    &&& state == CompleterState::Canceled
                    &&& *final(self) == *old(self)
                },
                TerminalKey::Enter => {
                    &&& final(self).query_spec() == old(self).query_spec()
                    &&& final(self).results_spec() == old(self).results_spec()
                    &&& if old(self).results_spec().len() == 0 {
                        state == CompleterState::Canceled && final(self).selection() == old(self).selection()
                    } else {
                        let n = old(self).results_spec().len();
                        let s = old(self).selection();
                        let i: int = if s < 0 { 0 } else if s >= n { n - 1 } else { s as int };
                        &&& final(self).selection() == i
                        &&& state matches CompleterState::Selected(f) && f == old(self).results_spec()[i]
                    }
                },
                _ => {
                    &&& state == CompleterState::Running
                    &&& *final(self) == *old(self)
                },
            },
    {
        match key {
            TerminalKey::Char(c) => {
                self.query.push(c);
                self.results = Vec::new();
                CompleterState::Running
            },
            TerminalKey::Backspace => {
                self.query.pop();
                self.results = Vec::new();
                CompleterState::Running
            },
            TerminalKey::Down => {
                self.selection_index = self.selection_index + 1;
                CompleterState::Running
            },
            TerminalKey::Up => {
                self.selection_index = self.selection_index - 1;
                CompleterState::Running
            },
            TerminalKey::Esc => CompleterState::Canceled,
            TerminalKey::Enter => {
                if self.results.len() == 0 {
                    CompleterState::Canceled
                } else {
                    let last = (self.results.len() - 1) as isize;
                    clamp(0, last, &mut self.selection_index);
                    let i = self.selection_index as usize;
                    CompleterState::Selected(self.results[i].clone())
                }
            },
            _ => CompleterState::Running,
        }
    }

    /// Takes the files that match the query, best first; the selection is put
    /// into them when there are any.
    pub fn set_results(&mut self, results: Vec<String>)
        requires
            results@.len() <= isize::MAX,
        ensures
            final(self).wf(),
            final(self).query_spec() == old(self).query_spec(),
            final(self).results_spec() == results@,
            results@.len() == 0 ==> final(self).selection() == old(self).selection(),
            results@.len() > 0 ==> {
                let s = old(self).selection();
                final(self).selection() == (if s < 0 {
                    0
                } else if s >= results@.len() {
                    results@.len() - 1
                } else {
                    s as int
                })
            },
    {
        if results.len() > 0 {
            let last = (results.len() - 1) as isize;
            clamp(0, last, &mut self.selection_index);
        }
        self.results = results;
    }

    /// The query that the files are matched against: the typed query without
    /// its white space.
    pub fn query_to_use(&self) -> (query: Vec<char>)
        ensures
            query@ == without_white_space(self.query_spec()),
    {
        let mut query: Vec<char> = Vec::new();
        let mut i: usize = 0;
        while i < self.query.len()
            invariant
                i <= self.query@.len(),
                query@ == without_white_space(self.query@.take(i as int)),
            decreases self.query@.len() - i,
        {
            let c = self.query[i];
            proof {
                assert(self.query@.take(i + 1).drop_last() =~= self.query@.take(i as int));
            }
            if !is_whitespace(c) {
                query.push(c);
            }
            i = i + 1;
        }
        proof {
            assert(self.query@.take(self.query@.len() as int) =~= self.query@);
        }
        query
    }
}

} // verus!
