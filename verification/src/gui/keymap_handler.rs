//! Key mappings. Keys pressed close together in time form a chord; a
//! sequence of chords (an arpeggio) triggers the mapping that it equals.
use vstd::prelude::*;
use crate::text::str_eq;

verus! {

/// A key.
#[derive(Debug, PartialEq, Eq, Hash, Clone, Copy, Structural)]
pub enum Key {
    Up,
    Down,
    Left,
    Right,
    Ctrl,
    /// Only the terminal front end sends it.
    Tab,
    Char(char),
}

/// The characters of `s` in lower case, as `str::to_lowercase` gives them.
pub uninterp spec fn lowercase(s: Seq<char>) -> Seq<char>;

/// `str::to_lowercase`: lower-cases `s` by the Unicode case tables.
#[verifier::external_body]
fn to_lowercase(s: &str) -> (res: String)
    ensures
        res@ == lowercase(s@),
{
    s.to_lowercase()
}

/// The key that a lower-cased key name stands for.
pub open spec fn key_named(lower: Seq<char>) -> Option<Key> {
    if lower == "<up>"@ {
        Some(Key::Up)
    } else if lower == "<down>"@ {
        Some(Key::Down)
    } else if lower == "<left>"@ {
        Some(Key::Left)
    } else if lower == "<right>"@ {
        Some(Key::Right)
    } else if lower == "<ctrl>"@ {
        Some(Key::Ctrl)
    } else if lower.len() == 1 {
        Some(Key::Char(lower[0]))
    } else {
        None
    }
}

impl Key {
    /// The key with the given name, in any case: `<up>`, `<down>`, `<left>`,
    /// `<right>`, `<ctrl>`, or a single character.
    pub fn from_str(s: &str) -> (key: Option<Key>)
        ensures
            key == key_named(lowercase(s@)),
    {
        let lower = to_lowercase(s);
        let l = lower.as_str();
        if str_eq(l, "<up>") {
            return Some(Key::Up);
        }
        if str_eq(l, "<down>") {
            return Some(Key::Down);
        }
        if str_eq(l, "<left>") {
            return Some(Key::Left);
        }
        if str_eq(l, "<right>") {
            return Some(Key::Right);
        }
        if str_eq(l, "<ctrl>") {
            return Some(Key::Ctrl);
        }
        if l.unicode_len() == 1 {
            return Some(Key::Char(l.get_char(0)));
        }
        None
    }
}

/// Keys pressed together.
#[derive(Debug, Clone)]
pub struct Chord {
    keys: Vec<Key>,
}

impl Chord {
    pub closed spec fn wf(&self) -> bool {
        self.keys@.no_duplicates()
    }

    /// The keys of the chord.
    pub closed spec fn view(&self) -> Set<Key> {
        self.keys@.to_set()
    }

    /// The chord of a single key.
    pub fn with(c: Key) -> (chord: Self)
        ensures
            chord.wf(),
            chord.view() == set![c],
    {
        let chord = Chord { keys: Vec::new() };
        proof {
            assert(chord.keys@.to_set() =~= Set::<Key>::empty());
            assert(chord.wf());
        }
        let res = chord.and(c);
        proof { assert(res.view() =~= set![c]); }
        res
    }

    /// The chord with one more key.
    pub fn and(self, c: Key) -> (chord: Self)
        requires
            self.wf(),
        ensures
            chord.wf(),
            chord.view() == self.view().insert(c),
    {
        let ghost sv = self.view();
        let mut keys = self.keys;
        let ghost before = keys@;
        let mut i: usize = 0;
        while i < keys.len()
            invariant
                keys@ == before,
                before.no_duplicates(),
                before.to_set() == sv,
                sv == self.view(),
                i <= before.len(),
                forall|j: int| 0 <= j < i ==> before[j] != c,
            decreases before.len() - i,
        {
            if keys[i] == c {
                proof {
                    assert(before[i as int] == c);
                    assert(before.to_set().insert(c) =~= before.to_set());
                }
                let res = Chord { keys };
                proof { assert(res.view() =~= sv.insert(c)); }
                return res;
            }
            i = i + 1;
        }
        keys.push(c);
        proof {
            before.lemma_push_to_set_commute(c);
            assert forall|a: int, b: int| 0 <= a < b < keys@.len() implies keys@[a] != keys@[b] by {
                if b == before.len() { assert(before[a] != c); }
            }
        }
        Chord { keys }
    }

    fn contains(&self, k: Key) -> (res: bool)
        ensures
            res == self.view().contains(k),
    {
        let mut i: usize = 0;
        while i < self.keys.len()
            invariant
                i <= self.keys@.len(),
                forall|j: int| 0 <= j < i ==> self.keys@[j] != k,
            decreases self.keys@.len() - i,
        {
            if self.keys[i] == k {
                proof { assert(self.keys@.contains(k)); }
                return true;
            }
            i = i + 1;
        }
        false
    }

    fn subset_of(&self, other: &Chord) -> (res: bool)
        ensures
            res == self.view().subset_of(other.view()),
    {
        let mut i: usize = 0;
        while i < self.keys.len()
            invariant
                i <= self.keys@.len(),
                forall|j: int| 0 <= j < i ==> other.view().contains(#[trigger] self.keys@[j]),
            decreases self.keys@.len() - i,
        {
            if !other.contains(self.keys[i]) {
                proof { assert(self.keys@.contains(self.keys@[i as int])); }
                return false;
            }
            i = i + 1;
        }
        proof {
            assert forall|k: Key| self.view().contains(k) implies other.view().contains(k) by {
                let j = choose|j: int| 0 <= j < self.keys@.len() && self.keys@[j] == k;
            }
        }
        true
    }

    /// Whether both chords hold the same keys.
    pub fn same_keys(&self, other: &Chord) -> (res: bool)
        ensures
            res == (self.view() == other.view()),
    {
        let r = self.subset_of(other) && other.subset_of(self);
        proof {
            if r { assert(self.view() =~= other.view()); }
        }
        r
    }
}

/// The chords of an arpeggio.
pub open spec fn arpeggio_view(a: Seq<Chord>) -> Seq<Set<Key>> {
    a.map_values(|c: Chord| c.view())
}

/// Two keys closer together than this many nanoseconds belong to one chord.
pub const CHORD_WINDOW_NANOS: u64 = 50_000_000;

/// The arpeggio that a series of key presses forms; each press comes with the
/// time since the one before it.
pub open spec fn arpeggio_of(events: Seq<(u64, Key)>) -> Seq<Set<Key>>
    decreases events.len(),
{
    if events.len() == 0 {
        Seq::empty()
    } else {
        let a = arpeggio_of(events.drop_last());
        let e = events.last();
        if e.0 < CHORD_WINDOW_NANOS && a.len() > 0 {
            a.update(a.len() - 1, a.last().insert(e.1))
        } else {
            a.push(set![e.1])
        }
    }
}

/// How many of the mappings equal the arpeggio.
pub open spec fn match_count(mappings: Seq<Seq<Set<Key>>>, arpeggio: Seq<Set<Key>>) -> nat
    decreases mappings.len(),
{
    if mappings.len() == 0 {
        0
    } else {
        match_count(mappings.drop_last(), arpeggio) + if mappings.last() == arpeggio { 1nat } else { 0nat }
    }
}

/// An arpeggio that triggers an action. The front end keeps the action
/// itself, by the position of the mapping.
pub struct Mapping {
    mapping: Vec<Chord>,
}

impl Mapping {
    pub closed spec fn wf(&self) -> bool {
        forall|i: int| 0 <= i < self.mapping@.len() ==> #[trigger] self.mapping@[i].wf()
    }

    /// The chords of the mapping.
    pub closed spec fn view(&self) -> Seq<Set<Key>> {
        arpeggio_view(self.mapping@)
    }

    pub fn new(lhs: Vec<Chord>) -> (mapping: Self)
        requires
            forall|i: int| 0 <= i < lhs@.len() ==> #[trigger] lhs@[i].wf(),
        ensures
            mapping.wf(),
            mapping.view() == arpeggio_view(lhs@),
    {
        Mapping { mapping: lhs }
    }
}

struct KeyEvent {
    delta_t_nanos: u64,
    key: Key,
}

/// Collects key presses and tells which mapping they trigger.
pub struct KeymapHandler {
    keymaps: Vec<Mapping>,
    current_key_events: Vec<KeyEvent>,
}

fn same_arpeggio(a: &Vec<Chord>, b: &Vec<Chord>) -> (res: bool)
    ensures
        res == (arpeggio_view(a@) == arpeggio_view(b@)),
{
    if a.len() != b.len() {
        proof { assert(arpeggio_view(a@).len() != arpeggio_view(b@).len()); }
        return false;
    }
    let mut i: usize = 0;
    while i < a.len()
        invariant
            a@.len() == b@.len(),
            i <= a@.len(),
            forall|j: int| 0 <= j < i ==> #[trigger] a@[j].view() == b@[j].view(),
        decreases a@.len() - i,
    {
        if !a[i].same_keys(&b[i]) {
            proof { assert(arpeggio_view(a@)[i as int] != arpeggio_view(b@)[i as int]); }
            return false;
        }
        i = i + 1;
    }
    proof { assert(arpeggio_view(a@) =~= arpeggio_view(b@)); }
    true
}

impl KeymapHandler {
    pub closed spec fn wf(&self) -> bool {
        forall|i: int| 0 <= i < self.keymaps@.len() ==> #[trigger] self.keymaps@[i].wf()
    }

    /// The mappings, in the order they were inserted.
    pub closed spec fn mappings(&self) -> Seq<Seq<Set<Key>>> {
        self.keymaps@.map_values(|m: Mapping| m.view())
    }

    /// The key presses since the last timeout, each with the time since the
    /// press before it.
    pub closed spec fn events(&self) -> Seq<(u64, Key)> {
        self.current_key_events@.map_values(|e: KeyEvent| (e.delta_t_nanos, e.key))
    }

    pub fn new() -> (handler: Self)
        ensures
            handler.wf(),
            handler.mappings() == Seq::<Seq<Set<Key>>>::empty(),
            handler.events() == Seq::<(u64, Key)>::empty(),
    {
        let h = KeymapHandler { keymaps: Vec::new(), current_key_events: Vec::new() };
        assert(h.mappings() =~= Seq::<Seq<Set<Key>>>::empty());
        assert(h.events() =~= Seq::<(u64, Key)>::empty());
        h
    }

    /// Adds a mapping behind the others.
    pub fn insert(&mut self, mapping: Mapping)
        requires
            old(self).wf(),
            mapping.wf(),
        ensures
            final(self).wf(),
            final(self).mappings() == old(self).mappings().push(mapping.view()),
            final(self).events() == old(self).events(),
    {
        self.keymaps.push(mapping);
        proof {
            assert(self.mappings() =~= old(self).mappings().push(mapping.view()));
            assert(self.events() =~= old(self).events());
        }
    }

    /// Records a key press, `delta_t_nanos` after the one before it, and tells
    /// which mapping, if exactly one, the presses since the last timeout form.
    pub fn key_down(&mut self, delta_t_nanos: u64, key: Key) -> (triggered: Option<usize>)
        requires
            old(self).wf(),
        ensures
            final(self).wf(),
            final(self).mappings() == old(self).mappings(),
            final(self).events() == old(self).events().push((delta_t_nanos, key)),
            triggered is Some <==> match_count(final(self).mappings(), arpeggio_of(final(self).events())) == 1,
            triggered matches Some(i) ==> i < final(self).mappings().len()
                && final(self).mappings()[i as int] == arpeggio_of(final(self).events()),
    {
        self.current_key_events.push(KeyEvent { delta_t_nanos, key });
        proof {
            assert(self.mappings() =~= old(self).mappings());
            assert(self.events() =~= old(self).events().push((delta_t_nanos, key)));
        }
        self.check_if_current_key_match()
    }

    /// Tells which mapping the presses so far form, then forgets them.
    pub fn timeout(&mut self) -> (triggered: Option<usize>)
        requires
            old(self).wf(),
        ensures
            final(self).wf(),
            final(self).mappings() == old(self).mappings(),
            final(self).events() == Seq::<(u64, Key)>::empty(),
            triggered is Some <==> match_count(old(self).mappings(), arpeggio_of(old(self).events())) == 1,
            triggered matches Some(i) ==> i < old(self).mappings().len()
                && old(self).mappings()[i as int] == arpeggio_of(old(self).events()),
    {
        let triggered = self.check_if_current_key_match();
        self.current_key_events.clear();
        proof {
            assert(self.mappings() =~= old(self).mappings());
            assert(self.events() =~= Seq::<(u64, Key)>::empty());
        }
        triggered
    }

    fn current_arpeggio(&self) -> (arpeggio: Vec<Chord>)
        ensures
            arpeggio_view(arpeggio@) == arpeggio_of(self.events()),
            forall|i: int| 0 <= i < arpeggio@.len() ==> #[trigger] arpeggio@[i].wf(),
    {
        let mut arpeggio: Vec<Chord> = Vec::new();
        let mut j: usize = 0;
        while j < self.current_key_events.len()
            invariant
                j <= self.current_key_events@.len(),
                arpeggio_view(arpeggio@) == arpeggio_of(self.events().take(j as int)),
                forall|i: int| 0 <= i < arpeggio@.len() ==> #[trigger] arpeggio@[i].wf(),
            decreases self.current_key_events@.len() - j,
        {
            let event = &self.current_key_events[j];
            let ghost prev = arpeggio@;
            proof {
                assert(self.events().take(j + 1).drop_last() =~= self.events().take(j as int));
                assert(self.events().take(j + 1).last() == (event.delta_t_nanos, event.key));
            }
            if event.delta_t_nanos < CHORD_WINDOW_NANOS && arpeggio.len() > 0 {
                let last = arpeggio.pop().unwrap();
                let chord = last.and(event.key);
                arpeggio.push(chord);
                proof {
                    assert(arpeggio_view(arpeggio@) =~= arpeggio_view(prev).update(
                        prev.len() - 1,
                        arpeggio_view(prev).last().insert(event.key),
                    ));
                }
            } else {
                arpeggio.push(Chord::with(event.key));
                proof {
                    assert(arpeggio_view(arpeggio@) =~= arpeggio_view(prev).push(set![event.key]));
                }
            }
            j = j + 1;
        }
        proof { assert(self.events().take(j as int) =~= self.events()); }
        arpeggio
    }

    /// The position of the one mapping that the presses so far form; `None`
    /// when none or more than one does.
    pub fn check_if_current_key_match(&self) -> (triggered: Option<usize>)
        requires
            self.wf(),
        ensures
            triggered is Some <==> match_count(self.mappings(), arpeggio_of(self.events())) == 1,
            triggered matches Some(i) ==> i < self.mappings().len()
                && self.mappings()[i as int] == arpeggio_of(self.events()),
    {
        let arpeggio = self.current_arpeggio();
        let ghost a = arpeggio_of(self.events());
        let mut count: usize = 0;
        let mut found: usize = 0;
        let mut i: usize = 0;
        while i < self.keymaps.len()
            invariant
                i <= self.keymaps@.len(),
                arpeggio_view(arpeggio@) == a,
                count == match_count(self.mappings().take(i as int), a),
                count <= i,
                count > 0 ==> found < i && self.mappings()[found as int] == a,
            decreases self.keymaps@.len() - i,
        {
            proof {
                assert(self.mappings().take(i + 1).drop_last() =~= self.mappings().take(i as int));
                assert(self.mappings().take(i + 1).last() == self.keymaps@[i as int].view());
            }
            if same_arpeggio(&self.keymaps[i].mapping, &arpeggio) {
                count = count + 1;
                found = i;
            }
            i = i + 1;
        }
        proof { assert(self.mappings().take(i as int) =~= self.mappings()); }
        if count == 1 {
            Some(found)
        } else {
            None
        }
    }
}

} // verus!
