//! Views of buffers: the lines of a buffer as a front end shows them, a
//! cursor in them, and the part that is scrolled into sight.
use vstd::prelude::*;
use vstd::string::*;
use vstd::utf8::*;
use crate::rpc;
use crate::str_map::StrMap;
use crate::ids::new_id;

verus! {

broadcast use {
    vstd::utf8::encode_utf8_valid_utf8,
    vstd::utf8::is_char_boundary_start_end_of_seq,
    vstd::utf8::is_char_boundary_iff_not_is_continuation_byte,
    vstd::utf8::valid_utf8_split,
};

/// The error of a request that names a cursor that no view has.
#[derive(Debug, Clone, Copy, PartialEq, Eq, Structural)]
pub enum BufferViewError {
    UnknownCursor,
}

/// The JSON text of the string `unknown_cursor`.
pub open spec fn unknown_cursor_details() -> Seq<char> {
    "\"unknown_cursor\""@
}

impl BufferViewError {
    /// The RPC error that reports this error to the caller.
    pub fn to_rpc_error(self) -> (err: rpc::Error)
        ensures
            err.kind == rpc::ErrorKind::InvalidArgs,
            err.details matches Some(d) && d@ == unknown_cursor_details(),
    {
        proof { reveal_strlit("\"unknown_cursor\""); }
        rpc::Error { kind: rpc::ErrorKind::InvalidArgs, details: Some(String::from_str("\"unknown_cursor\"")) }
    }
}

/// The arguments of `gui.buffer_view.scroll`.
#[derive(Debug, Clone, PartialEq, Eq)]
pub struct ScrollRequest {
    pub buffer_view_id: String,
    pub delta: isize,
}

/// The answer of `gui.buffer_view.scroll`.
#[derive(Debug, Clone, Copy, PartialEq, Eq, Structural)]
pub struct ScrollResponse;

/// A place in a buffer.
#[derive(Debug, Clone, Copy, PartialEq, Eq, Structural)]
pub struct Position {
    /// 0 based line index into the buffer.
    pub line_index: isize,
    /// 0 based glyph index into the line. A multibyte character only counts
    /// as one here.
    pub column_index: isize,
}

impl Position {
    /// The position moved by `rhs`, line and column each.
    pub fn add(self, rhs: Position) -> (res: Position)
        requires
            isize::MIN <= self.line_index + rhs.line_index <= isize::MAX,
            isize::MIN <= self.column_index + rhs.column_index <= isize::MAX,
        ensures
            res.line_index == self.line_index + rhs.line_index,
            res.column_index == self.column_index + rhs.column_index,
    {
        Position {
            line_index: self.line_index + rhs.line_index,
            column_index: self.column_index + rhs.column_index,
        }
    }
}

/// A cursor: where it wants to be, and where it is in the lines there are.
pub struct Cursor {
    id: String,
    pub wanted_position: Position,
    pub position: Position,
}

impl Cursor {
    /// The identifier of the cursor.
    pub closed spec fn id_spec(&self) -> Seq<char> {
        self.id@
    }

    /// Where the cursor wants to be.
    pub closed spec fn wanted_spec(&self) -> Position {
        self.wanted_position
    }

    /// Where the cursor is.
    pub closed spec fn position_spec(&self) -> Position {
        self.position
    }

    /// A cursor at the start, with a fresh random identifier.
    pub fn new() -> (cursor: Self)
        ensures
            cursor.id_spec().len() == 36,
            cursor.wanted_spec() == (Position { line_index: 0, column_index: 0 }),
            cursor.position_spec() == (Position { line_index: 0, column_index: 0 }),
    {
        Self::with_id(new_id())
    }

    /// A cursor at the start, with the given identifier.
    pub fn with_id(id: String) -> (cursor: Self)
        ensures
            cursor.id_spec() == id@,
            cursor.wanted_spec() == (Position { line_index: 0, column_index: 0 }),
            cursor.position_spec() == (Position { line_index: 0, column_index: 0 }),
    {
        Cursor {
            id,
            wanted_position: Position { line_index: 0, column_index: 0 },
            position: Position { line_index: 0, column_index: 0 },
        }
    }

    pub fn id(&self) -> (id: &str)
        ensures
            id@ == self.id_spec(),
    {
        self.id.as_str()
    }
}

/// The arguments of `gui.buffer_view.move_cursor`.
#[derive(Debug, Clone, PartialEq, Eq)]
pub struct MoveCursorRequest {
    pub cursor_id: String,
    pub delta: Position,
}

/// The answer of `gui.buffer_view.move_cursor`.
#[derive(Debug, Clone, Copy, PartialEq, Eq, Structural)]
pub struct MoveCursorResponse;

/// The pieces of `bytes` between the separators, as `str::split` gives them:
/// one more piece than there are separators.
pub open spec fn split_bytes(bytes: Seq<u8>, sep: u8) -> Seq<Seq<u8>>
    decreases bytes.len(),
{
    if bytes.len() == 0 {
        seq![Seq::<u8>::empty()]
    } else {
        let prev = split_bytes(bytes.drop_last(), sep);
        if bytes.last() == sep {
            prev.push(Seq::<u8>::empty())
        } else {
            prev.update(prev.len() - 1, prev.last().push(bytes.last()))
        }
    }
}

pub proof fn lemma_split_bytes_nonempty(bytes: Seq<u8>, sep: u8)
    ensures
        split_bytes(bytes, sep).len() >= 1,
    decreases bytes.len(),
{
    if bytes.len() > 0 {
        lemma_split_bytes_nonempty(bytes.drop_last(), sep);
    }
}

/// The pieces put back together, with `sep` between every two of them.
pub open spec fn join_bytes(pieces: Seq<Seq<u8>>, sep: u8) -> Seq<u8>
    decreases pieces.len(),
{
    if pieces.len() == 0 {
        Seq::empty()
    } else if pieces.len() == 1 {
        pieces[0]
    } else {
        join_bytes(pieces.drop_last(), sep).push(sep) + pieces.last()
    }
}

/// Splitting at a separator loses nothing and keeps no separator: the
/// pieces put back together with the separator between them give the bytes
/// back, and no piece holds the separator. So there is one piece more than
/// there are separators.
pub proof fn lemma_split_bytes_join(bytes: Seq<u8>, sep: u8)
    ensures
        join_bytes(split_bytes(bytes, sep), sep) == bytes,
        forall|i: int| 0 <= i < split_bytes(bytes, sep).len() ==> !(#[trigger] split_bytes(bytes, sep)[i]).contains(sep),
    decreases bytes.len(),
{
    if bytes.len() == 0 {
        assert(!Seq::<u8>::empty().contains(sep));
    } else {
        let d = bytes.drop_last();
        let b = bytes.last();
        let prev = split_bytes(d, sep);
        lemma_split_bytes_join(d, sep);
        lemma_split_bytes_nonempty(d, sep);
        let cur = split_bytes(bytes, sep);
        if b == sep {
            assert(cur.drop_last() =~= prev);
            assert(join_bytes(cur, sep) =~= d.push(sep) + Seq::<u8>::empty());
            assert(bytes =~= d.push(sep));
            assert forall|i: int| 0 <= i < cur.len() implies !(#[trigger] cur[i]).contains(sep) by {
                if i < prev.len() {
                    assert(cur[i] == prev[i]);
                } else {
                    assert(!Seq::<u8>::empty().contains(sep));
                }
            }
        } else {
            let n = prev.len() as int;
            let x = prev.last().push(b);
            if n == 1 {
                assert(join_bytes(cur, sep) == x);
                assert(prev.last() == join_bytes(prev, sep));
            } else {
                assert(cur.drop_last() =~= prev.drop_last());
                assert(join_bytes(cur, sep) == join_bytes(prev.drop_last(), sep).push(sep) + x);
                assert(join_bytes(prev, sep) == join_bytes(prev.drop_last(), sep).push(sep) + prev.last());
                assert(join_bytes(cur, sep) =~= join_bytes(prev, sep).push(b));
            }
            assert(bytes =~= d.push(b));
            assert forall|i: int| 0 <= i < cur.len() implies !(#[trigger] cur[i]).contains(sep) by {
                if i < n - 1 {
                    assert(cur[i] == prev[i]);
                } else {
                    assert(cur[i] == x);
                    assert(!prev[n - 1].contains(sep));
                    if x.contains(sep) {
                        let j = choose|j: int| 0 <= j < x.len() && x[j] == sep;
                        if j < prev.last().len() {
                            assert(prev.last()[j] == sep);
                        }
                    }
                }
            }
        }
    }
}

/// The UTF-8 bytes of each line.
pub open spec fn lines_bytes(lines: Seq<String>) -> Seq<Seq<u8>> {
    lines.map_values(|l: String| encode_utf8(l@))
}

proof fn lemma_boundary_after_ascii(bytes: Seq<u8>, r: int)
    requires
        valid_utf8(bytes),
        0 <= r < bytes.len(),
        bytes[r] < 0x80,
        is_char_boundary(bytes, r),
    ensures
        is_char_boundary(bytes, r + 1),
    decreases bytes.len(),
{
    reveal_with_fuel(is_char_boundary, 2);
    reveal_with_fuel(valid_utf8, 2);
    let pop = pop_first_scalar(bytes);
    if r == 0 {
        assert(length_of_first_scalar(bytes) == 1);
        assert(is_char_boundary(pop, 0));
    } else {
        let l = length_of_first_scalar(bytes);
        assert(is_char_boundary(pop, r - l));
        assert(r - l >= 0);
        assert(pop.len() == bytes.len() - l);
        assert(pop[r - l] == bytes[r]);
        if r - l < pop.len() {
            lemma_boundary_after_ascii(pop, r - l);
        }
    }
}

/// The lines of `content`, split at each newline.
pub fn split_lines(content: &str) -> (lines: Vec<String>)
    ensures
        lines_bytes(lines@) == split_bytes(content.spec_bytes(), 10u8),
        join_bytes(lines_bytes(lines@), 10u8) == content.spec_bytes(),
        forall|i: int| 0 <= i < lines@.len() ==> !encode_utf8((#[trigger] lines@[i])@).contains(10u8),
{
    let bytes = content.as_bytes();
    let ghost all = bytes@;
    let mut lines: Vec<String> = Vec::new();
    let mut rest: &str = content;
    let mut start: usize = 0;
    let mut i: usize = 0;
    proof {
        assert(all.take(0) =~= Seq::<u8>::empty());
        assert(lines_bytes(lines@) =~= Seq::<Seq<u8>>::empty());
        assert(all.subrange(0, 0) =~= Seq::<u8>::empty());
        assert(lines_bytes(lines@).push(all.subrange(0, 0)) =~= seq![Seq::<u8>::empty()]);
    }
    while i < bytes.len()
        invariant
            bytes@ == all,
            all == content.spec_bytes(),
            start <= i <= all.len(),
            rest.spec_bytes() == all.subrange(start as int, all.len() as int),
            lines_bytes(lines@).push(all.subrange(start as int, i as int)) == split_bytes(all.take(i as int), 10u8),
        decreases all.len() - i,
    {
        let ghost prev_lines = lines_bytes(lines@);
        proof {
            assert(all.take(i + 1).drop_last() =~= all.take(i as int));
            assert(all.take(i + 1).last() == all[i as int]);
        }
        if bytes[i] == 10u8 {
            let r = i - start;
            let ghost rb = rest.spec_bytes();
            proof {
                assert(rb[r as int] == 10u8);
                assert(!is_continuation_byte(rb[r as int]));
                assert(is_char_boundary(rb, r as int));
            }
            let (line, tail) = rest.split_at(r);
            proof {
                let tb = tail.spec_bytes();
                assert(tb[0] == 10u8);
                assert(is_char_boundary(tb, 0));
                lemma_boundary_after_ascii(tb, 0);
            }
            let (_, after) = tail.split_at(1);
            let owned = line.to_owned();
            lines.push(owned);
            proof {
                assert(encode_utf8(owned@) == line.spec_bytes());
                assert(line.spec_bytes() =~= all.subrange(start as int, i as int));
                assert(lines_bytes(lines@) =~= prev_lines.push(all.subrange(start as int, i as int)));
                assert(after.spec_bytes() =~= all.subrange(i + 1, all.len() as int));
                assert(all.subrange(i + 1, i + 1) =~= Seq::<u8>::empty());
            }
            rest = after;
            start = i + 1;
        } else {
            proof {
                assert(all.subrange(start as int, i + 1) =~= all.subrange(start as int, i as int).push(all[i as int]));
                assert(prev_lines.push(all.subrange(start as int, i + 1)) =~=
                    prev_lines.push(all.subrange(start as int, i as int)).update(
                        prev_lines.len() as int,
                        all.subrange(start as int, i as int).push(all[i as int]),
                    ));
            }
        }
        i = i + 1;
    }
    let owned = rest.to_owned();
    let ghost prev_lines = lines_bytes(lines@);
    lines.push(owned);
    proof {
        assert(encode_utf8(owned@) == rest.spec_bytes());
        assert(all.take(i as int) =~= all);
        assert(lines_bytes(lines@) =~= prev_lines.push(all.subrange(start as int, i as int)));
        lemma_split_bytes_join(all, 10u8);
        assert forall|k: int| 0 <= k < lines@.len() implies !encode_utf8((#[trigger] lines@[k])@).contains(10u8) by {
            assert(lines_bytes(lines@)[k] == encode_utf8(lines@[k]@));
        }
    }
    lines
}

pub proof fn lemma_split_bytes_bounds(bytes: Seq<u8>, sep: u8)
    ensures
        split_bytes(bytes, sep).len() <= bytes.len() + 1,
        forall|i: int| 0 <= i < split_bytes(bytes, sep).len() ==> #[trigger] split_bytes(bytes, sep)[i].len() <= bytes.len(),
    decreases bytes.len(),
{
    if bytes.len() > 0 {
        lemma_split_bytes_bounds(bytes.drop_last(), sep);
        lemma_split_bytes_nonempty(bytes.drop_last(), sep);
    }
}

pub open spec fn min_int(a: int, b: int) -> int {
    if a < b { a } else { b }
}

pub open spec fn max_int(a: int, b: int) -> int {
    if a > b { a } else { b }
}

/// Where a cursor that wants to be at `wanted` ends up in `lines`: on the
/// nearest line there is, and on the nearest character of that line.
pub open spec fn clamped_position(lines: Seq<String>, wanted: Position) -> Position {
    let line = max_int(0, min_int(lines.len() - 1, wanted.line_index as int));
    let column = if 0 <= line < lines.len() {
        max_int(0, min_int(lines[line]@.len() - 1, wanted.column_index as int))
    } else {
        0
    };
    Position { line_index: line as isize, column_index: column as isize }
}

/// `p` names a place in `lines`: an existing line, and on it an existing
/// character, or the start of the line where the line is empty.
pub open spec fn in_text(lines: Seq<String>, p: Position) -> bool {
    &&& 0 <= p.line_index < lines.len()
    &&& 0 <= p.column_index
    &&& lines[p.line_index as int]@.len() == 0 ==> p.column_index == 0
    &&& lines[p.line_index as int]@.len() > 0 ==> p.column_index < lines[p.line_index as int]@.len()
}

/// A cursor never ends up outside the text: wherever it is sent, it lands
/// on an existing line and on an existing character of it (the start of an
/// empty line). A place that is in the text is kept as it is; past the last
/// line it lands on the last line, above the first on the first; past the
/// end of a line on its last character, before its start on its first.
pub proof fn lemma_clamped_position_in_text(lines: Seq<String>, wanted: Position)
    requires
        1 <= lines.len() <= isize::MAX,
        forall|i: int| 0 <= i < lines.len() ==> (#[trigger] lines[i])@.len() <= isize::MAX,
    ensures
        in_text(lines, clamped_position(lines, wanted)),
        in_text(lines, wanted) ==> clamped_position(lines, wanted) == wanted,
        wanted.line_index >= lines.len() ==> clamped_position(lines, wanted).line_index == lines.len() - 1,
        wanted.line_index < 0 ==> clamped_position(lines, wanted).line_index == 0,
        0 <= wanted.line_index < lines.len() ==> clamped_position(lines, wanted).line_index == wanted.line_index,
        ({
            let p = clamped_position(lines, wanted);
            let len = lines[p.line_index as int]@.len();
            &&& (wanted.column_index < 0 ==> p.column_index == 0)
            &&& (len > 0 && wanted.column_index >= len ==> p.column_index == len - 1)
            &&& (0 <= wanted.column_index < len ==> p.column_index == wanted.column_index)
        }),
{
    let line = max_int(0, min_int(lines.len() - 1, wanted.line_index as int));
    assert(0 <= line < lines.len());
    let len = lines[line]@.len();
    assert(len <= isize::MAX);
    let column = max_int(0, min_int(len - 1, wanted.column_index as int));
    assert(clamped_position(lines, wanted).line_index == line);
    assert(clamped_position(lines, wanted).column_index == column);
}

/// A text has no more characters than its UTF-8 encoding has bytes.
pub proof fn lemma_chars_within_bytes(chars: Seq<char>)
    ensures
        chars.len() <= encode_utf8(chars).len(),
    decreases chars.len(),
{
    if chars.len() > 0 {
        lemma_chars_within_bytes(chars.drop_first());
    }
}

/// The lines of a buffer as a front end shows them.
pub struct BufferView {
    id: String,
    pub cursor: Cursor,
    pub width: usize,
    pub height: usize,
    pub top_line_index: isize,
    pub lines: Vec<String>,
}

impl BufferView {
    pub open spec fn wf(&self) -> bool {
        &&& self.lines_spec().len() >= 1
        &&& self.lines_spec().len() <= isize::MAX
        &&& forall|i: int| 0 <= i < self.lines_spec().len() ==> #[trigger] encode_utf8(self.lines_spec()[i]@).len() <= isize::MAX
    }

    pub closed spec fn id_spec(&self) -> Seq<char> {
        self.id@
    }

    pub closed spec fn lines_spec(&self) -> Seq<String> {
        self.lines@
    }

    pub closed spec fn cursor_spec(&self) -> Cursor {
        self.cursor
    }

    pub closed spec fn top_spec(&self) -> isize {
        self.top_line_index
    }

    pub closed spec fn size_spec(&self) -> (usize, usize) {
        (self.width, self.height)
    }

    /// A view of `content`, with fresh random identifiers for it and its cursor.
    pub fn new(width: usize, height: usize, content: &str) -> (view: Self)
        requires
            content.spec_bytes().len() < isize::MAX,
        ensures
            view.wf(),
            view.id_spec().len() == 36,
            view.cursor_spec().id_spec().len() == 36,
            view.cursor_spec().wanted_spec() == (Position { line_index: 0, column_index: 0 }),
            view.cursor_spec().position_spec() == (Position { line_index: 0, column_index: 0 }),
            lines_bytes(view.lines_spec()) == split_bytes(content.spec_bytes(), 10u8),
            join_bytes(lines_bytes(view.lines_spec()), 10u8) == content.spec_bytes(),
            forall|i: int| 0 <= i < view.lines_spec().len() ==> !encode_utf8((#[trigger] view.lines_spec()[i])@).contains(10u8),
            view.top_spec() == 0,
            view.size_spec() == (width, height),
    {
        let view_id = new_id();
        Self::with_ids(view_id, new_id(), width, height, content)
    }

    /// A view of `content` at the top, its cursor at the start.
    pub fn with_ids(view_id: String, cursor_id: String, width: usize, height: usize, content: &str) -> (view: Self)
        requires
            content.spec_bytes().len() < isize::MAX,
        ensures
            view.wf(),
            view.id_spec() == view_id@,
            view.cursor_spec().id_spec() == cursor_id@,
            view.cursor_spec().wanted_spec() == (Position { line_index: 0, column_index: 0 }),
            view.cursor_spec().position_spec() == (Position { line_index: 0, column_index: 0 }),
            lines_bytes(view.lines_spec()) == split_bytes(content.spec_bytes(), 10u8),
            join_bytes(lines_bytes(view.lines_spec()), 10u8) == content.spec_bytes(),
            forall|i: int| 0 <= i < view.lines_spec().len() ==> !encode_utf8((#[trigger] view.lines_spec()[i])@).contains(10u8),
            view.top_spec() == 0,
            view.size_spec() == (width, height),
    {
        let lines = split_lines(content);
        proof {
            let b = content.spec_bytes();
            lemma_split_bytes_bounds(b, 10u8);
            lemma_split_bytes_nonempty(b, 10u8);
            assert(lines@.len() == split_bytes(b, 10u8).len());
            assert forall|i: int| 0 <= i < lines@.len() implies #[trigger] encode_utf8(lines@[i]@).len() <= isize::MAX by {
                assert(lines_bytes(lines@)[i] == split_bytes(b, 10u8)[i]);
            }
        }
        BufferView {
            id: view_id,
            top_line_index: 0,
            width,
            height,
            lines,
            cursor: Cursor::with_id(cursor_id),
        }
    }

    /// Scrolls by `delta` lines, but not above the first line nor below the last.
    pub fn scroll(&mut self, delta: isize)
        requires
            old(self).wf(),
            isize::MIN <= old(self).top_spec() + delta <= isize::MAX,
        ensures
            final(self).wf(),
            final(self).top_spec() == max_int(0, min_int(old(self).lines_spec().len() - 1, old(self).top_spec() + delta)),
            final(self).lines_spec() == old(self).lines_spec(),
            final(self).cursor_spec() == old(self).cursor_spec(),
            final(self).id_spec() == old(self).id_spec(),
            final(self).size_spec() == old(self).size_spec(),
    {
        self.top_line_index = self.top_line_index + delta;
        let last = (self.lines.len() - 1) as isize;
        if last < self.top_line_index {
            self.top_line_index = last;
        }
        if self.top_line_index < 0 {
            self.top_line_index = 0;
        }
    }

    pub fn id(&self) -> (id: &str)
        ensures
            id@ == self.id_spec(),
    {
        self.id.as_str()
    }

    /// Moves the cursor by `delta` from where it wants to be, and puts it on
    /// the nearest place there is.
    fn move_cursor_by(&mut self, delta: Position)
        requires
            old(self).wf(),
            isize::MIN <= old(self).cursor_spec().wanted_spec().line_index + delta.line_index <= isize::MAX,
            isize::MIN <= old(self).cursor_spec().wanted_spec().column_index + delta.column_index <= isize::MAX,
        ensures
            moved_by(*final(self), *old(self), delta),
    {
        let wanted = self.cursor.wanted_position.add(delta);
        self.cursor.wanted_position = wanted;
        let n = self.lines.len() as isize;
        let mut line = wanted.line_index;
        if n - 1 < line {
            line = n - 1;
        }
        if line < 0 {
            line = 0;
        }
        let column = if line < n {
            proof {
                lemma_chars_within_bytes(self.lines@[line as int]@);
            }
            let len = self.lines[line as usize].as_str().unicode_len() as isize;
            let mut c = wanted.column_index;
            if len - 1 < c {
                c = len - 1;
            }
            if c < 0 {
                c = 0;
            }
            c
        } else {
            0
        };
        self.cursor.position = Position { line_index: line, column_index: column };
        proof {
            let lines = self.lines_spec();
            assert forall|i: int| 0 <= i < lines.len() implies (#[trigger] lines[i])@.len() <= isize::MAX by {
                lemma_chars_within_bytes(lines[i]@);
            }
            lemma_clamped_position_in_text(lines, wanted);
        }
    }
}

/// `view` is `before` with its cursor moved by `delta`.
pub open spec fn moved_by(view: BufferView, before: BufferView, delta: Position) -> bool {
    let wanted = Position {
        line_index: (before.cursor_spec().wanted_spec().line_index + delta.line_index) as isize,
        column_index: (before.cursor_spec().wanted_spec().column_index + delta.column_index) as isize,
    };
    &&& view.wf()
    &&& view.lines_spec() == before.lines_spec()
    &&& view.id_spec() == before.id_spec()
    &&& view.top_spec() == before.top_spec()
    &&& view.size_spec() == before.size_spec()
    &&& view.cursor_spec().id_spec() == before.cursor_spec().id_spec()
    &&& view.cursor_spec().wanted_spec() == wanted
    &&& view.cursor_spec().position_spec() == clamped_position(before.lines_spec(), wanted)
    &&& in_text(view.lines_spec(), view.cursor_spec().position_spec())
}

/// All buffer views of a front end, by identifier.
pub struct BufferViews {
    buffer_views: StrMap<BufferView>,
}

impl BufferViews {
    pub closed spec fn wf(&self) -> bool {
        &&& self.buffer_views.wf()
        &&& forall|k: Seq<char>| #[trigger] self.buffer_views.view().dom().contains(k) ==> {
            &&& self.buffer_views.view()[k].wf()
            &&& self.buffer_views.view()[k].id_spec() == k
        }
    }

    /// The views by identifier.
    pub closed spec fn views(&self) -> Map<Seq<char>, BufferView> {
        self.buffer_views.view()
    }

    pub fn new() -> (views: Self)
        ensures
            views.wf(),
            views.views() == Map::<Seq<char>, BufferView>::empty(),
    {
        BufferViews { buffer_views: StrMap::new() }
    }

    /// Adds a view and hands out its identifier.
    pub fn insert_view(&mut self, view: BufferView) -> (id: String)
        requires
            old(self).wf(),
            view.wf(),
        ensures
            final(self).wf(),
            id@ == view.id_spec(),
            final(self).views() == old(self).views().insert(view.id_spec(), view),
    {
        let id = view.id.clone();
        self.buffer_views.insert(view.id.clone(), view);
        id
    }

    /// A view of `content`, under a fresh identifier; hands out the identifier.
    pub fn new_view(&mut self, content: &str, width: usize, height: usize) -> (id: String)
        requires
            old(self).wf(),
            content.spec_bytes().len() < isize::MAX,
        ensures
            final(self).wf(),
            id@.len() == 36,
            final(self).views() == old(self).views().insert(id@, final(self).views()[id@]),
            final(self).views()[id@].id_spec() == id@,
            lines_bytes(final(self).views()[id@].lines_spec()) == split_bytes(content.spec_bytes(), 10u8),
            final(self).views()[id@].top_spec() == 0,
            final(self).views()[id@].size_spec() == (width, height),
            final(self).views()[id@].cursor_spec().id_spec().len() == 36,
            final(self).views()[id@].cursor_spec().wanted_spec() == (Position { line_index: 0, column_index: 0 }),
            final(self).views()[id@].cursor_spec().position_spec() == (Position { line_index: 0, column_index: 0 }),
    {
        let view = BufferView::new(width, height, content);
        self.insert_view(view)
    }

    pub fn get(&self, id: &String) -> (view: Option<&BufferView>)
        requires
            self.wf(),
        ensures
            view is Some <==> self.views().dom().contains(id@),
            view matches Some(v) ==> *v == self.views()[id@],
    {
        self.buffer_views.get(id)
    }

    /// Scrolls the view with the given identifier; false when there is none.
    pub fn scroll(&mut self, buffer_view_id: &String, delta: isize) -> (scrolled: bool)
        requires
            old(self).wf(),
            old(self).views().dom().contains(buffer_view_id@) ==>
                isize::MIN <= old(self).views()[buffer_view_id@].top_spec() + delta <= isize::MAX,
        ensures
            final(self).wf(),
            scrolled == old(self).views().dom().contains(buffer_view_id@),
            final(self).views().dom() == old(self).views().dom(),
            scrolled ==> {
                let before = old(self).views()[buffer_view_id@];
                let after = final(self).views()[buffer_view_id@];
                &&& after.top_spec() == max_int(0, min_int(before.lines_spec().len() - 1, before.top_spec() + delta))
                &&& after.lines_spec() == before.lines_spec()
                &&& after.cursor_spec() == before.cursor_spec()
                &&& after.size_spec() == before.size_spec()
                &&& forall|k: Seq<char>| k != buffer_view_id@ && #[trigger] old(self).views().dom().contains(k)
                    ==> final(self).views()[k] == old(self).views()[k]
            },
            !scrolled ==> final(self).views() == old(self).views(),
    {
        match self.buffer_views.remove(buffer_view_id) {
            Some(mut view) => {
                view.scroll(delta);
                self.buffer_views.insert(buffer_view_id.clone(), view);
                proof {
                    assert(self.views().dom() =~= old(self).views().dom());
                }
                true
            },
            None => false,
        }
    }

    /// Moves the cursor with the given identifier by `delta`.
    pub fn move_cursor(&mut self, id: &str, delta: Position) -> (res: Result<(), BufferViewError>)
        requires
            old(self).wf(),
            forall|k: Seq<char>| #[trigger] old(self).views().dom().contains(k)
                && old(self).views()[k].cursor_spec().id_spec() == id@ ==> {
                &&& isize::MIN <= old(self).views()[k].cursor_spec().wanted_spec().line_index + delta.line_index <= isize::MAX
                &&& isize::MIN <= old(self).views()[k].cursor_spec().wanted_spec().column_index + delta.column_index <= isize::MAX
            },
        ensures
            final(self).wf(),
            res is Ok <==> exists|k: Seq<char>| #[trigger] old(self).views().dom().contains(k)
                && old(self).views()[k].cursor_spec().id_spec() == id@,
            res is Err ==> final(self).views() == old(self).views(),
            res is Ok ==> exists|k: Seq<char>| #[trigger] old(self).views().dom().contains(k) && {
                &&& old(self).views()[k].cursor_spec().id_spec() == id@
                &&& final(self).views().dom() == old(self).views().dom()
                &&& moved_by(final(self).views()[k], old(self).views()[k], delta)
                &&& forall|j: Seq<char>| j != k && #[trigger] old(self).views().dom().contains(j)
                    ==> final(self).views()[j] == old(self).views()[j]
            },
            res matches Err(e) ==> e == BufferViewError::UnknownCursor,
    {
        proof { self.buffer_views.lemma_keys(); }
        let n = self.buffer_views.len();
        let mut i: usize = 0;
        while i < n
            invariant
                *self == *old(self),
                self.wf(),
                forall|k: Seq<char>| #[trigger] old(self).views().dom().contains(k)
                    && old(self).views()[k].cursor_spec().id_spec() == id@ ==> {
                    &&& isize::MIN <= old(self).views()[k].cursor_spec().wanted_spec().line_index + delta.line_index <= isize::MAX
                    &&& isize::MIN <= old(self).views()[k].cursor_spec().wanted_spec().column_index + delta.column_index <= isize::MAX
                },
                n == self.buffer_views.keys().len(),
                i <= n,
                self.buffer_views.keys().no_duplicates(),
                forall|k: Seq<char>| #[trigger] self.buffer_views.view().dom().contains(k) <==> self.buffer_views.keys().contains(k),
                forall|j: int| 0 <= j < self.buffer_views.keys().len() ==> #[trigger] self.buffer_views.view()[self.buffer_views.keys()[j]] == self.buffer_views.value_spec(j),
                forall|j: int| 0 <= j < i ==> (#[trigger] self.buffer_views.value_spec(j)).cursor_spec().id_spec() != id@,
            decreases n - i,
        {
            let matches = {
                let view = self.buffer_views.value_at(i);
                crate::text::str_eq(view.cursor.id(), id)
            };
            if matches {
                let key = self.buffer_views.key_at(i).clone();
                let ghost k = key@;
                proof {
                    assert(self.buffer_views.view().dom().contains(self.buffer_views.keys()[i as int]));
                    assert(self.buffer_views.view()[k] == self.buffer_views.value_spec(i as int));
                    assert(self.buffer_views.view()[k].wf());
                    assert(old(self).views().dom().contains(k));
                    assert(old(self).views()[k].cursor_spec().id_spec() == id@);
                }
                let mut view = self.buffer_views.remove(&key).unwrap();
                proof {
                    assert(view == old(self).views()[k]);
                    assert(isize::MIN <= view.cursor_spec().wanted_spec().line_index + delta.line_index <= isize::MAX);
                }
                view.move_cursor_by(delta);
                self.buffer_views.insert(key, view);
                proof {
                    assert(self.views().dom() =~= old(self).views().dom());
                }
                return Ok(());
            }
            i = i + 1;
        }
        proof {
            assert forall|k: Seq<char>| #[trigger] old(self).views().dom().contains(k)
                implies old(self).views()[k].cursor_spec().id_spec() != id@ by {
                let j = choose|j: int| 0 <= j < self.buffer_views.keys().len() && self.buffer_views.keys()[j] == k;
                assert(self.buffer_views.value_spec(j).cursor_spec().id_spec() != id@);
            }
        }
        Err(BufferViewError::UnknownCursor)
    }
}

} // verus!
