//! The text under the cursor: editing, moving, and its history of changes.
use vstd::prelude::*;

use crate::text;
use crate::wrap;

verus! {

/// How many changes can be taken back.
pub const UNDO_LIMIT: usize = 200;

/// A text being written, its cursor, and the states to go back and forward to.
#[derive(Debug)]
pub struct Document {
    pub text: Vec<char>,
    pub cursor: usize,
    pub dirty: bool,
    pub preferred_column: Option<usize>,
    pub undo: Vec<(Vec<char>, usize)>,
    pub redo: Vec<(Vec<char>, usize)>,
}

/// What a document holds.
#[verifier::ext_equal]
pub struct DocumentView {
    pub text: Seq<char>,
    pub cursor: int,
    pub dirty: bool,
    pub preferred_column: Option<int>,
    pub undo: Seq<(Seq<char>, int)>,
    pub redo: Seq<(Seq<char>, int)>,
}

/// A saved state as a mathematical value.
pub open spec fn moment(saved: (Vec<char>, usize)) -> (Seq<char>, int) {
    (saved.0@, saved.1 as int)
}

pub open spec fn moments(saved: Seq<(Vec<char>, usize)>) -> Seq<(Seq<char>, int)> {
    saved.map_values(|s: (Vec<char>, usize)| moment(s))
}

impl View for Document {
    type V = DocumentView;

    open spec fn view(&self) -> DocumentView {
        DocumentView {
            text: self.text@,
            cursor: self.cursor as int,
            dirty: self.dirty,
            preferred_column: match self.preferred_column {
                Some(column) => Some(column as int),
                None => None,
            },
            undo: moments(self.undo@),
            redo: moments(self.redo@),
        }
    }
}

/// A cursor stands in its text.
pub open spec fn moment_wf(saved: (Seq<char>, int)) -> bool {
    0 <= saved.1 <= saved.0.len()
}

impl DocumentView {
    /// The cursor and every remembered cursor stand in their texts, and no more
    /// than `UNDO_LIMIT` states are remembered.
    pub open spec fn wf(self) -> bool {
        &&& 0 <= self.cursor <= self.text.len()
        &&& self.undo.len() + self.redo.len() <= UNDO_LIMIT
        &&& forall|i: int| 0 <= i < self.undo.len() ==> moment_wf(#[trigger] self.undo[i])
        &&& forall|i: int| 0 <= i < self.redo.len() ==> moment_wf(#[trigger] self.redo[i])
    }

    /// The present text and cursor.
    pub open spec fn now(self) -> (Seq<char>, int) {
        (self.text, self.cursor)
    }

    /// The present state remembered, the oldest dropped past the limit, and
    /// nothing left to go forward to.
    pub open spec fn checkpointed(self) -> DocumentView {
        let undo = self.undo.push(self.now());
        DocumentView {
            undo: if undo.len() > UNDO_LIMIT {
                undo.skip(1)
            } else {
                undo
            },
            redo: Seq::empty(),
            ..self
        }
    }

    /// A changed text and a new cursor, with the state before remembered.
    pub open spec fn edited(self, text: Seq<char>, cursor: int) -> DocumentView {
        DocumentView { text, cursor, dirty: true, preferred_column: None, ..self.checkpointed() }
    }

    /// The cursor moved sideways.
    pub open spec fn moved(self, cursor: int) -> DocumentView {
        DocumentView { cursor, preferred_column: None, ..self }
    }

    pub open spec fn inserted(self, ch: char) -> DocumentView {
        self.edited(self.text.insert(self.cursor, ch), self.cursor + 1)
    }

    pub open spec fn backspaced(self) -> DocumentView {
        if self.cursor > 0 {
            self.edited(self.text.remove(self.cursor - 1), self.cursor - 1)
        } else {
            self
        }
    }

    pub open spec fn deleted(self) -> DocumentView {
        if self.cursor < self.text.len() {
            self.edited(self.text.remove(self.cursor), self.cursor)
        } else {
            self
        }
    }

    pub open spec fn undone(self) -> DocumentView {
        if self.undo.len() == 0 {
            self
        } else {
            DocumentView {
                text: self.undo.last().0,
                cursor: self.undo.last().1,
                dirty: true,
                preferred_column: None,
                undo: self.undo.drop_last(),
                redo: self.redo.push(self.now()),
            }
        }
    }

    pub open spec fn redone(self) -> DocumentView {
        if self.redo.len() == 0 {
            self
        } else {
            DocumentView {
                text: self.redo.last().0,
                cursor: self.redo.last().1,
                dirty: true,
                preferred_column: None,
                undo: self.undo.push(self.now()),
                redo: self.redo.drop_last(),
            }
        }
    }

    /// The cursor moved by a number of visual rows, keeping to the column that
    /// the first of such moves set out from.
    pub open spec fn moved_rows(self, width: int, count: int) -> DocumentView {
        let rows = wrap::rows(self.text, width);
        let (row, column) = wrap::position(self.text, rows, rows.len() as int, self.cursor);
        let preferred = match self.preferred_column {
            Some(kept) => kept,
            None => column,
        };
        let target = if row + count < 0 {
            0
        } else if row + count > rows.len() - 1 {
            rows.len() - 1
        } else {
            row + count
        };
        let (start, end) = rows[target];
        DocumentView {
            cursor: wrap::place_at_column(self.text, start, end, preferred, start),
            preferred_column: Some(preferred),
            ..self
        }
    }
}

/// Where the line that holds `at` begins: after the last line feed before it.
pub open spec fn line_start_of(text: Seq<char>, at: int) -> int
    decreases at,
{
    if at <= 0 || text[at - 1] == '\n' {
        at
    } else {
        line_start_of(text, at - 1)
    }
}

/// Where the line that holds `at` ends: at the first line feed from it on.
pub open spec fn line_end_of(text: Seq<char>, at: int) -> int
    decreases text.len() - at,
{
    if at >= text.len() || text[at] == '\n' {
        at
    } else {
        line_end_of(text, at + 1)
    }
}

/// The words in the first `count` characters: the places where a character that
/// is not white space follows white space or the beginning.
pub open spec fn words(text: Seq<char>, count: int) -> int
    decreases count,
{
    if count <= 0 {
        0
    } else if !text::space(text[count - 1]) && (count == 1 || text::space(text[count - 2])) {
        words(text, count - 1) + 1
    } else {
        words(text, count - 1)
    }
}

impl Document {
    pub open spec fn wf(&self) -> bool {
        self@.wf()
    }

    /// A document that holds a text, with the cursor at its end.
    pub fn from_string(text: String) -> (document: Document)
        ensures
            document@ == (DocumentView {
                text: text@,
                cursor: text@.len() as int,
                dirty: false,
                preferred_column: None,
                undo: Seq::empty(),
                redo: Seq::empty(),
            }),
            document.wf(),
    {
        let text: Vec<char> = text::chars_of(text.as_str());
        let cursor: usize = text.len();
        Document {
            text,
            cursor,
            dirty: false,
            preferred_column: None,
            undo: Vec::new(),
            redo: Vec::new(),
        }
    }

    /// Remembers the present state, so that `undo` comes back to it.
    pub fn checkpoint(&mut self)
        requires
            old(self).wf(),
        ensures
            final(self)@ == old(self)@.checkpointed(),
            final(self).wf(),
    {
        let saved: Vec<char> = self.text.clone();
        assert(saved@ == self.text@);
        self.undo.push((saved, self.cursor));
        assert(moments(self.undo@) == moments(old(self).undo@).push(self@.now()));
        if self.undo.len() > UNDO_LIMIT {
            let ghost full = self.undo@;
            self.undo.remove(0);
            assert(self.undo@ == full.skip(1));
            assert(moments(self.undo@) == moments(full).skip(1));
        }
        self.redo.clear();
        assert(moments(self.redo@) == Seq::<(Seq<char>, int)>::empty());
        proof {
            let undo = self@.undo;
            let earlier = old(self)@.undo;
            assert forall|i: int| 0 <= i < undo.len() implies moment_wf(#[trigger] undo[i]) by {
                if undo.len() == earlier.len() + 1 {
                    if i < earlier.len() {
                        assert(undo[i] == earlier[i]);
                    }
                } else if i + 1 < earlier.len() {
                    assert(undo[i] == earlier[i + 1]);
                }
            }
        }
    }

    /// Inserts a character before the cursor.
    pub fn insert(&mut self, ch: char)
        requires
            old(self).wf(),
        ensures
            final(self)@ == old(self)@.inserted(ch),
            final(self).wf(),
    {
        self.checkpoint();
        self.text.insert(self.cursor, ch);
        assert(self.cursor < self.text.len());
        self.cursor += 1;
        self.dirty = true;
        self.preferred_column = None;
    }

    /// Removes the character before the cursor.
    pub fn backspace(&mut self)
        requires
            old(self).wf(),
        ensures
            final(self)@ == old(self)@.backspaced(),
            final(self).wf(),
    {
        if self.cursor > 0 {
            self.checkpoint();
            self.cursor -= 1;
            self.text.remove(self.cursor);
            self.dirty = true;
            self.preferred_column = None;
        }
    }

    /// Removes the character at the cursor.
    pub fn delete(&mut self)
        requires
            old(self).wf(),
        ensures
            final(self)@ == old(self)@.deleted(),
            final(self).wf(),
    {
        if self.cursor < self.text.len() {
            self.checkpoint();
            self.text.remove(self.cursor);
            self.dirty = true;
            self.preferred_column = None;
        }
    }

    /// Moves the cursor one character back.
    pub fn left(&mut self)
        requires
            old(self).wf(),
        ensures
            final(self)@ == old(self)@.moved(
                if old(self)@.cursor > 0 {
                    old(self)@.cursor - 1
                } else {
                    0
                },
            ),
            final(self).wf(),
    {
        if self.cursor > 0 {
            self.cursor -= 1;
        }
        self.preferred_column = None;
    }

    /// Moves the cursor one character on.
    pub fn right(&mut self)
        requires
            old(self).wf(),
        ensures
            final(self)@ == old(self)@.moved(
                if old(self)@.cursor < old(self)@.text.len() {
                    old(self)@.cursor + 1
                } else {
                    old(self)@.cursor
                },
            ),
            final(self).wf(),
    {
        if self.cursor < self.text.len() {
            self.cursor += 1;
        }
        self.preferred_column = None;
    }

    /// Where the line that holds `at` begins.
    pub fn line_start(&self, at: usize) -> (start: usize)
        requires
            at <= self.text@.len(),
        ensures
            start == line_start_of(self.text@, at as int),
            start <= at,
    {
        let mut start: usize = at;
        while start > 0 && self.text[start - 1] != '\n'
            invariant
                start <= at <= self.text@.len(),
                line_start_of(self.text@, start as int) == line_start_of(self.text@, at as int),
            decreases start,
        {
            start -= 1;
        }
        start
    }

    /// Where the line that holds `at` ends.
    pub fn line_end(&self, at: usize) -> (end: usize)
        requires
            at <= self.text@.len(),
        ensures
            end == line_end_of(self.text@, at as int),
            at <= end <= self.text@.len(),
    {
        let mut end: usize = at;
        while end < self.text.len() && self.text[end] != '\n'
            invariant
                at <= end <= self.text@.len(),
                line_end_of(self.text@, end as int) == line_end_of(self.text@, at as int),
            decreases self.text@.len() - end,
        {
            end += 1;
        }
        end
    }

    /// Moves the cursor to the beginning of its line.
    pub fn home(&mut self)
        requires
            old(self).wf(),
        ensures
            final(self)@ == old(self)@.moved(line_start_of(old(self)@.text, old(self)@.cursor)),
            final(self).wf(),
    {
        self.cursor = self.line_start(self.cursor);
        self.preferred_column = None;
    }

    /// Moves the cursor to the end of its line.
    pub fn end(&mut self)
        requires
            old(self).wf(),
        ensures
            final(self)@ == old(self)@.moved(line_end_of(old(self)@.text, old(self)@.cursor)),
            final(self).wf(),
    {
        self.cursor = self.line_end(self.cursor);
        self.preferred_column = None;
    }

    /// Moves the cursor up or down by visual rows of a page `width` columns wide.
    pub fn move_visual_rows(&mut self, width: usize, rows: isize)
        requires
            old(self).wf(),
        ensures
            final(self)@ == old(self)@.moved_rows(width as int, rows as int),
            final(self).wf(),
    {
        if rows == isize::MIN {
            self.move_rows(width, true, isize::MAX as usize + 1);
        } else if rows < 0 {
            self.move_rows(width, true, (-rows) as usize);
        } else {
            self.move_rows(width, false, rows as usize);
        }
    }

    /// Moves the cursor up or down by a number of visual rows.
    pub fn move_rows(&mut self, width: usize, up: bool, count: usize)
        requires
            old(self).wf(),
        ensures
            final(self)@ == old(self)@.moved_rows(
                width as int,
                if up {
                    -count
                } else {
                    count as int
                },
            ),
            final(self).wf(),
    {
        let ranges: Vec<(usize, usize)> = wrap::wrapped_ranges(self.text.as_slice(), width);
        proof {
            let all = wrap::rows(self.text@, width as int);
            wrap::lemma_rows(self.text@, if width < 1 { 1 } else { width as int }, 0);
            assert forall|k: int|
                0 <= k < ranges@.len() && #[trigger] ranges@[k].0 <= self.cursor <= ranges@[k].1
                implies wrap::columns(self.text@, ranges@[k].0 as int, self.cursor as int)
                <= usize::MAX by {
                assert(wrap::places(ranges@)[k] == all[k]);
                wrap::lemma_row_columns(self.text@, width as int, k, self.cursor as int);
            }
        }
        let (current_row, current_column): (usize, usize) = wrap::cursor_position(
            self.text.as_slice(),
            ranges.as_slice(),
            self.cursor,
        );
        let preferred: usize = match self.preferred_column {
            Some(column) => column,
            None => current_column,
        };
        self.preferred_column = Some(preferred);
        let last: usize = ranges.len() - 1;
        let target_row: usize = if up {
            if count > current_row {
                0
            } else {
                current_row - count
            }
        } else if current_row > last || count > last - current_row {
            last
        } else {
            current_row + count
        };
        let (start, end): (usize, usize) = ranges[target_row];
        proof {
            let all = wrap::rows(self.text@, width as int);
            wrap::lemma_rows(self.text@, if width < 1 { 1 } else { width as int }, 0);
            assert(wrap::places(ranges@)[target_row as int] == all[target_row as int]);
        }
        self.cursor = wrap::index_at_visual_column(self.text.as_slice(), start, end, preferred);
    }

    /// How many words the text has.
    pub fn word_count(&self) -> (count: usize)
        ensures
            count == words(self@.text, self@.text.len() as int),
    {
        let mut count: usize = 0;
        let mut i: usize = 0;
        let mut after_space: bool = true;
        while i < self.text.len()
            invariant
                i <= self.text@.len(),
                count <= i,
                count == words(self.text@, i as int),
                after_space == (i == 0 || text::space(self.text@[i - 1])),
            decreases self.text@.len() - i,
        {
            let here: bool = text::is_space(self.text[i]);
            if !here && after_space {
                count += 1;
            }
            after_space = here;
            i += 1;
        }
        count
    }

    /// How many characters the text has.
    pub fn character_count(&self) -> (count: usize)
        ensures
            count == self@.text.len(),
    {
        self.text.len()
    }

    /// The text.
    pub fn as_string(&self) -> (text: String)
        ensures
            text@ == self@.text,
    {
        text::string_of(self.text.as_slice())
    }

    /// Takes back the last change; false if there is none.
    pub fn undo(&mut self) -> (changed: bool)
        requires
            old(self).wf(),
        ensures
            final(self)@ == old(self)@.undone(),
            changed == (old(self)@.undo.len() > 0),
            final(self).wf(),
    {
        match self.undo.pop() {
            None => false,
            Some(previous) => {
                proof {
                    let before = old(self)@;
                    assert(before.undo.last() == moment(previous));
                    assert(moment_wf(before.undo[before.undo.len() - 1]));
                    assert(moments(self.undo@) == before.undo.drop_last());
                    assert forall|i: int| 0 <= i < before.undo.len() - 1 implies moment_wf(
                        #[trigger] before.undo.drop_last()[i],
                    ) by {
                        assert(moment_wf(before.undo[i]));
                    }
                }
                let saved: Vec<char> = self.text.clone();
                assert(saved@ == self.text@);
                self.redo.push((saved, self.cursor));
                assert(moments(self.redo@) == old(self)@.redo.push(old(self)@.now()));
                self.text = previous.0;
                self.cursor = previous.1;
                self.dirty = true;
                self.preferred_column = None;
                true
            },
        }
    }

    /// Makes the last change that was taken back again; false if there is none.
    pub fn redo(&mut self) -> (changed: bool)
        requires
            old(self).wf(),
        ensures
            final(self)@ == old(self)@.redone(),
            changed == (old(self)@.redo.len() > 0),
            final(self).wf(),
    {
        match self.redo.pop() {
            None => false,
            Some(next) => {
                proof {
                    let before = old(self)@;
                    assert(before.redo.last() == moment(next));
                    assert(moment_wf(before.redo[before.redo.len() - 1]));
                    assert(moments(self.redo@) == before.redo.drop_last());
                    assert forall|i: int| 0 <= i < before.redo.len() - 1 implies moment_wf(
                        #[trigger] before.redo.drop_last()[i],
                    ) by {
                        assert(moment_wf(before.redo[i]));
                    }
                }
                let saved: Vec<char> = self.text.clone();
                assert(saved@ == self.text@);
                self.undo.push((saved, self.cursor));
                assert(moments(self.undo@) == old(self)@.undo.push(old(self)@.now()));
                self.text = next.0;
                self.cursor = next.1;
                self.dirty = true;
                self.preferred_column = None;
                true
            },
        }
    }
}

/// `undo` after any edit comes back to the text and the cursor before it.
pub proof fn law_undo_takes_an_edit_back(document: DocumentView, text: Seq<char>, cursor: int)
    requires
        document.wf(),
    ensures
        document.edited(text, cursor).undone().now() == document.now(),
{
    assert(document.edited(text, cursor).undo.last() == document.now());
}

/// `redo` after `undo` comes back to the text, the cursor and the history.
pub proof fn law_redo_repeats_what_undo_took_back(document: DocumentView)
    requires
        document.undo.len() > 0,
    ensures
        document.undone().redone().now() == document.now(),
        document.undone().redone().undo == document.undo,
        document.undone().redone().redo == document.redo,
{
    let undone = document.undone();
    assert(undone.redo.last() == document.now());
    assert(undone.redo.drop_last() == document.redo);
    assert(undone.undo.push(undone.now()) == document.undo);
}

/// Backspace removes what was just typed.
pub proof fn law_backspace_removes_what_was_typed(document: DocumentView, ch: char)
    requires
        document.wf(),
    ensures
        document.inserted(ch).backspaced().now() == document.now(),
{
    assert(document.text.insert(document.cursor, ch).remove(document.cursor) == document.text);
}

/// Delete, after a step back, removes what was just typed too.
pub proof fn law_delete_after_left_removes_what_was_typed(document: DocumentView, ch: char)
    requires
        document.wf(),
    ensures
        document.inserted(ch).moved(document.cursor).deleted().now() == document.now(),
{
    assert(document.text.insert(document.cursor, ch).remove(document.cursor) == document.text);
}

/// The beginning of a line lies at or before each of its places, follows a line
/// feed or nothing, and no line feed stands between.
pub proof fn law_line_start_is_the_nearest(text: Seq<char>, at: int)
    requires
        0 <= at <= text.len(),
    ensures
        0 <= line_start_of(text, at) <= at,
        line_start_of(text, at) == 0 || text[line_start_of(text, at) - 1] == '\n',
        !text.subrange(line_start_of(text, at), at).contains('\n'),
    decreases at,
{
    if at > 0 && text[at - 1] != '\n' {
        law_line_start_is_the_nearest(text, at - 1);
        let start = line_start_of(text, at);
        assert forall|i: int| 0 <= i < at - start implies text.subrange(start, at)[i] != '\n' by {
            if i < at - 1 - start {
                assert(text.subrange(start, at - 1)[i] == text[start + i]);
            }
        }
    }
}

/// The end of a line lies at or after each of its places, stands at a line feed
/// or the end of the text, and no line feed stands between.
pub proof fn law_line_end_is_the_nearest(text: Seq<char>, at: int)
    requires
        0 <= at <= text.len(),
    ensures
        at <= line_end_of(text, at) <= text.len(),
        line_end_of(text, at) == text.len() || text[line_end_of(text, at)] == '\n',
        !text.subrange(at, line_end_of(text, at)).contains('\n'),
    decreases text.len() - at,
{
    if at < text.len() && text[at] != '\n' {
        law_line_end_is_the_nearest(text, at + 1);
        let end = line_end_of(text, at);
        assert forall|i: int| 0 <= i < end - at implies text.subrange(at, end)[i] != '\n' by {
            if i > 0 {
                assert(text.subrange(at + 1, end)[i - 1] == text[at + i]);
            }
        }
    }
}

/// Typing puts the character between what stood before the cursor and what stood
/// behind it, and the cursor behind the character. Nothing else of the text
/// changes, the change is to be saved, and it can be taken back.
pub proof fn law_typing_puts_the_character_at_the_cursor(document: DocumentView, ch: char)
    requires
        document.wf(),
    ensures
        ({
            let after = document.inserted(ch);
            &&& after.text == document.text.take(document.cursor) + seq![ch] + document.text.skip(
                document.cursor,
            )
            &&& after.cursor == document.cursor + 1
            &&& after.dirty
            &&& after.undo.last() == (document.text, document.cursor)
            &&& after.redo.len() == 0
            &&& after.wf()
        }),
{
    let after = document.inserted(ch);
    assert(after.text == document.text.take(document.cursor) + seq![ch] + document.text.skip(
        document.cursor,
    ));
    lemma_checkpoint_is_sound(document);
}

proof fn lemma_checkpoint_is_sound(document: DocumentView)
    requires
        document.wf(),
    ensures
        document.checkpointed().undo.len() + document.checkpointed().redo.len() <= UNDO_LIMIT,
        forall|i: int|
            0 <= i < document.checkpointed().undo.len() ==> moment_wf(
                #[trigger] document.checkpointed().undo[i],
            ),
{
    let undo = document.checkpointed().undo;
    let earlier = document.undo;
    assert forall|i: int| 0 <= i < undo.len() implies moment_wf(#[trigger] undo[i]) by {
        if undo.len() == earlier.len() + 1 {
            if i < earlier.len() {
                assert(undo[i] == earlier[i]);
            }
        } else if i + 1 < earlier.len() {
            assert(undo[i] == earlier[i + 1]);
        }
    }
}

/// Backspace takes away the one character before the cursor, delete the one
/// behind it; where there is none, nothing changes.
pub proof fn law_erasing_takes_one_character(document: DocumentView)
    requires
        document.wf(),
    ensures
        document.cursor == 0 ==> document.backspaced() == document,
        document.cursor > 0 ==> {
            let after = document.backspaced();
            &&& after.text == document.text.take(document.cursor - 1) + document.text.skip(
                document.cursor,
            )
            &&& after.cursor == document.cursor - 1
            &&& after.dirty
            &&& after.undo.last() == (document.text, document.cursor)
        },
        document.cursor == document.text.len() ==> document.deleted() == document,
        document.cursor < document.text.len() ==> {
            let after = document.deleted();
            &&& after.text == document.text.take(document.cursor) + document.text.skip(
                document.cursor + 1,
            )
            &&& after.cursor == document.cursor
            &&& after.dirty
            &&& after.undo.last() == (document.text, document.cursor)
        },
{
    if document.cursor > 0 {
        assert(document.text.remove(document.cursor - 1) == document.text.take(document.cursor - 1)
            + document.text.skip(document.cursor));
    }
    if document.cursor < document.text.len() {
        assert(document.text.remove(document.cursor) == document.text.take(document.cursor)
            + document.text.skip(document.cursor + 1));
    }
}

/// Two hundred changes can be taken back: remembering one more keeps all that were
/// remembered, but for the oldest where there were two hundred already.
pub proof fn law_two_hundred_changes_are_remembered(document: DocumentView, i: int)
    requires
        document.wf(),
        0 <= i < document.undo.len(),
    ensures
        document.undo.len() < 200 ==> document.checkpointed().undo == document.undo.push(
            (document.text, document.cursor),
        ),
        document.undo.len() == 200 ==> document.checkpointed().undo.len() == 200
            && document.checkpointed().undo.last() == (document.text, document.cursor) && (i > 0
            ==> document.checkpointed().undo[i - 1] == document.undo[i]),
        document.checkpointed().text == document.text,
        document.checkpointed().cursor == document.cursor,
{
}

/// Taking back brings the text and the cursor of the moment before; with nothing
/// left to take back, or to make again, nothing changes.
pub proof fn law_taking_back_brings_the_moment_before(document: DocumentView)
    ensures
        document.undo.len() == 0 ==> document.undone() == document,
        document.redo.len() == 0 ==> document.redone() == document,
        document.undo.len() > 0 ==> (document.undone().text, document.undone().cursor)
            == document.undo.last() && document.undone().dirty,
        document.redo.len() > 0 ==> (document.redone().text, document.redone().cursor)
            == document.redo.last() && document.redone().dirty,
{
}

proof fn lemma_words_of_prefix(a: Seq<char>, b: Seq<char>, count: int)
    requires
        0 <= count <= a.len(),
        count <= b.len(),
        a.take(count) == b.take(count),
    ensures
        words(a, count) == words(b, count),
    decreases count,
{
    if count > 0 {
        assert(a.take(count)[count - 1] == a[count - 1] && b.take(count)[count - 1]
            == b[count - 1]);
        if count > 1 {
            assert(a.take(count)[count - 2] == a[count - 2] && b.take(count)[count - 2]
                == b[count - 2]);
        }
        assert(a.take(count - 1) == a.take(count).take(count - 1));
        assert(b.take(count - 1) == b.take(count).take(count - 1));
        lemma_words_of_prefix(a, b, count - 1);
    }
}

proof fn lemma_words_behind(a: Seq<char>, gap: char, b: Seq<char>, count: int)
    requires
        text::space(gap),
        0 <= count <= b.len(),
    ensures
        words(a + seq![gap] + b, a.len() + 1 + count) == words(a, a.len() as int) + words(b, count),
    decreases count,
{
    let whole = a + seq![gap] + b;
    let at = a.len() as int;
    assert(whole[at] == gap);
    if count == 0 {
        assert(whole.take(at) == a.take(at));
        lemma_words_of_prefix(whole, a, at);
    } else {
        lemma_words_behind(a, gap, b, count - 1);
        assert(whole[at + count] == b[count - 1]);
        if count > 1 {
            assert(whole[at + count - 1] == b[count - 2]);
        }
    }
}

proof fn lemma_one_word(s: Seq<char>, count: int)
    requires
        0 < count <= s.len(),
        forall|i: int| 0 <= i < s.len() ==> !text::space(#[trigger] s[i]),
    ensures
        words(s, count) == 1,
    decreases count,
{
    reveal_with_fuel(words, 2);
    assert(!text::space(s[count - 1]));
    if count > 1 {
        assert(!text::space(s[count - 2]));
        lemma_one_word(s, count - 1);
    }
}

/// Words are what stands between white space: an empty text has none, a text
/// without white space is one, and two texts with white space between them have
/// the words of both.
pub proof fn law_words_stand_between_white_space(a: Seq<char>, gap: char, b: Seq<char>)
    requires
        text::space(gap),
    ensures
        words(Seq::empty(), 0) == 0,
        a.len() > 0 && (forall|i: int| 0 <= i < a.len() ==> !text::space(#[trigger] a[i]))
            ==> words(a, a.len() as int) == 1,
        words(a + seq![gap] + b, (a + seq![gap] + b).len() as int) == words(a, a.len() as int)
            + words(b, b.len() as int),
{
    if a.len() > 0 && (forall|i: int| 0 <= i < a.len() ==> !text::space(#[trigger] a[i])) {
        lemma_one_word(a, a.len() as int);
    }
    lemma_words_behind(a, gap, b, b.len() as int);
}

/// Moving by rows leads to the row that lies so many above or below, or to the
/// first or last one, and as near to the column as that row allows: never past it,
/// and one character further would be. The text stays, and so does the column
/// that the first of several such moves set out from.
pub proof fn law_moving_by_rows_keeps_the_column(document: DocumentView, width: int, count: int)
    requires
        document.wf(),
        width >= 1,
        document.preferred_column matches Some(column) ==> 0 <= column,
    ensures
        ({
            let all = wrap::rows(document.text, width);
            let (row, column) = wrap::position(
                document.text,
                all,
                all.len() as int,
                document.cursor,
            );
            let after = document.moved_rows(width, count);
            let kept = match document.preferred_column {
                Some(column) => column,
                None => column,
            };
            exists|target: int|
                {
                    &&& #[trigger] all[target] == all[target]
                    &&& 0 <= target < all.len()
                    &&& 0 <= row + count < all.len() ==> target == row + count
                    &&& row + count < 0 ==> target == 0
                    &&& row + count >= all.len() ==> target == all.len() - 1
                    &&& all[target].0 <= after.cursor <= all[target].1
                    &&& wrap::columns(document.text, all[target].0, after.cursor) <= kept
                    &&& after.cursor < all[target].1 ==> wrap::columns(
                        document.text,
                        all[target].0,
                        after.cursor + 1,
                    ) > kept
                    &&& after.preferred_column == Some(kept)
                    &&& after.text == document.text
                    &&& after.dirty == document.dirty
                }
        }),
{
    let all = wrap::rows(document.text, width);
    let (row, column) = wrap::position(document.text, all, all.len() as int, document.cursor);
    wrap::law_the_cursor_stands_on_its_row(document.text, width, document.cursor);
    let target = if row + count < 0 {
        0
    } else if row + count > all.len() - 1 {
        all.len() - 1
    } else {
        row + count
    };
    let kept = match document.preferred_column {
        Some(column) => column,
        None => column,
    };
    wrap::law_rows_fit_the_page(document.text, width, row);
    wrap::lemma_columns_grow(document.text, all[row].0, document.cursor, document.cursor);
    wrap::law_rows_fit_the_page(document.text, width, target);
    wrap::law_a_column_leads_to_its_place(document.text, all[target].0, all[target].1, kept);
    assert(all[target] == all[target]);
}

/// There are no fewer words than none, and no more than characters.
pub proof fn lemma_words_bounds(text: Seq<char>, count: int)
    requires
        0 <= count,
    ensures
        0 <= words(text, count) <= count,
    decreases count,
{
    if count > 0 {
        lemma_words_bounds(text, count - 1);
    }
}

} // verus!
