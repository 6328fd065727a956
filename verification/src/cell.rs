//! Typed cell values and cells.
//!
//! A cell value is a closed tagged union over integers, floats, text,
//! booleans and the empty value.  Text is edited one character at a time;
//! the other variants ignore character edits.  A float carries the canonical
//! decimal rendering of its value: the numeric parse that produces it
//! involves floating point, which cannot enter verified code, so the shell
//! performs the parse and hands the rendering to [`DataType::promote`].

use vstd::prelude::*;

use crate::editor::Position;
use crate::text::contains_seq;
use crate::text::i64_to_string;
use crate::text::int_chars;

verus! {

/// The mathematical value of a [`DataType`].
#[verifier::ext_equal]
pub enum ValueView {
    Int(i64),
    Float(Seq<char>),
    Text(Seq<char>),
    Bool(bool),
    Empty,
}

/// The mathematical value of a [`Cell`].
#[verifier::ext_equal]
pub struct CellView {
    pub val: ValueView,
    pub pos: Position,
}

/// The view of a default (empty) cell.
pub open spec fn default_cell_view() -> CellView {
    CellView { val: ValueView::Empty, pos: Position { x: 0, y: 0 } }
}

pub open spec fn bool_chars(b: bool) -> Seq<char> {
    if b {
        seq!['t', 'r', 'u', 'e']
    } else {
        seq!['f', 'a', 'l', 's', 'e']
    }
}

/// The display string of a value: numbers in decimal, text as itself,
/// booleans as `true`/`false`, the empty value as the empty string.
pub open spec fn render_v(v: ValueView) -> Seq<char> {
    match v {
        ValueView::Int(i) => int_chars(i as int),
        ValueView::Float(s) => s,
        ValueView::Text(s) => s,
        ValueView::Bool(b) => bool_chars(b),
        ValueView::Empty => Seq::empty(),
    }
}

/// What inserting a character does to a value: text is appended to, the
/// empty value becomes one-character text, and every other variant is left
/// alone.
pub open spec fn vinsert(v: ValueView, c: char) -> ValueView {
    match v {
        ValueView::Text(s) => ValueView::Text(s.push(c)),
        ValueView::Empty => ValueView::Text(seq![c]),
        _ => v,
    }
}

/// What deleting does to a value: text loses its last character (empty text
/// stays empty), every other variant is left alone.
pub open spec fn vdelete(v: ValueView) -> ValueView {
    match v {
        ValueView::Text(s) => ValueView::Text(
            if s.len() == 0 {
                s
            } else {
                s.drop_last()
            },
        ),
        _ => v,
    }
}

/// The formula literal of a value: for text that begins with the formula
/// marker `=`, the characters after the marker; nothing otherwise.
pub open spec fn marker_literal(v: ValueView) -> Option<Seq<char>> {
    match v {
        ValueView::Text(s) => if s.len() > 0 && s[0] == '=' {
            Option::Some(s.skip(1))
        } else {
            Option::None
        },
        _ => Option::None,
    }
}

/// Whether the query occurs in the cell's display string.
pub open spec fn cell_matches(cv: CellView, q: Seq<char>) -> bool {
    contains_seq(render_v(cv.val), q)
}

/// A display string cut down to a width: width `0` means no truncation;
/// otherwise a string longer than the width keeps its first `width - 2`
/// characters and gains a two-character ellipsis marker.
pub open spec fn truncate_view(s: Seq<char>, w: int) -> Seq<char> {
    if w == 0 {
        s
    } else if s.len() > w {
        s.take(
            if w >= 2 {
                w - 2
            } else {
                0
            },
        ) + seq!['.', '.']
    } else {
        s
    }
}

/// A typed cell value.
pub enum DataType {
    Int(i64),
    Float(String),
    Text(String),
    Bool(bool),
    Empty,
}

impl View for DataType {
    type V = ValueView;

    open spec fn view(&self) -> ValueView {
        match self {
            DataType::Int(i) => ValueView::Int(*i),
            DataType::Float(s) => ValueView::Float(s@),
            DataType::Text(s) => ValueView::Text(s@),
            DataType::Bool(b) => ValueView::Bool(*b),
            DataType::Empty => ValueView::Empty,
        }
    }
}

impl Clone for DataType {
    fn clone(&self) -> (r: Self)
        ensures
            r@ == self@,
    {
        match self {
            DataType::Int(i) => DataType::Int(*i),
            DataType::Float(s) => DataType::Float(s.clone()),
            DataType::Text(s) => DataType::Text(s.clone()),
            DataType::Bool(b) => DataType::Bool(*b),
            DataType::Empty => DataType::Empty,
        }
    }
}

impl Default for DataType {
    fn default() -> (r: Self)
        ensures
            r@ == ValueView::Empty,
    {
        DataType::Empty
    }
}

impl DataType {
    /// The display string of the value.
    pub fn display(&self) -> (r: String)
        ensures
            r@ == render_v(self@),
    {
        match self {
            DataType::Int(i) => i64_to_string(*i),
            DataType::Float(s) => s.clone(),
            DataType::Text(s) => s.clone(),
            DataType::Bool(b) => {
                if *b {
                    let r = String::from_str("true");
                    proof {
                        reveal_strlit("true");
                        assert(r@ =~= bool_chars(true));
                    }
                    r
                } else {
                    let r = String::from_str("false");
                    proof {
                        reveal_strlit("false");
                        assert(r@ =~= bool_chars(false));
                    }
                    r
                }
            },
            DataType::Empty => String::new(),
        }
    }

    /// The length of the display string, in characters.
    pub fn len(&self) -> (r: usize)
        ensures
            r == render_v(self@).len(),
    {
        match self {
            DataType::Int(i) => i64_to_string(*i).as_str().unicode_len(),
            DataType::Float(s) => s.as_str().unicode_len(),
            DataType::Text(s) => s.as_str().unicode_len(),
            DataType::Bool(b) => {
                if *b {
                    4
                } else {
                    5
                }
            },
            DataType::Empty => 0,
        }
    }

    /// Discard the value, leaving the empty value.
    pub fn reset(&mut self)
        ensures
            final(self)@ == ValueView::Empty,
    {
        *self = DataType::Empty;
    }

    /// Append a character: text grows at the end, the empty value becomes
    /// one-character text, and every other variant ignores the character.
    pub fn insert(&mut self, c: char)
        ensures
            final(self)@ == vinsert(old(self)@, c),
    {
        match self {
            DataType::Text(s) => {
                s.push(c);
            },
            DataType::Empty => {
                *self = DataType::Text(crate::text::char_to_string(c));
            },
            _ => {},
        }
    }

    /// Remove the last character of text; the position is accepted for
    /// interface compatibility but deletion always trims the end, and
    /// non-text variants are left alone.
    pub fn delete(&mut self, at: usize)
        ensures
            final(self)@ == vdelete(old(self)@),
    {
        let _ = at;
        match self {
            DataType::Text(s) => {
                let n = s.as_str().unicode_len();
                if n > 0 {
                    let t = s.as_str().substring_char(0, n - 1).to_owned();
                    proof {
                        assert(t@ =~= s@.drop_last());
                    }
                    *s = t;
                }
            },
            _ => {},
        }
    }

    /// If the value is text beginning with the formula marker, the literal
    /// after the marker.
    pub fn coercion_literal(&self) -> (r: Option<String>)
        ensures
            r is Some <==> marker_literal(self@) is Some,
            r matches Some(s) ==> s@ == marker_literal(self@)->0,
    {
        match self {
            DataType::Text(s) => {
                let n = s.as_str().unicode_len();
                if n > 0 && s.as_str().get_char(0) == '=' {
                    let lit = s.as_str().substring_char(1, n).to_owned();
                    proof {
                        assert(lit@ =~= s@.skip(1));
                    }
                    Option::Some(lit)
                } else {
                    Option::None
                }
            },
            _ => Option::None,
        }
    }

    /// Replace a marker-prefixed text value by a float carrying the given
    /// rendering; any other value is left alone.  The numeric parse that
    /// decides whether the literal after the marker is a number — and what
    /// its canonical rendering is — involves floating point and is the
    /// caller's business.
    pub fn promote(&mut self, rendering: String)
        ensures
            marker_literal(old(self)@) is Some ==> final(self)@ == ValueView::Float(rendering@),
            marker_literal(old(self)@) is None ==> final(self)@ == old(self)@,
    {
        let marked = match self {
            DataType::Text(s) => {
                let n = s.as_str().unicode_len();
                n > 0 && s.as_str().get_char(0) == '='
            },
            _ => false,
        };
        if marked {
            *self = DataType::Float(rendering);
        }
    }

    /// Whether the value is the empty value.
    pub fn is_empy(&self) -> (r: bool)
        ensures
            r == (self@ is Empty),
    {
        match self {
            DataType::Empty => true,
            _ => false,
        }
    }

    /// Whether the value is text.
    pub fn is_string(&self) -> (r: bool)
        ensures
            r == (self@ is Text),
    {
        match self {
            DataType::Text(_) => true,
            _ => false,
        }
    }

    /// Whether the value is an integer.
    pub fn is_int(&self) -> (r: bool)
        ensures
            r == (self@ is Int),
    {
        match self {
            DataType::Int(_) => true,
            _ => false,
        }
    }

    /// Whether the value is a float.
    pub fn is_float(&self) -> (r: bool)
        ensures
            r == (self@ is Float),
    {
        match self {
            DataType::Float(_) => true,
            _ => false,
        }
    }

    /// Whether the value is a boolean.
    pub fn is_bool(&self) -> (r: bool)
        ensures
            r == (self@ is Bool),
    {
        match self {
            DataType::Bool(_) => true,
            _ => false,
        }
    }
}

/// A cell: a value together with the grid coordinate it was made for.  The
/// position is informational (it gives rendering context), not a key.
pub struct Cell {
    pub val: DataType,
    pub pos: Position,
}

impl View for Cell {
    type V = CellView;

    open spec fn view(&self) -> CellView {
        CellView { val: self.val@, pos: self.pos }
    }
}

impl Clone for Cell {
    fn clone(&self) -> (r: Self)
        ensures
            r@ == self@,
    {
        Cell { val: self.val.clone(), pos: self.pos }
    }
}

impl Default for Cell {
    fn default() -> (r: Self)
        ensures
            r@ == default_cell_view(),
    {
        Cell { val: DataType::Empty, pos: Position { x: 0, y: 0 } }
    }
}

impl From<String> for Cell {
    fn from(val: String) -> (r: Self) {
        Cell { val: DataType::Text(val), pos: Position { x: 0, y: 0 } }
    }
}

impl vstd::std_specs::convert::FromSpecImpl<String> for Cell {
    open spec fn obeys_from_spec() -> bool {
        true
    }

    open spec fn from_spec(v: String) -> Cell {
        Cell { val: DataType::Text(v), pos: Position { x: 0, y: 0 } }
    }
}

impl Cell {
    /// Append a character to the contained value, under the value's rules.
    pub fn insert(&mut self, c: char)
        ensures
            final(self)@.val == vinsert(old(self)@.val, c),
            final(self)@.pos == old(self)@.pos,
    {
        self.val.insert(c);
    }

    /// Delete from the contained value, under the value's rules.
    pub fn delete(&mut self, at: usize)
        ensures
            final(self)@.val == vdelete(old(self)@.val),
            final(self)@.pos == old(self)@.pos,
    {
        self.val.delete(at);
    }

    /// Discard the content and type, leaving an empty cell.
    pub fn reset(&mut self)
        ensures
            final(self)@.val == ValueView::Empty,
            final(self)@.pos == old(self)@.pos,
    {
        self.val.reset();
    }

    /// The display string, cut down to `max_width` characters: `0` means no
    /// truncation; otherwise a longer string keeps its first `max_width - 2`
    /// characters and ends in a two-character ellipsis marker.  The value
    /// itself is never changed.
    pub fn render(&self, max_width: usize) -> (r: String)
        ensures
            r@ == truncate_view(render_v(self@.val), max_width as int),
    {
        let full = self.val.display();
        if max_width == 0 {
            return full;
        }
        let n = full.as_str().unicode_len();
        if n <= max_width {
            return full;
        }
        let keep: usize = if max_width >= 2 {
            max_width - 2
        } else {
            0
        };
        let head = full.as_str().substring_char(0, keep).to_owned();
        let r = head.concat("..");
        proof {
            reveal_strlit("..");
            assert(full@.take(keep as int) =~= full@.subrange(0, keep as int));
            assert(r@ =~= truncate_view(render_v(self@.val), max_width as int));
        }
        r
    }
}

} // verus!
