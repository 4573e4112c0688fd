//! Pickers: lists that complete what is typed into the input line.

use vstd::prelude::*;

use crate::bytes::{
    byte_at, byte_len, bytes_of, char_len, char_pos, lemma_byte_concat, lemma_byte_ends,
    lemma_byte_monotonic, lemma_byte_next, lemma_char_pos, offset_of, on_boundary, utf8_len,
};
use crate::keys::{Key, KeyCode};
use crate::line::CompactText;
use crate::num::least;
use crate::text::{
    append_chars, chars_of, copy_of, same_text, slice_of, string_of, string_seqs,
};

verus! {

// ---------------------------------------------------------------------------
// State
// ---------------------------------------------------------------------------

/// The state of one picker. Which items match the query, and which of them is
/// selected, is the list's business: `selected` is what it would insert.
pub struct PickerState {
    pub active: bool,
    pub monochrome: bool,
    /// What has been typed since the picker opened.
    pub query: Vec<char>,
    /// Position in the query, in characters.
    pub cursor: usize,
    /// What stands before the query in the input line.
    pub prefix: String,
    pub items: Vec<String>,
    pub selected: Option<String>,
}

/// What a [`PickerState`] holds.
pub struct PickerView {
    pub active: bool,
    pub monochrome: bool,
    pub query: Seq<char>,
    pub cursor: nat,
    pub prefix: Seq<char>,
    pub items: Seq<Seq<char>>,
    pub selected: Option<Seq<char>>,
}

impl View for PickerState {
    type V = PickerView;

    open spec fn view(&self) -> PickerView {
        PickerView {
            active: self.active,
            monochrome: self.monochrome,
            query: self.query@,
            cursor: self.cursor as nat,
            prefix: self.prefix@,
            items: string_seqs(self.items@),
            selected: match self.selected {
                Some(s) => Some(s@),
                None => None,
            },
        }
    }
}

impl PickerView {
    /// Whether the position lies in the query.
    pub open spec fn wf(self) -> bool {
        self.cursor <= self.query.len()
    }

    /// With `c` typed into the query.
    pub open spec fn typed(self, c: char) -> PickerView {
        PickerView {
            query: self.query.insert(self.cursor as int, c),
            cursor: self.cursor + 1,
            ..self
        }
    }

    /// With the character before the position taken out of the query.
    pub open spec fn erased(self) -> PickerView {
        PickerView {
            query: self.query.remove(self.cursor - 1),
            cursor: (self.cursor - 1) as nat,
            ..self
        }
    }

    /// Closed.
    pub open spec fn closed(self) -> PickerView {
        PickerView { active: false, ..self }
    }

    /// Byte offset of the position in the query.
    pub open spec fn offset(self) -> nat {
        byte_at(self.query, self.cursor as int)
    }

    /// Bytes of the selected text.
    pub open spec fn selected_len(self) -> nat {
        match self.selected {
            Some(s) => byte_len(s),
            None => 0,
        }
    }
}

/// A picker that has just opened.
pub open spec fn opened(prefix: Seq<char>, items: Seq<Seq<char>>) -> PickerView {
    PickerView {
        active: true,
        monochrome: false,
        query: Seq::empty(),
        cursor: 0,
        prefix,
        items,
        selected: None,
    }
}

impl PickerState {
    /// Whether the position lies in the query.
    pub open spec fn wf(&self) -> bool {
        self@.wf()
    }

    /// A picker that has just opened over `items`.
    pub fn open(prefix: &str, items: Vec<String>) -> (r: PickerState)
        ensures
            r.wf(),
            r@ == opened(prefix@, string_seqs(items@)),
    {
        let r = PickerState {
            active: true,
            monochrome: false,
            query: Vec::new(),
            cursor: 0,
            prefix: string_of(&chars_of(prefix)),
            items,
            selected: None,
        };
        assert(r@.query =~= Seq::empty());
        r
    }

    /// Types `c` into the query.
    fn char_input(&mut self, c: char)
        requires
            old(self).wf(),
            old(self).query@.len() < usize::MAX,
        ensures
            final(self).wf(),
            final(self)@ == old(self)@.typed(c),
    {
        self.query.insert(self.cursor, c);
        self.cursor = self.cursor + 1;
    }

    /// Takes the character before the position out of the query.
    fn backspace(&mut self)
        requires
            old(self).wf(),
            old(self).cursor > 0,
        ensures
            final(self).wf(),
            final(self)@ == old(self)@.erased(),
    {
        self.cursor = self.cursor - 1;
        self.query.remove(self.cursor);
    }

    /// Closes the picker.
    pub fn deactivate(&mut self)
        ensures
            final(self)@ == old(self)@.closed(),
    {
        self.active = false;
    }
}

/// A picker of one of the five sorts.
pub enum Picker {
    /// Files, opened by `@`.
    File(PickerState),
    /// Commands, opened by `/`.
    Command(PickerState),
    /// Arguments of a command.
    Prompt(PickerState),
    /// Models.
    Models(PickerState),
    /// Color themes.
    Theme(PickerState),
}

/// The sorts of pickers.
#[derive(Clone, Copy, Debug, PartialEq, Eq, Structural)]
pub enum PickerKind {
    File,
    Command,
    Prompt,
    Models,
    Theme,
}

impl Picker {
    /// The picker's sort.
    pub open spec fn kind(self) -> PickerKind {
        match self {
            Picker::File(_) => PickerKind::File,
            Picker::Command(_) => PickerKind::Command,
            Picker::Prompt(_) => PickerKind::Prompt,
            Picker::Models(_) => PickerKind::Models,
            Picker::Theme(_) => PickerKind::Theme,
        }
    }

    /// The picker's state.
    pub open spec fn state(self) -> PickerView {
        match self {
            Picker::File(p) => p@,
            Picker::Command(p) => p@,
            Picker::Prompt(p) => p@,
            Picker::Models(p) => p@,
            Picker::Theme(p) => p@,
        }
    }

    /// Whether the picker is open.
    pub fn active(&self) -> (r: bool)
        ensures
            r == self.state().active,
    {
        match self {
            Picker::File(p) => p.active,
            Picker::Command(p) => p.active,
            Picker::Prompt(p) => p.active,
            Picker::Models(p) => p.active,
            Picker::Theme(p) => p.active,
        }
    }

    /// Sets whether the picker is drawn without colors.
    pub fn set_monochrome(&mut self, monochrome: bool)
        ensures
            final(self).kind() == old(self).kind(),
            final(self).state() == (PickerView { monochrome, ..old(self).state() }),
    {
        match self {
            Picker::File(p) => p.monochrome = monochrome,
            Picker::Command(p) => p.monochrome = monochrome,
            Picker::Prompt(p) => p.monochrome = monochrome,
            Picker::Models(p) => p.monochrome = monochrome,
            Picker::Theme(p) => p.monochrome = monochrome,
        }
    }

    /// What is to be painted: which list, and its state.
    pub fn draw(&self) -> (r: (PickerKind, &PickerState))
        ensures
            r.0 == self.kind(),
            r.1@ == self.state(),
    {
        match self {
            Picker::File(p) => (PickerKind::File, p),
            Picker::Command(p) => (PickerKind::Command, p),
            Picker::Prompt(p) => (PickerKind::Prompt, p),
            Picker::Models(p) => (PickerKind::Models, p),
            Picker::Theme(p) => (PickerKind::Theme, p),
        }
    }
}

// ---------------------------------------------------------------------------
// Edits of the input line
// ---------------------------------------------------------------------------

/// The input line and the byte offset of its cursor.
pub struct EditView {
    pub buffer: Seq<char>,
    pub cursor: nat,
}

/// What a key did to a picker.
#[derive(Clone, Copy, Debug, PartialEq, Eq, Structural)]
pub enum PickerReply {
    /// The key is not the picker's.
    Ignored,
    /// The query changed.
    Query,
    /// The previous item is to be selected.
    Prev,
    /// The next item is to be selected.
    Next,
    /// The picker closed.
    Closed,
}

/// The first `n` characters, or all.
pub open spec fn first(s: Seq<char>, n: nat) -> Seq<char> {
    s.take(least(n, s.len()) as int)
}

/// The characters after the first `n`.
pub open spec fn rest(s: Seq<char>, n: nat) -> Seq<char> {
    s.skip(least(n, s.len()) as int)
}

/// The last byte offset before `pos` at which a character starts or the text
/// ends; 0 where there is none.
pub open spec fn prev_boundary(s: Seq<char>, pos: nat) -> nat
    decreases pos,
{
    if pos == 0 {
        0
    } else if on_boundary(s, (pos - 1) as nat) {
        (pos - 1) as nat
    } else {
        prev_boundary(s, (pos - 1) as nat)
    }
}

/// Position of the last `c`.
pub open spec fn last_of(s: Seq<char>, c: char) -> Option<int>
    decreases s.len(),
{
    if s.len() == 0 {
        None
    } else if s.last() == c {
        Some(s.len() - 1)
    } else {
        last_of(s.drop_last(), c)
    }
}

/// Position of the first `c` at or after `from`.
pub open spec fn first_of(s: Seq<char>, c: char, from: int) -> Option<int>
    decreases s.len() - from,
{
    if from < 0 || from >= s.len() {
        None
    } else if s[from] == c {
        Some(from)
    } else {
        first_of(s, c, from + 1)
    }
}

/// Byte offset of the last `@`.
pub open spec fn at_sign(s: Seq<char>) -> Option<nat> {
    match last_of(s, '@') {
        Some(i) => Some(byte_at(s, i)),
        None => None,
    }
}

/// Byte offset of the first `/`, or 0.
pub open spec fn slash_at(s: Seq<char>) -> nat {
    match first_of(s, '/', 0) {
        Some(i) => byte_at(s, i),
        None => 0,
    }
}

/// `at` characters, `middle`, and what follows the first `skip` characters.
pub open spec fn replaced(s: Seq<char>, at: nat, middle: Seq<char>, skip: nat) -> Seq<char> {
    first(s, at) + middle + rest(s, skip)
}

/// Whether a key erases: Backspace, or what terminals send for it.
pub open spec fn erases(key: Key) -> bool {
    key.code is Backspace || key.code == KeyCode::Char('\u{8}') || key.is_control('h')
}

/// Whether a key types a character.
pub open spec fn types(key: Key) -> bool {
    key.code is Char && !erases(key)
}

/// Whether a key moves the selection, and where to.
pub open spec fn moves(key: Key) -> Option<PickerReply> {
    match key.code {
        KeyCode::Tab => Some(
            if key.modifiers.shift {
                PickerReply::Prev
            } else {
                PickerReply::Next
            },
        ),
        KeyCode::Up => Some(PickerReply::Prev),
        KeyCode::Down => Some(PickerReply::Next),
        _ => None,
    }
}

/// Whether offsets and lengths stay within what an index can hold.
pub open spec fn roomy(e: EditView, p: PickerView) -> bool {
    e.cursor + byte_len(e.buffer) + byte_len(p.query) + byte_len(p.prefix) + p.selected_len() + 16
        <= usize::MAX
}

/// Whether `key` erases.
fn is_erase(key: &Key) -> (r: bool)
    ensures
        r == erases(*key),
{
    key.code == KeyCode::Backspace || key.code == KeyCode::Char('\u{8}') || key.with_control('h')
}

/// Whether `key` moves the selection, and where to.
fn movement(key: &Key) -> (r: Option<PickerReply>)
    ensures
        r == moves(*key),
{
    match key.code {
        KeyCode::Tab => Some(
            if key.modifiers.shift {
                PickerReply::Prev
            } else {
                PickerReply::Next
            },
        ),
        KeyCode::Up => Some(PickerReply::Prev),
        KeyCode::Down => Some(PickerReply::Next),
        _ => None,
    }
}

/// Offsets between two neighbouring boundaries are none.
proof fn lemma_no_boundary(s: Seq<char>, i: int, pos: nat)
    requires
        0 <= i < s.len(),
        byte_at(s, i) < pos < byte_at(s, i + 1),
    ensures
        !on_boundary(s, pos),
{
    if on_boundary(s, pos) {
        let j = char_pos(s, pos);
        assert(0 <= j <= s.len() && byte_at(s, j) == pos);
        if j < i {
            lemma_byte_monotonic(s, j, i);
        } else if j > i + 1 {
            lemma_byte_monotonic(s, i + 1, j);
        }
    }
}

/// The boundary before `pos` where it lies behind position `i` and not behind
/// the next one.
proof fn lemma_prev_at(s: Seq<char>, i: int, pos: nat)
    requires
        0 <= i <= s.len(),
        byte_at(s, i) < pos,
        i < s.len() ==> pos <= byte_at(s, i + 1),
    ensures
        prev_boundary(s, pos) == byte_at(s, i),
    decreases pos,
{
    lemma_char_pos(s, i);
    if byte_at(s, i) < pos - 1 {
        if i < s.len() {
            lemma_no_boundary(s, i, (pos - 1) as nat);
        } else if on_boundary(s, (pos - 1) as nat) {
            let j = char_pos(s, (pos - 1) as nat);
            assert(0 <= j <= s.len() && byte_at(s, j) == pos - 1);
            if j < i {
                lemma_byte_monotonic(s, j, i);
            }
        }
        lemma_prev_at(s, i, (pos - 1) as nat);
    }
}

/// The last byte offset before `pos` at which a character starts or the text
/// ends.
pub fn prev_char_boundary(v: &Vec<char>, pos: usize) -> (r: usize)
    ensures
        r == prev_boundary(v@, pos as nat),
        on_boundary(v@, r as nat),
        r <= pos,
{
    let ghost s = v@;
    proof {
        lemma_byte_ends(s);
        lemma_char_pos(s, 0);
    }
    if pos == 0 {
        return 0;
    }
    let n: usize = v.len();
    let mut i: usize = 0;
    let mut at: usize = 0;
    while i < n && at as u128 + (char_len(v[i]) as u128) < pos as u128
        invariant
            n == v@.len(),
            s == v@,
            i <= n,
            at == byte_at(s, i as int),
            at < pos,
        decreases n - i,
    {
        proof {
            lemma_byte_next(s, i as int);
        }
        at = at + char_len(v[i]);
        i = i + 1;
    }
    proof {
        if i < n {
            lemma_byte_next(s, i as int);
        }
        lemma_prev_at(s, i as int, pos as nat);
        lemma_char_pos(s, i as int);
    }
    at
}

/// The first `n` characters, or all.
fn first_chars(v: &Vec<char>, n: u128) -> (r: Vec<char>)
    ensures
        r@ == first(v@, n as nat),
{
    if n < v.len() as u128 {
        slice_of(v, 0, n as usize)
    } else {
        let r = copy_of(v);
        assert(v@.take(v@.len() as int) =~= v@);
        r
    }
}

/// The characters after the first `n`.
fn rest_chars(v: &Vec<char>, n: u128) -> (r: Vec<char>)
    ensures
        r@ == rest(v@, n as nat),
{
    let from: usize = if n < v.len() as u128 {
        n as usize
    } else {
        v.len()
    };
    let r = slice_of(v, from, v.len());
    assert(r@ =~= v@.skip(from as int));
    r
}

/// `at` characters, `middle`, and what follows the first `skip` characters.
fn replace_chars(v: &Vec<char>, at: u128, middle: &str, skip: u128) -> (r: CompactText)
    ensures
        r@ == replaced(v@, at as nat, middle@, skip as nat),
{
    let mut out = first_chars(v, at);
    append_chars(&mut out, &chars_of(middle));
    append_chars(&mut out, &rest_chars(v, skip));
    CompactText::of(string_of(&out).as_str())
}

/// Byte offset of the last `@`.
fn at_sign_of(v: &Vec<char>) -> (r: Option<u128>)
    ensures
        match at_sign(v@) {
            Some(at) => r matches Some(n) && n == at,
            None => r is None,
        },
        r matches Some(n) ==> n < byte_len(v@),
{
    let mut i: usize = v.len();
    assert(v@.take(v@.len() as int) =~= v@);
    while i > 0
        invariant
            i <= v@.len(),
            last_of(v@, '@') == last_of(v@.take(i as int), '@'),
        decreases i,
    {
        i = i - 1;
        assert(v@.take(i + 1).drop_last() =~= v@.take(i as int));
        if v[i] == '@' {
            proof {
                lemma_byte_monotonic(v@, i as int, v@.len() as int);
                lemma_byte_ends(v@);
            }
            return Some(offset_of(v, i));
        }
    }
    None
}

/// Byte offset of the first `/`, or 0.
fn slash_of(v: &Vec<char>) -> (r: u128)
    ensures
        r == slash_at(v@),
        r <= byte_len(v@),
{
    let n: usize = v.len();
    for i in 0..n
        invariant
            n == v@.len(),
            first_of(v@, '/', 0) == first_of(v@, '/', i as int),
    {
        if v[i] == '/' {
            proof {
                lemma_byte_monotonic(v@, i as int, v@.len() as int);
                lemma_byte_ends(v@);
            }
            return offset_of(v, i);
        }
    }
    0
}

// ---------------------------------------------------------------------------
// The file picker
// ---------------------------------------------------------------------------

/// What a key does while files are offered.
pub open spec fn file_key(e: EditView, p: PickerView, key: Key) -> (
    EditView,
    PickerView,
    PickerReply,
) {
    if erases(key) {
        if p.cursor > 0 {
            let cursor = prev_boundary(e.buffer, e.cursor);
            (
                EditView { buffer: e.buffer.remove(char_pos(e.buffer, cursor)), cursor },
                p.erased(),
                PickerReply::Query,
            )
        } else {
            (cut_query(e, 0), p.closed(), PickerReply::Closed)
        }
    } else if moves(key) is Some {
        (e, p, moves(key)->0)
    } else {
        match key.code {
            KeyCode::Char(c) => (
                EditView {
                    buffer: e.buffer.insert(char_pos(e.buffer, e.cursor), c),
                    cursor: e.cursor + utf8_len(c),
                },
                p.typed(c),
                PickerReply::Query,
            ),
            KeyCode::Enter => (
                match (p.selected, at_sign(e.buffer)) {
                    (Some(path), Some(at)) => EditView {
                        buffer: replaced(e.buffer, at, path, at + 1 + byte_len(p.query)),
                        cursor: byte_len(first(e.buffer, at)) + byte_len(path),
                    },
                    _ => e,
                },
                p.closed(),
                PickerReply::Closed,
            ),
            KeyCode::Esc => (cut_query(e, byte_len(p.query)), p.closed(), PickerReply::Closed),
            _ => (e, p, PickerReply::Ignored),
        }
    }
}

/// Without the last `@` and the `n` characters behind it, the cursor where the
/// `@` was.
pub open spec fn cut_query(e: EditView, n: nat) -> EditView {
    match at_sign(e.buffer) {
        Some(at) => EditView {
            buffer: replaced(e.buffer, at, Seq::empty(), at + 1 + n),
            cursor: at,
        },
        None => e,
    }
}

/// Whether a key can be handled: a character is typed at a boundary of the
/// input line, and one to be erased is there.
pub open spec fn file_key_fits(e: EditView, p: PickerView, key: Key) -> bool {
    &&& types(key) ==> on_boundary(e.buffer, e.cursor)
    &&& erases(key) && p.cursor > 0 ==> prev_boundary(e.buffer, e.cursor) < byte_len(e.buffer)
}

/// No text has more characters than bytes, and none of its starts has more
/// bytes than the whole.
proof fn lemma_sizes(s: Seq<char>, n: nat)
    ensures
        s.len() <= byte_len(s),
        byte_len(first(s, n)) <= byte_len(s),
    decreases s.len(),
{
    if s.len() > 0 {
        lemma_sizes(s.drop_last(), n);
        lemma_byte_ends(s);
        let k = least(n, s.len()) as int;
        if k < s.len() {
            lemma_byte_monotonic(s, k, s.len() as int);
        }
    }
}

/// Takes the last `@` and the `n` characters behind it out.
fn cut(buffer: &mut CompactText, cursor: &mut usize, n: u128)
    requires
        byte_len(old(buffer)@) <= usize::MAX,
        n <= usize::MAX,
    ensures
        (EditView { buffer: final(buffer)@, cursor: *final(cursor) as nat }) == cut_query(
            (EditView { buffer: old(buffer)@, cursor: *old(cursor) as nat }),
            n as nat,
        ),
{
    let v = chars_of(buffer.text());
    if let Some(at) = at_sign_of(&v) {
        *buffer = replace_chars(&v, at, "", at + 1 + n);
        *cursor = at as usize;
        proof {
            reveal_strlit("");
            assert(""@ =~= Seq::<char>::empty());
        }
    }
}

/// Handles a key while files are offered.
pub fn handle_file_picker_key(
    buffer: &mut CompactText,
    cursor: &mut usize,
    picker: &mut PickerState,
    key: Key,
) -> (r: PickerReply)
    requires
        old(picker).wf(),
        roomy((EditView { buffer: old(buffer)@, cursor: *old(cursor) as nat }), old(picker)@),
        file_key_fits(
            (EditView { buffer: old(buffer)@, cursor: *old(cursor) as nat }),
            old(picker)@,
            key,
        ),
    ensures
        final(picker).wf(),
        ((EditView { buffer: final(buffer)@, cursor: *final(cursor) as nat }), final(picker)@, r)
            == file_key(
            (EditView { buffer: old(buffer)@, cursor: *old(cursor) as nat }),
            old(picker)@,
            key,
        ),
{
    let ghost s = buffer@;
    let ghost p = picker@;
    if is_erase(&key) {
        if picker.cursor > 0 {
            picker.backspace();
            let v = chars_of(buffer.text());
            *cursor = prev_char_boundary(&v, *cursor);
            buffer.remove(*cursor);
            PickerReply::Query
        } else {
            cut(buffer, cursor, 0);
            picker.deactivate();
            PickerReply::Closed
        }
    } else if let Some(m) = movement(&key) {
        m
    } else {
        match key.code {
            KeyCode::Char(c) => {
                proof {
                    lemma_sizes(p.query, 0);
                }
                picker.char_input(c);
                buffer.insert(*cursor, c);
                *cursor = *cursor + char_len(c);
                PickerReply::Query
            },
            KeyCode::Enter => {
                if let Some(path) = &picker.selected {
                    let v = chars_of(buffer.text());
                    if let Some(at) = at_sign_of(&v) {
                        let before = first_chars(&v, at);
                        let query_len: u128 = bytes_of(&picker.query);
                        let path_len: u128 = bytes_of(&chars_of(path.as_str()));
                        let before_len: u128 = bytes_of(&before);
                        proof {
                            lemma_sizes(s, at as nat);
                        }
                        *buffer = replace_chars(&v, at, path.as_str(), at + 1 + query_len);
                        *cursor = (before_len + path_len) as usize;
                    }
                }
                picker.deactivate();
                PickerReply::Closed
            },
            KeyCode::Esc => {
                let query_len: u128 = bytes_of(&picker.query);
                cut(buffer, cursor, query_len);
                picker.deactivate();
                PickerReply::Closed
            },
            _ => PickerReply::Ignored,
        }
    }
}

// ---------------------------------------------------------------------------
// Pickers of arguments
// ---------------------------------------------------------------------------

/// Without the character at a byte offset, where there is one.
pub open spec fn dropped(s: Seq<char>, pos: nat) -> Seq<char> {
    if pos < byte_len(s) {
        s.remove(char_pos(s, pos))
    } else {
        s
    }
}

/// The input line and the picker with the character before the position erased
/// in both; the query starts at byte `start` of the line.
pub open spec fn erased_in_line(e: EditView, p: PickerView, start: nat) -> (
    EditView,
    PickerView,
    PickerReply,
) {
    let buffer = dropped(e.buffer, start + p.erased().offset());
    (
        EditView { buffer, cursor: prev_boundary(buffer, e.cursor) },
        p.erased(),
        PickerReply::Query,
    )
}

/// The input line and the picker with `c` typed into both; the query starts at
/// byte `start` of the line.
pub open spec fn typed_in_line(e: EditView, p: PickerView, start: nat, c: char) -> (
    EditView,
    PickerView,
    PickerReply,
) {
    (
        EditView {
            buffer: e.buffer.insert(char_pos(e.buffer, start + p.offset()), c),
            cursor: e.cursor + utf8_len(c),
        },
        p.typed(c),
        PickerReply::Query,
    )
}

/// Whether a key can be handled: the query stands in the line where a character
/// is typed or erased.
pub open spec fn line_key_fits(e: EditView, p: PickerView, start: nat, key: Key) -> bool {
    &&& types(key) ==> on_boundary(e.buffer, start + p.offset())
    &&& erases(key) && p.cursor > 0 && start + p.erased().offset() < byte_len(e.buffer)
        ==> on_boundary(e.buffer, start + p.erased().offset())
}

/// Without the query, the cursor where it stood.
pub open spec fn cleared(e: EditView, p: PickerView, start: nat) -> EditView {
    if byte_len(e.buffer) >= start + p.query.len() {
        EditView {
            buffer: replaced(e.buffer, start, Seq::empty(), start + p.query.len()),
            cursor: start,
        }
    } else {
        e
    }
}

/// What a key does while arguments are offered that stand at byte `start`.
pub open spec fn argument_key(e: EditView, p: PickerView, start: nat, key: Key) -> (
    EditView,
    PickerView,
    PickerReply,
) {
    if erases(key) {
        if p.cursor > 0 {
            erased_in_line(e, p, start)
        } else {
            (cleared(e, p, start), p.closed(), PickerReply::Closed)
        }
    } else if moves(key) is Some {
        (e, p, moves(key)->0)
    } else {
        match key.code {
            KeyCode::Char(c) => typed_in_line(e, p, start, c),
            KeyCode::Enter => (
                match p.selected {
                    Some(name) => EditView {
                        buffer: replaced(e.buffer, start, name, start + p.query.len()),
                        cursor: start + byte_len(name),
                    },
                    None => e,
                },
                p.closed(),
                PickerReply::Closed,
            ),
            KeyCode::Esc => (cleared(e, p, start), p.closed(), PickerReply::Closed),
            _ => (e, p, PickerReply::Ignored),
        }
    }
}

/// A byte offset in a text is not beyond its end.
proof fn lemma_boundary_bound(s: Seq<char>, pos: nat)
    requires
        on_boundary(s, pos),
    ensures
        pos <= byte_len(s),
{
    let i = char_pos(s, pos);
    assert(0 <= i <= s.len() && byte_at(s, i) == pos);
    lemma_byte_ends(s);
    if i < s.len() {
        lemma_byte_monotonic(s, i, s.len() as int);
    }
}

/// Erases in the line and in the query.
fn erase_in_line(
    buffer: &mut CompactText,
    cursor: &mut usize,
    picker: &mut PickerState,
    start: usize,
) -> (r: PickerReply)
    requires
        old(picker).wf(),
        old(picker).cursor > 0,
        byte_len(old(buffer)@) <= usize::MAX,
        start + old(picker)@.erased().offset() < byte_len(old(buffer)@) ==> on_boundary(
            old(buffer)@,
            start as nat + old(picker)@.erased().offset(),
        ),
    ensures
        final(picker).wf(),
        ((EditView { buffer: final(buffer)@, cursor: *final(cursor) as nat }), final(picker)@, r)
            == erased_in_line(
            (EditView { buffer: old(buffer)@, cursor: *old(cursor) as nat }),
            old(picker)@,
            start as nat,
        ),
{
    picker.backspace();
    let in_query: u128 = offset_of(&picker.query, picker.cursor);
    let pos: u128 = start as u128 + in_query;
    if pos < bytes_of(&chars_of(buffer.text())) {
        buffer.remove(pos as usize);
    }
    *cursor = prev_char_boundary(&chars_of(buffer.text()), *cursor);
    PickerReply::Query
}

/// Types into the line and into the query.
fn type_in_line(
    buffer: &mut CompactText,
    cursor: &mut usize,
    picker: &mut PickerState,
    start: usize,
    c: char,
) -> (r: PickerReply)
    requires
        old(picker).wf(),
        roomy((EditView { buffer: old(buffer)@, cursor: *old(cursor) as nat }), old(picker)@),
        on_boundary(old(buffer)@, start as nat + old(picker)@.offset()),
    ensures
        final(picker).wf(),
        ((EditView { buffer: final(buffer)@, cursor: *final(cursor) as nat }), final(picker)@, r)
            == typed_in_line(
            (EditView { buffer: old(buffer)@, cursor: *old(cursor) as nat }),
            old(picker)@,
            start as nat,
            c,
        ),
{
    let in_query: u128 = offset_of(&picker.query, picker.cursor);
    proof {
        lemma_sizes(picker@.query, 0);
        lemma_boundary_bound(buffer@, start as nat + picker@.offset());
    }
    let pos: u128 = start as u128 + in_query;
    picker.char_input(c);
    buffer.insert(pos as usize, c);
    *cursor = *cursor + char_len(c);
    PickerReply::Query
}

/// Takes the query out of the line.
fn clear_query(buffer: &mut CompactText, cursor: &mut usize, picker: &PickerState, start: usize)
    ensures
        (EditView { buffer: final(buffer)@, cursor: *final(cursor) as nat }) == cleared(
            (EditView { buffer: old(buffer)@, cursor: *old(cursor) as nat }),
            picker@,
            start as nat,
        ),
{
    let v = chars_of(buffer.text());
    let skip: u128 = start as u128 + picker.query.len() as u128;
    if bytes_of(&v) >= skip {
        *buffer = replace_chars(&v, start as u128, "", skip);
        *cursor = start;
        proof {
            reveal_strlit("");
            assert(""@ =~= Seq::<char>::empty());
        }
    }
}

/// Handles a key while arguments are offered that stand at byte `start`.
fn handle_argument_key(
    buffer: &mut CompactText,
    cursor: &mut usize,
    picker: &mut PickerState,
    start: usize,
    key: Key,
) -> (r: PickerReply)
    requires
        old(picker).wf(),
        roomy((EditView { buffer: old(buffer)@, cursor: *old(cursor) as nat }), old(picker)@),
        start <= byte_len(old(picker)@.prefix) + 8,
        line_key_fits(
            (EditView { buffer: old(buffer)@, cursor: *old(cursor) as nat }),
            old(picker)@,
            start as nat,
            key,
        ),
    ensures
        final(picker).wf(),
        ((EditView { buffer: final(buffer)@, cursor: *final(cursor) as nat }), final(picker)@, r)
            == argument_key(
            (EditView { buffer: old(buffer)@, cursor: *old(cursor) as nat }),
            old(picker)@,
            start as nat,
            key,
        ),
{
    if is_erase(&key) {
        if picker.cursor > 0 {
            erase_in_line(buffer, cursor, picker, start)
        } else {
            clear_query(buffer, cursor, picker, start);
            picker.deactivate();
            PickerReply::Closed
        }
    } else if let Some(m) = movement(&key) {
        m
    } else {
        match key.code {
            KeyCode::Char(c) => type_in_line(buffer, cursor, picker, start, c),
            KeyCode::Enter => {
                if let Some(name) = &picker.selected {
                    let v = chars_of(buffer.text());
                    let name_len: u128 = bytes_of(&chars_of(name.as_str()));
                    *buffer = replace_chars(
                        &v,
                        start as u128,
                        name.as_str(),
                        start as u128 + picker.query.len() as u128,
                    );
                    *cursor = start + name_len as usize;
                }
                picker.deactivate();
                PickerReply::Closed
            },
            KeyCode::Esc => {
                clear_query(buffer, cursor, picker, start);
                picker.deactivate();
                PickerReply::Closed
            },
            _ => PickerReply::Ignored,
        }
    }
}

/// Handles a key while models are offered, which stand behind `/models `.
pub fn handle_models_picker_key(
    buffer: &mut CompactText,
    cursor: &mut usize,
    picker: &mut PickerState,
    key: Key,
) -> (r: PickerReply)
    requires
        old(picker).wf(),
        roomy((EditView { buffer: old(buffer)@, cursor: *old(cursor) as nat }), old(picker)@),
        line_key_fits(
            (EditView { buffer: old(buffer)@, cursor: *old(cursor) as nat }),
            old(picker)@,
            byte_len("/models "@),
            key,
        ),
    ensures
        final(picker).wf(),
        ((EditView { buffer: final(buffer)@, cursor: *final(cursor) as nat }), final(picker)@, r)
            == argument_key(
            (EditView { buffer: old(buffer)@, cursor: *old(cursor) as nat }),
            old(picker)@,
            byte_len("/models "@),
            key,
        ),
{
    proof {
        reveal_strlit("/models ");
        reveal_with_fuel(byte_len, 9);
        assert(byte_len("/models "@) == 8);
    }
    handle_argument_key(buffer, cursor, picker, 8, key)
}

/// Handles a key while color themes are offered, which stand behind `/theme `.
pub fn handle_theme_picker_key(
    buffer: &mut CompactText,
    cursor: &mut usize,
    picker: &mut PickerState,
    key: Key,
) -> (r: PickerReply)
    requires
        old(picker).wf(),
        roomy((EditView { buffer: old(buffer)@, cursor: *old(cursor) as nat }), old(picker)@),
        line_key_fits(
            (EditView { buffer: old(buffer)@, cursor: *old(cursor) as nat }),
            old(picker)@,
            byte_len("/theme "@),
            key,
        ),
    ensures
        final(picker).wf(),
        ((EditView { buffer: final(buffer)@, cursor: *final(cursor) as nat }), final(picker)@, r)
            == argument_key(
            (EditView { buffer: old(buffer)@, cursor: *old(cursor) as nat }),
            old(picker)@,
            byte_len("/theme "@),
            key,
        ),
{
    proof {
        reveal_strlit("/theme ");
        reveal_with_fuel(byte_len, 8);
        assert(byte_len("/theme "@) == 7);
    }
    handle_argument_key(buffer, cursor, picker, 7, key)
}

/// Handles a key while arguments are offered that stand behind the picker's own
/// prefix.
pub fn handle_prompt_picker_key(
    buffer: &mut CompactText,
    cursor: &mut usize,
    picker: &mut PickerState,
    key: Key,
) -> (r: PickerReply)
    requires
        old(picker).wf(),
        roomy((EditView { buffer: old(buffer)@, cursor: *old(cursor) as nat }), old(picker)@),
        line_key_fits(
            (EditView { buffer: old(buffer)@, cursor: *old(cursor) as nat }),
            old(picker)@,
            byte_len(old(picker)@.prefix),
            key,
        ),
    ensures
        final(picker).wf(),
        ((EditView { buffer: final(buffer)@, cursor: *final(cursor) as nat }), final(picker)@, r)
            == argument_key(
            (EditView { buffer: old(buffer)@, cursor: *old(cursor) as nat }),
            old(picker)@,
            byte_len(old(picker)@.prefix),
            key,
        ),
{
    let start: u128 = bytes_of(&chars_of(picker.prefix.as_str()));
    handle_argument_key(buffer, cursor, picker, start as usize, key)
}

// ---------------------------------------------------------------------------
// The command picker
// ---------------------------------------------------------------------------

/// The names that pickers of arguments offer.
pub struct Names {
    pub prompts: Vec<String>,
    pub themes: Vec<String>,
    pub models: Vec<String>,
}

/// The picker that a command opens for its argument: sort, prefix and items.
pub open spec fn next_picker(
    command: Seq<char>,
    prompts: Seq<Seq<char>>,
    themes: Seq<Seq<char>>,
    models: Seq<Seq<char>>,
) -> Option<(PickerKind, PickerView)> {
    if command == "/prompt"@ && prompts.len() > 0 {
        Some((PickerKind::Prompt, opened("/prompt "@, prompts)))
    } else if command == "/models"@ && models.len() > 0 {
        Some((PickerKind::Models, opened("/models "@, models)))
    } else if command == "/theme"@ && themes.len() > 0 {
        Some((PickerKind::Theme, opened("/theme "@, themes)))
    } else if command == "/queue"@ {
        Some((PickerKind::Prompt, opened("/queue "@, seq!["ls"@, "clear"@, "pop"@])))
    } else {
        None
    }
}

/// The input line with a command filled in for what was typed of it.
pub open spec fn command_filled(e: EditView, p: PickerView, command: Seq<char>) -> EditView {
    let at = slash_at(e.buffer);
    let before = first(e.buffer, at);
    let after = rest(e.buffer, at + 1 + p.query.len());
    EditView {
        buffer: before + command + (if after.len() == 0 || after[0] == ' ' {
            seq![' ']
        } else {
            after
        }),
        cursor: byte_len(before) + byte_len(command) + 1,
    }
}

/// The input line with only the slash left of a command.
pub open spec fn command_cut(e: EditView, p: PickerView) -> EditView {
    let at = slash_at(e.buffer);
    EditView {
        buffer: replaced(e.buffer, at, seq!['/'], at + 1 + p.query.len()),
        cursor: at + 1,
    }
}

/// What a key does while commands are offered, leaving out the picker that it
/// may open.
pub open spec fn command_key(e: EditView, p: PickerView, key: Key) -> (
    EditView,
    PickerView,
    PickerReply,
) {
    if erases(key) {
        if p.cursor > 0 {
            erased_in_line(e, p, 1)
        } else if e.buffer.len() > 0 && e.buffer[0] == '/' {
            (
                EditView { buffer: seq!['/'] + rest(e.buffer, 1 + p.query.len()), cursor: 1 },
                p.closed(),
                PickerReply::Closed,
            )
        } else {
            (e, p.closed(), PickerReply::Closed)
        }
    } else if moves(key) is Some {
        (e, p, moves(key)->0)
    } else {
        match key.code {
            KeyCode::Char(c) => typed_in_line(e, p, 1, c),
            KeyCode::Enter => (
                match p.selected {
                    Some(command) => command_filled(e, p, command),
                    None => e,
                },
                p.closed(),
                PickerReply::Closed,
            ),
            KeyCode::Esc => (command_cut(e, p), p.closed(), PickerReply::Closed),
            _ => (e, p, PickerReply::Ignored),
        }
    }
}

/// The picker that a key opens.
pub open spec fn command_next(
    p: PickerView,
    prompts: Seq<Seq<char>>,
    themes: Seq<Seq<char>>,
    models: Seq<Seq<char>>,
    key: Key,
) -> Option<(PickerKind, PickerView)> {
    match (key.code, p.selected) {
        (KeyCode::Enter, Some(command)) => next_picker(command, prompts, themes, models),
        _ => None,
    }
}

/// A copy of a list of strings.
pub fn copy_strings(v: &Vec<String>) -> (r: Vec<String>)
    ensures
        string_seqs(r@) == string_seqs(v@),
{
    let mut r: Vec<String> = Vec::new();
    let n: usize = v.len();
    for i in 0..n
        invariant
            n == v@.len(),
            r@.len() == i,
            forall|j: int| 0 <= j < i ==> (#[trigger] r@[j])@ == v@[j]@,
    {
        r.push(string_of(&chars_of(v[i].as_str())));
    }
    assert(string_seqs(r@) =~= string_seqs(v@));
    r
}

/// The subcommands of `/queue`.
fn queue_items() -> (r: Vec<String>)
    ensures
        string_seqs(r@) == seq!["ls"@, "clear"@, "pop"@],
{
    let mut r: Vec<String> = Vec::new();
    r.push(string_of(&chars_of("ls")));
    r.push(string_of(&chars_of("clear")));
    r.push(string_of(&chars_of("pop")));
    assert(string_seqs(r@) =~= seq!["ls"@, "clear"@, "pop"@]);
    r
}

/// The picker that a command opens for its argument.
fn argument_picker(command: &str, names: &Names) -> (r: Option<Picker>)
    ensures
        match next_picker(
            command@,
            string_seqs(names.prompts@),
            string_seqs(names.themes@),
            string_seqs(names.models@),
        ) {
            Some((kind, state)) => r matches Some(p) && p.kind() == kind && p.state() == state,
            None => r is None,
        },
{
    if same_text(command, "/prompt") && names.prompts.len() > 0 {
        Some(Picker::Prompt(PickerState::open("/prompt ", copy_strings(&names.prompts))))
    } else if same_text(command, "/models") && names.models.len() > 0 {
        Some(Picker::Models(PickerState::open("/models ", copy_strings(&names.models))))
    } else if same_text(command, "/theme") && names.themes.len() > 0 {
        Some(Picker::Theme(PickerState::open("/theme ", copy_strings(&names.themes))))
    } else if same_text(command, "/queue") {
        Some(Picker::Prompt(PickerState::open("/queue ", queue_items())))
    } else {
        None
    }
}

/// Fills a command in.
fn fill_command(
    buffer: &mut CompactText,
    cursor: &mut usize,
    picker: &PickerState,
    command: &str,
)
    requires
        byte_len(old(buffer)@) + byte_len(command@) + 1 <= usize::MAX,
    ensures
        (EditView { buffer: final(buffer)@, cursor: *final(cursor) as nat }) == command_filled(
            (EditView { buffer: old(buffer)@, cursor: *old(cursor) as nat }),
            picker@,
            command@,
        ),
{
    let v = chars_of(buffer.text());
    let at: u128 = slash_of(&v);
    let mut out = first_chars(&v, at);
    proof {
        lemma_sizes(v@, at as nat);
    }
    let before_len: u128 = bytes_of(&out);
    let name = chars_of(command);
    let name_len: u128 = bytes_of(&name);
    let after = rest_chars(&v, at + 1 + picker.query.len() as u128);
    append_chars(&mut out, &name);
    if after.len() == 0 || after[0] == ' ' {
        out.push(' ');
    } else {
        append_chars(&mut out, &after);
    }
    *buffer = CompactText::of(string_of(&out).as_str());
    *cursor = (before_len + name_len) as usize + 1;
    assert(buffer@ =~= command_filled(
        (EditView { buffer: v@, cursor: *old(cursor) as nat }),
        picker@,
        command@,
    ).buffer);
}

/// Leaves only the slash of a command.
fn cut_command(buffer: &mut CompactText, cursor: &mut usize, picker: &PickerState)
    requires
        byte_len(old(buffer)@) < usize::MAX,
    ensures
        (EditView { buffer: final(buffer)@, cursor: *final(cursor) as nat }) == command_cut(
            (EditView { buffer: old(buffer)@, cursor: *old(cursor) as nat }),
            picker@,
        ),
{
    let v = chars_of(buffer.text());
    let at: u128 = slash_of(&v);
    *buffer = replace_chars(&v, at, "/", at + 1 + picker.query.len() as u128);
    *cursor = at as usize + 1;
    proof {
        reveal_strlit("/");
        assert("/"@ =~= seq!['/']);
    }
}

/// Handles a key while commands are offered. A command that takes one of
/// several names opens the picker for them.
pub fn handle_command_picker_key(
    buffer: &mut CompactText,
    cursor: &mut usize,
    names: &Names,
    picker: &mut PickerState,
    key: Key,
) -> (r: (PickerReply, Option<Picker>))
    requires
        old(picker).wf(),
        roomy((EditView { buffer: old(buffer)@, cursor: *old(cursor) as nat }), old(picker)@),
        line_key_fits(
            (EditView { buffer: old(buffer)@, cursor: *old(cursor) as nat }),
            old(picker)@,
            1,
            key,
        ),
    ensures
        final(picker).wf(),
        ((EditView { buffer: final(buffer)@, cursor: *final(cursor) as nat }), final(picker)@, r.0)
            == command_key(
            (EditView { buffer: old(buffer)@, cursor: *old(cursor) as nat }),
            old(picker)@,
            key,
        ),
        match command_next(
            old(picker)@,
            string_seqs(names.prompts@),
            string_seqs(names.themes@),
            string_seqs(names.models@),
            key,
        ) {
            Some((kind, state)) => r.1 matches Some(p) && p.kind() == kind && p.state() == state,
            None => r.1 is None,
        },
{
    if is_erase(&key) {
        if picker.cursor > 0 {
            (erase_in_line(buffer, cursor, picker, 1), None)
        } else {
            let v = chars_of(buffer.text());
            if v.len() > 0 && v[0] == '/' {
                *buffer = replace_chars(&v, 0, "/", 1 + picker.query.len() as u128);
                *cursor = 1;
                proof {
                    reveal_strlit("/");
                    assert("/"@ =~= seq!['/']);
                    assert(first(v@, 0) =~= Seq::<char>::empty());
                    assert(buffer@ =~= seq!['/'] + rest(v@, 1 + picker@.query.len()));
                }
            }
            picker.deactivate();
            (PickerReply::Closed, None)
        }
    } else if let Some(m) = movement(&key) {
        (m, None)
    } else {
        match key.code {
            KeyCode::Char(c) => (type_in_line(buffer, cursor, picker, 1, c), None),
            KeyCode::Enter => {
                let mut next: Option<Picker> = None;
                if let Some(command) = &picker.selected {
                    fill_command(buffer, cursor, picker, command.as_str());
                    next = argument_picker(command.as_str(), names);
                }
                picker.deactivate();
                (PickerReply::Closed, next)
            },
            KeyCode::Esc => {
                cut_command(buffer, cursor, picker);
                picker.deactivate();
                (PickerReply::Closed, None)
            },
            _ => (PickerReply::Ignored, None),
        }
    }
}

// ---------------------------------------------------------------------------
// Laws
// ---------------------------------------------------------------------------

/// The boundaries of a text with a character put in, up to where it stands.
proof fn lemma_insert_bytes(s: Seq<char>, i: int, c: char)
    requires
        0 <= i <= s.len(),
    ensures
        byte_at(s.insert(i, c), i) == byte_at(s, i),
        byte_at(s.insert(i, c), i + 1) == byte_at(s, i) + utf8_len(c),
        byte_at(s, i) < byte_len(s.insert(i, c)),
        s.insert(i, c).remove(i) == s,
        char_pos(s.insert(i, c), byte_at(s, i)) == i,
        on_boundary(s.insert(i, c), byte_at(s, i)),
{
    let t = s.insert(i, c);
    assert(t.take(i) =~= s.take(i));
    lemma_byte_next(t, i);
    lemma_byte_ends(t);
    lemma_char_pos(t, i);
    if i + 1 < t.len() {
        lemma_byte_monotonic(t, i + 1, t.len() as int);
    }
    assert(t.remove(i) =~= s);
}

/// Typing a character into a file query and erasing it changes nothing.
pub proof fn lemma_file_erase_undoes(e: EditView, p: PickerView, typing: Key, erasing: Key)
    requires
        p.wf(),
        types(typing),
        erases(erasing),
        file_key_fits(e, p, typing),
    ensures
        ({
            let (e1, p1, _) = file_key(e, p, typing);
            let (e2, p2, _) = file_key(e1, p1, erasing);
            file_key_fits(e1, p1, erasing) && e2 == e && p2 == p
        }),
{
    let c = typing.code->Char_0;
    let i = char_pos(e.buffer, e.cursor);
    assert(0 <= i <= e.buffer.len() && byte_at(e.buffer, i) == e.cursor);
    let t = e.buffer.insert(i, c);
    lemma_insert_bytes(e.buffer, i, c);
    lemma_prev_at(t, i, e.cursor + utf8_len(c));
    lemma_query_erase_undoes(p, c);
}

/// Typing a character into a query and erasing it changes nothing.
proof fn lemma_query_erase_undoes(p: PickerView, c: char)
    requires
        p.wf(),
    ensures
        p.typed(c).erased() == p,
        p.typed(c).wf(),
{
    assert(p.query.insert(p.cursor as int, c).remove(p.cursor as int) =~= p.query);
}

/// Typing a character of an argument or a command and erasing it leaves the
/// input line and the query as they were, and so the cursor where it stood at
/// the typed place.
pub proof fn lemma_line_erase_undoes(
    e: EditView,
    p: PickerView,
    start: nat,
    typing: Key,
    erasing: Key,
)
    requires
        p.wf(),
        types(typing),
        erases(erasing),
        line_key_fits(e, p, start, typing),
    ensures
        ({
            let (e1, p1, _) = typed_in_line(e, p, start, typing.code->Char_0);
            let (e2, p2, _) = erased_in_line(e1, p1, start);
            &&& line_key_fits(e1, p1, start, erasing)
            &&& e2.buffer == e.buffer
            &&& p2 == p
            &&& e.cursor == start + p.offset() && utf8_len(typing.code->Char_0) == 1 ==> e2 == e
        }),
{
    let c = typing.code->Char_0;
    let pos = start + p.offset();
    let i = char_pos(e.buffer, pos);
    assert(0 <= i <= e.buffer.len() && byte_at(e.buffer, i) == pos);
    lemma_insert_bytes(e.buffer, i, c);
    lemma_query_erase_undoes(p, c);
    if utf8_len(c) == 1 && e.cursor == pos {
        lemma_char_pos(e.buffer, i);
        assert(prev_boundary(e.buffer, e.cursor + 1) == e.cursor);
    }
}

/// Whether the query stands in the input line, behind its first `k` characters.
pub open spec fn in_step(buffer: Seq<char>, p: PickerView, k: int) -> bool {
    &&& p.wf()
    &&& 0 <= k
    &&& k + p.query.len() <= buffer.len()
    &&& buffer.subrange(k, k + p.query.len()) == p.query
}

/// A place in the query is a place in the line.
proof fn lemma_query_place(buffer: Seq<char>, p: PickerView, k: int, i: int)
    requires
        in_step(buffer, p, k),
        0 <= i <= p.query.len(),
    ensures
        byte_at(buffer, k + i) == byte_at(buffer, k) + byte_at(p.query, i),
        on_boundary(buffer, byte_at(buffer, k + i)),
        char_pos(buffer, byte_at(buffer, k + i)) == k + i,
        byte_at(buffer, k + i) <= byte_len(buffer),
{
    assert(buffer.take(k + i) =~= buffer.take(k) + buffer.subrange(k, k + p.query.len()).take(i));
    lemma_byte_concat(buffer.take(k), p.query.take(i));
    lemma_char_pos(buffer, k + i);
    lemma_boundary_bound(buffer, byte_at(buffer, k + i));
}

/// Typing in both keeps the query in step with the line.
proof fn lemma_typed_in_step(buffer: Seq<char>, p: PickerView, k: int, c: char)
    requires
        in_step(buffer, p, k),
    ensures
        in_step(buffer.insert(k + p.cursor, c), p.typed(c), k),
        byte_at(buffer.insert(k + p.cursor, c), k) == byte_at(buffer, k),
{
    let longer = buffer.insert(k + p.cursor, c);
    let q = p.typed(c).query;
    assert(longer.take(k) =~= buffer.take(k));
    assert forall|j: int| 0 <= j < q.len() implies longer.subrange(k, k + q.len())[j] == q[j] by {
        if j < p.cursor {
            assert(buffer.subrange(k, k + p.query.len())[j] == p.query[j]);
        } else if j > p.cursor {
            assert(buffer.subrange(k, k + p.query.len())[j - 1] == p.query[j - 1]);
        }
    }
    assert(longer.subrange(k, k + q.len()) =~= q);
}

/// Erasing in both keeps the query in step with the line.
proof fn lemma_erased_in_step(buffer: Seq<char>, p: PickerView, k: int)
    requires
        in_step(buffer, p, k),
        p.cursor > 0,
    ensures
        in_step(buffer.remove(k + p.cursor - 1), p.erased(), k),
        byte_at(buffer.remove(k + p.cursor - 1), k) == byte_at(buffer, k),
        p.erased().offset() == byte_at(p.query, p.cursor - 1),
        byte_at(buffer, k + p.cursor - 1) < byte_len(buffer),
{
    let shorter = buffer.remove(k + p.cursor - 1);
    let q = p.erased().query;
    assert(shorter.take(k) =~= buffer.take(k));
    assert(q.take(p.cursor - 1) =~= p.query.take(p.cursor - 1));
    assert forall|j: int| 0 <= j < q.len() implies shorter.subrange(k, k + q.len())[j] == q[j] by {
        if j < p.cursor - 1 {
            assert(buffer.subrange(k, k + p.query.len())[j] == p.query[j]);
        } else {
            assert(buffer.subrange(k, k + p.query.len())[j + 1] == p.query[j + 1]);
        }
    }
    assert(shorter.subrange(k, k + q.len()) =~= q);
    lemma_byte_ends(buffer);
    lemma_byte_monotonic(buffer, k + p.cursor - 1, buffer.len() as int);
}

/// While an argument or a command is entered, its query stands in the input
/// line: every key can be handled, and those that type or erase keep it there.
pub proof fn lemma_line_keeps_step(e: EditView, p: PickerView, k: int, key: Key)
    requires
        in_step(e.buffer, p, k),
    ensures
        ({
            let start = byte_at(e.buffer, k);
            &&& line_key_fits(e, p, start, key)
            &&& types(key) ==> {
                let (e1, p1, _) = typed_in_line(e, p, start, key.code->Char_0);
                in_step(e1.buffer, p1, k) && byte_at(e1.buffer, k) == start
            }
            &&& erases(key) && p.cursor > 0 ==> {
                let (e1, p1, _) = erased_in_line(e, p, start);
                in_step(e1.buffer, p1, k) && byte_at(e1.buffer, k) == start
            }
        }),
{
    lemma_query_place(e.buffer, p, k, p.cursor as int);
    if types(key) {
        lemma_typed_in_step(e.buffer, p, k, key.code->Char_0);
    }
    if p.cursor > 0 {
        lemma_query_place(e.buffer, p, k, p.cursor - 1);
        lemma_erased_in_step(e.buffer, p, k);
    }
}

/// While a file is looked for, its query stands in the input line with the
/// cursor at the same place: every key can be handled, and those that type or
/// erase keep both there.
pub proof fn lemma_file_keeps_step(e: EditView, p: PickerView, k: int, key: Key)
    requires
        in_step(e.buffer, p, k),
        e.cursor == byte_at(e.buffer, k + p.cursor),
    ensures
        file_key_fits(e, p, key),
        ({
            let (e1, p1, r) = file_key(e, p, key);
            r is Query ==> in_step(e1.buffer, p1, k) && e1.cursor == byte_at(
                e1.buffer,
                k + p1.cursor,
            )
        }),
{
    lemma_query_place(e.buffer, p, k, p.cursor as int);
    if types(key) {
        let c = key.code->Char_0;
        lemma_typed_in_step(e.buffer, p, k, c);
        lemma_insert_bytes(e.buffer, k + p.cursor, c);
    }
    if p.cursor > 0 {
        lemma_query_place(e.buffer, p, k, p.cursor - 1);
        lemma_erased_in_step(e.buffer, p, k);
        lemma_byte_monotonic(e.buffer, k + p.cursor - 1, k + p.cursor);
        lemma_prev_at(e.buffer, k + p.cursor - 1, e.cursor);
        let shorter = e.buffer.remove(k + p.cursor - 1);
        assert(shorter.take(k + p.cursor - 1) =~= e.buffer.take(k + p.cursor - 1));
    }
}

/// The last `c` is the one that no other follows.
proof fn lemma_last_of(s: Seq<char>, c: char, i: int)
    requires
        0 <= i < s.len(),
        s[i] == c,
        forall|j: int| i < j < s.len() ==> s[j] != c,
    ensures
        last_of(s, c) == Some(i),
    decreases s.len(),
{
    if i < s.len() - 1 {
        lemma_last_of(s.drop_last(), c, i);
    }
}

/// Where the line up to the query has characters of one byte only: Escape takes
/// the sign and the query out, and Enter puts the file in their place. All else
/// in the line stays.
pub proof fn lemma_file_replaces_query(e: EditView, p: PickerView, k: int, key: Key)
    requires
        in_step(e.buffer, p, k),
        k > 0,
        e.buffer[k - 1] == '@',
        forall|j: int| k <= j < e.buffer.len() ==> e.buffer[j] != '@',
        byte_at(e.buffer, k - 1) == k - 1,
        byte_len(p.query) == p.query.len(),
    ensures
        ({
            let before = e.buffer.take(k - 1);
            let after = e.buffer.skip(k + p.query.len());
            let (e1, p1, _) = file_key(e, p, key);
            &&& key.code is Esc ==> e1 == (EditView {
                buffer: before + after,
                cursor: (k - 1) as nat,
            })
            &&& key.code is Enter && p.selected is Some ==> e1 == (EditView {
                buffer: before + p.selected->0 + after,
                cursor: (k - 1 + byte_len(p.selected->0)) as nat,
            })
            &&& key.code is Esc || key.code is Enter ==> !p1.active
        }),
{
    lemma_last_of(e.buffer, '@', k - 1);
    let n = p.query.len();
    assert(first(e.buffer, (k - 1) as nat) =~= e.buffer.take(k - 1));
    assert(rest(e.buffer, (k + n) as nat) =~= e.buffer.skip(k + n));
    assert(e.buffer.take(k - 1) + Seq::<char>::empty() =~= e.buffer.take(k - 1));
}

/// Where the line up to the query has characters of one byte only: Enter puts the
/// chosen argument in the place of the query, and Escape takes the query out. All
/// else in the line stays.
pub proof fn lemma_argument_replaces_query(e: EditView, p: PickerView, k: int, key: Key)
    requires
        in_step(e.buffer, p, k),
        byte_at(e.buffer, k) == k,
        byte_len(p.query) == p.query.len(),
    ensures
        ({
            let before = e.buffer.take(k);
            let after = e.buffer.skip(k + p.query.len());
            let (e1, p1, _) = argument_key(e, p, k as nat, key);
            &&& key.code is Esc ==> e1 == (EditView { buffer: before + after, cursor: k as nat })
            &&& key.code is Enter && p.selected is Some ==> e1 == (EditView {
                buffer: before + p.selected->0 + after,
                cursor: (k + byte_len(p.selected->0)) as nat,
            })
            &&& key.code is Enter && p.selected is None ==> e1 == e
            &&& key.code is Esc || key.code is Enter ==> !p1.active
        }),
{
    let n = p.query.len();
    lemma_query_place(e.buffer, p, k, n as int);
    lemma_byte_ends(p.query);
    assert(first(e.buffer, k as nat) =~= e.buffer.take(k));
    assert(rest(e.buffer, (k + n) as nat) =~= e.buffer.skip(k + n));
    assert(e.buffer.take(k) + Seq::<char>::empty() =~= e.buffer.take(k));
}

/// A command that is chosen while nothing but its beginning was entered becomes
/// the whole line, with a blank behind it for its argument and the cursor there.
pub proof fn lemma_command_replaces_line(e: EditView, p: PickerView, key: Key)
    requires
        e.buffer == seq!['/'] + p.query,
        forall|j: int| 0 <= j < p.query.len() ==> #[trigger] p.query[j] != '/',
        key.code is Enter,
        p.selected is Some,
    ensures
        ({
            let (e1, p1, _) = command_key(e, p, key);
            let command = p.selected->0;
            &&& e1 == (EditView { buffer: command.push(' '), cursor: byte_len(command) + 1 })
            &&& !p1.active
        }),
{
    let command = p.selected->0;
    let s = e.buffer;
    assert(s[0] == '/');
    assert forall|j: int| 0 < j < s.len() implies s[j] != '/' by {
        assert(s[j] == p.query[j - 1]);
    }
    lemma_last_of(s, '/', 0);
    assert(first_of(s, '/', 0) == Some(0int));
    assert(slash_at(s) == 0);
    assert(first(s, 0) =~= Seq::<char>::empty());
    assert(rest(s, (1 + p.query.len()) as nat) =~= Seq::<char>::empty());
    lemma_byte_ends(Seq::<char>::empty());
    assert(Seq::<char>::empty() + command + seq![' '] =~= command.push(' '));
}

/// A command whose argument is one of a list offers exactly that list, and nothing
/// is chosen yet.
pub proof fn lemma_argument_offered(
    prompts: Seq<Seq<char>>,
    themes: Seq<Seq<char>>,
    models: Seq<Seq<char>>,
)
    ensures
        prompts.len() > 0 ==> (next_picker("/prompt"@, prompts, themes, models) matches Some((kind, p))
            && kind is Prompt && p.items == prompts && p.active && p.selected is None),
        themes.len() > 0 ==> (next_picker("/theme"@, prompts, themes, models) matches Some((kind, p))
            && kind is Theme && p.items == themes && p.active && p.selected is None),
        models.len() > 0 ==> (next_picker("/models"@, prompts, themes, models) matches Some((kind, p))
            && kind is Models && p.items == models && p.active && p.selected is None),
{
    reveal_strlit("/prompt");
    reveal_strlit("/theme");
    reveal_strlit("/models");
    assert("/prompt"@[1] == 'p' && "/theme"@[1] == 't' && "/models"@[1] == 'm');
}

} // verus!
