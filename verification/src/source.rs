use std::rc::Rc;
use vstd::prelude::*;
use vstd::string::*;

verus! {

/// The number of bytes the UTF-8 encoding of a character occupies: one for
/// code points below 0x80, two below 0x800, three below 0x10000, four
/// otherwise.
pub open spec fn len8(c: char) -> int {
    let u = c as u32;
    if u < 0x80 {
        1
    } else if u < 0x800 {
        2
    } else if u < 0x10000 {
        3
    } else {
        4
    }
}

/// The byte offset at which character `i` of `text` starts: the sum of the
/// encoded lengths of the characters before it.
pub open spec fn byte_start(text: Seq<char>, i: int) -> int
    decreases i,
{
    if i <= 0 {
        0
    } else {
        byte_start(text, i - 1) + len8(text[i - 1])
    }
}

/// Byte offsets grow with the character index.
pub proof fn lemma_byte_start_mono(text: Seq<char>, i: int, j: int)
    requires
        0 <= i <= j,
    ensures
        byte_start(text, i) <= byte_start(text, j),
    decreases j - i,
{
    if i < j {
        lemma_byte_start_mono(text, i, j - 1);
    }
}

/// Byte offsets grow strictly with the character index: every character
/// occupies at least one byte.
pub proof fn lemma_byte_start_strict(text: Seq<char>, i: int, j: int)
    requires
        0 <= i < j,
    ensures
        byte_start(text, i) < byte_start(text, j),
    decreases j - i,
{
    if i + 1 < j {
        lemma_byte_start_strict(text, i, j - 1);
    }
}

/// Scanning for the byte offset of character `i` finds exactly `i`.
pub proof fn lemma_c_lo_exact(text: Seq<char>, i: int, k: int)
    requires
        0 <= k <= i <= text.len(),
    ensures
        c_lo(text, byte_start(text, i), k) == i,
    decreases i - k,
{
    if k < i {
        lemma_byte_start_strict(text, k, i);
        lemma_c_lo_exact(text, i, k + 1);
    }
}

/// A span whose ends lie on character boundaries slices to exactly the
/// characters between those boundaries.
pub proof fn lemma_slice_aligned(text: Seq<char>, i: int, j: int)
    requires
        0 <= i <= j <= text.len(),
    ensures
        slice_view(text, byte_start(text, i), byte_start(text, j)) == text.subrange(i, j),
{
    lemma_c_lo_exact(text, i, 0);
    lemma_c_lo_exact(text, j, 0);
}

/// The encoded length of one character, computed from its code point.
pub fn char_len8(c: char) -> (r: usize)
    ensures
        r as int == len8(c),
{
    let u = c as u32;
    if u < 0x80 {
        1
    } else if u < 0x800 {
        2
    } else if u < 0x10000 {
        3
    } else {
        4
    }
}

/// Relies on `str::len`: a string's byte length is the sum of the UTF-8
/// encoded lengths of its characters, and it fits in `usize` because the
/// string exists in memory.
#[verifier::external_body]
fn str_byte_len(s: &str) -> (r: usize)
    ensures
        r as int == byte_start(s@, s@.len() as int),
{
    s.len()
}

/// Relies on `Rc::clone`: the clone is a new handle to the same value, made
/// without copying the pointee.
#[verifier::external_body]
pub(crate) fn rc_clone(rc: &Rc<String>) -> (r: Rc<String>)
    ensures
        r == *rc,
{
    Rc::clone(rc)
}

/// The first character index at or after `i` whose starting byte offset is at
/// least `b` (the buffer length if there is none).
pub open spec fn c_lo(text: Seq<char>, b: int, i: int) -> int
    decreases text.len() - i when 0 <= i <= text.len()
{
    if i >= text.len() || byte_start(text, i) >= b {
        i
    } else {
        c_lo(text, b, i + 1)
    }
}

/// The characters of `text` whose starting byte offset lies in `[b0, b1)`:
/// for a span whose ends fall on character boundaries, exactly the text of
/// the byte range `[b0, b1)`.
pub open spec fn slice_view(text: Seq<char>, b0: int, b1: int) -> Seq<char> {
    let c0 = c_lo(text, b0, 0);
    let c1 = c_lo(text, b1, 0);
    if c0 <= c1 {
        text.subrange(c0, c1)
    } else {
        Seq::empty()
    }
}

/// `c_lo` stays between its starting index and the buffer length.
pub proof fn lemma_c_lo_bounds(text: Seq<char>, b: int, i: int)
    requires
        0 <= i <= text.len(),
    ensures
        i <= c_lo(text, b, i) <= text.len(),
    decreases text.len() - i,
{
    if !(i >= text.len() || byte_start(text, i) >= b) {
        lemma_c_lo_bounds(text, b, i + 1);
    }
}

/// A position in an immutable source buffer: a shared handle to the full
/// text plus the index and byte offset of the next unread character. Cloning
/// duplicates the handle and the two integers, never the buffer, so a clone
/// is O(1). A cursor is never mutated in place: advancing consumes one
/// cursor value and produces a new one.
#[derive(Debug)]
pub struct Source {
    source: Rc<String>,
    pos: usize,
    byte: usize,
    len: usize,
}

impl Source {
    /// The characters of the source buffer.
    pub closed spec fn text(&self) -> Seq<char> {
        self.source@
    }

    /// The index of the next unread character.
    pub closed spec fn position(&self) -> int {
        self.pos as int
    }

    /// The byte offset of the next unread character.
    pub closed spec fn byte_position(&self) -> int {
        self.byte as int
    }

    /// The cursor is well formed: its position lies inside the buffer, its
    /// byte offset agrees with its position, and the buffer's byte length
    /// fits in `usize`.
    pub closed spec fn wf(&self) -> bool {
        &&& self.pos <= self.len
    &&& self.len as int == self.text().len()
    &&& self.byte as int == byte_start(self.text(), self.pos as int)
    &&& byte_start(self.text(), self.text().len() as int) <= usize::MAX
    }

    /// What well-formedness guarantees, for reasoning outside this module.
    pub proof fn lemma_wf_facts(&self)
        requires
            self.wf(),
        ensures
            0 <= self.position() <= self.text().len(),
            self.byte_position() == byte_start(self.text(), self.position()),
            byte_start(self.text(), self.text().len() as int) <= usize::MAX,
    {
    }

    /// Take ownership of a source buffer and place the cursor at its start.
    pub fn new(source: String) -> (r: Source)
        ensures
            r.wf(),
            r.text() == source@,
            r.position() == 0,
            r.byte_position() == 0,
    {
        let _total: usize = str_byte_len(source.as_str());
        let len: usize = source.as_str().unicode_len();
        Source { source: Rc::new(source), pos: 0, byte: 0, len }
    }

    /// The shared handle to the source buffer.
    pub fn source(&self) -> (r: &Rc<String>)
        ensures
            r@ == self.text(),
    {
        &self.source
    }

    /// The index of the next unread character.
    pub fn char_offset(&self) -> (r: usize)
        ensures
            r as int == self.position(),
    {
        self.pos
    }

    /// The byte offset of the next unread character.
    pub fn byte_offset(&self) -> (r: usize)
        ensures
            r as int == self.byte_position(),
    {
        self.byte
    }

    /// The next unread character, if any; the cursor is left as it is.
    pub(crate) fn peek(&self) -> (r: Option<char>)
        requires
            self.wf(),
        ensures
            match r {
                Some(c) => self.position() < self.text().len() && c == self.text()[self.position()],
                None => self.position() == self.text().len(),
            },
    {
        if self.pos < self.len {
            Some(self.source.as_str().get_char(self.pos))
        } else {
            None
        }
    }

    /// Consume the cursor and return the character under it together with a
    /// cursor advanced past that character.
    pub(crate) fn read(self) -> (r: (char, Source))
        requires
            self.wf(),
            self.position() < self.text().len(),
        ensures
            r.0 == self.text()[self.position()],
            r.1.wf(),
            r.1.text() == self.text(),
            r.1.position() == self.position() + 1,
            r.1.byte_position() == self.byte_position() + len8(r.0),
    {
        let c = self.source.as_str().get_char(self.pos);
        let w = char_len8(c);
        proof {
            lemma_byte_start_mono(self.text(), self.pos as int + 1, self.text().len() as int);
        }
        (c, Source { source: self.source, pos: self.pos + 1, byte: self.byte + w, len: self.len })
    }

    /// The text of the byte range `[b0, b1)` of the buffer, as `slice_view`
    /// describes it.
    pub(crate) fn slice_bytes(&self, b0: usize, b1: usize) -> (r: String)
        requires
            self.wf(),
        ensures
            r@ == slice_view(self.text(), b0 as int, b1 as int),
    {
        let c0 = self.scan_to_byte(b0);
        let c1 = self.scan_to_byte(b1);
        if c0 <= c1 {
            String::from_str(self.source.as_str().substring_char(c0, c1))
        } else {
            proof {
                reveal_strlit("");
                assert(""@ =~= Seq::<char>::empty());
            }
            String::from_str("")
        }
    }

    /// The first character index whose starting byte offset is at least `b`.
    fn scan_to_byte(&self, b: usize) -> (r: usize)
        requires
            self.wf(),
        ensures
            r as int == c_lo(self.text(), b as int, 0),
            r as int <= self.text().len(),
    {
        let ghost text = self.text();
        let mut i: usize = 0;
        let mut bb: usize = 0;
        while i < self.len && bb < b
            invariant
                self.wf(),
                text == self.text(),
                0 <= i as int <= text.len(),
                self.len as int == text.len(),
                bb as int == byte_start(text, i as int),
                c_lo(text, b as int, 0) == c_lo(text, b as int, i as int),
            decreases text.len() - i as int,
        {
            let c = self.source.as_str().get_char(i);
            proof {
                assert(byte_start(text, i as int + 1) == byte_start(text, i as int) + len8(
                    text[i as int],
                ));
                lemma_byte_start_mono(text, i as int + 1, text.len() as int);
            }
            bb = bb + char_len8(c);
            i = i + 1;
        }
        proof {
            lemma_c_lo_bounds(text, b as int, i as int);
        }
        i
    }
}

impl Clone for Source {
    /// Duplicate the cursor in O(1): the buffer handle is shared, only the
    /// position is copied. The clone is a value of its own; advancing it can
    /// never affect the original.
    fn clone(&self) -> (r: Self)
        ensures
            r == *self,
    {
        Source { source: rc_clone(&self.source), pos: self.pos, byte: self.byte, len: self.len }
    }
}

} // verus!
