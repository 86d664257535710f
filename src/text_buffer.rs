//! A line of editable text with a cursor, driven by key names.
use vstd::prelude::*;

use crate::text::{
    chars_of, is_whitespace, lemma_prefix_grows, lemma_utf8_concat, lemma_utf8_push, same_text, string_of, utf8_len, whitespace_of,
    width_of,
};

verus! {

/// `t` with the characters from `from` up to `to` replaced by `s`.
pub open spec fn spliced(t: Seq<char>, from: int, to: int, s: Seq<char>) -> Seq<char> {
    t.take(from) + s + t.skip(to)
}

/// The position before the white space that ends at `c`.
pub open spec fn skip_space_back(t: Seq<char>, c: int) -> int
    decreases c,
{
    if 0 < c <= t.len() && whitespace_of(t[c - 1]) {
        skip_space_back(t, c - 1)
    } else {
        c
    }
}

/// The position before the run of non-white-space characters that ends at `c`.
pub open spec fn skip_word_back(t: Seq<char>, c: int) -> int
    decreases c,
{
    if 0 < c <= t.len() && !whitespace_of(t[c - 1]) {
        skip_word_back(t, c - 1)
    } else {
        c
    }
}

/// Where a backward word deletion from `c` stops: before the white space that ends
/// at `c` and the word in front of it.
pub open spec fn word_start(t: Seq<char>, c: int) -> int {
    skip_word_back(t, skip_space_back(t, c))
}

/// Whether `b` is the byte length of the first characters of `t`: a character
/// boundary of its UTF-8 encoding.
pub open spec fn is_offset(t: Seq<char>, b: int) -> bool {
    exists|k: int| 0 <= k <= t.len() && utf8_len(t.take(k)) == b
}

/// The number of characters of `t` before the byte offset `b`.
pub open spec fn index_at(t: Seq<char>, b: int) -> int {
    choose|k: int| 0 <= k <= t.len() && utf8_len(t.take(k)) == b
}

/// The offset of a character position is a boundary, and the position is found back
/// from it.
pub proof fn lemma_index_at(t: Seq<char>, k: int)
    requires
        0 <= k <= t.len(),
    ensures
        is_offset(t, utf8_len(t.take(k)) as int),
        index_at(t, utf8_len(t.take(k)) as int) == k,
{
    let b = utf8_len(t.take(k)) as int;
    assert(0 <= k <= t.len() && utf8_len(t.take(k)) == b);
    let j = index_at(t, b);
    if j < k {
        lemma_prefix_grows(t, j, k);
    } else if j > k {
        lemma_prefix_grows(t, k, j);
    }
}

/// The cursor of a well-formed buffer is the byte length of the characters before it.
pub proof fn lemma_cursor_offset(b: TextBuffer)
    requires
        b.wf(),
    ensures
        0 <= b.index() <= b.text@.len(),
        b.cursor == utf8_len(b.text@.take(b.index())),
        (b.cursor > 0) == (b.index() > 0),
        (b.cursor < utf8_len(b.text@)) == (b.index() < b.text@.len()),
{
    let t = b.text@;
    let k = b.index();
    assert(t.take(0) =~= Seq::<char>::empty());
    assert(utf8_len(Seq::<char>::empty()) == 0);
    if k > 0 {
        lemma_prefix_grows(t, 0, k);
    }
    if k < t.len() {
        lemma_prefix_grows(t, k, t.len() as int);
    }
    assert(t.take(t.len() as int) =~= t);
}

proof fn lemma_offset_bound(t: Seq<char>, k: int)
    requires
        0 <= k <= t.len(),
    ensures
        utf8_len(t.take(k)) <= utf8_len(t),
{
    if k < t.len() {
        lemma_prefix_grows(t, k, t.len() as int);
    } else {
        assert(t.take(k) =~= t);
    }
}

/// The character position at the byte offset `cursor`.
fn char_index(t: &Vec<char>, cursor: usize) -> (k: usize)
    requires
        is_offset(t@, cursor as int),
    ensures
        k <= t@.len(),
        utf8_len(t@.take(k as int)) == cursor,
        index_at(t@, cursor as int) == k,
{
    let ghost k0 = index_at(t@, cursor as int);
    let tl = t.len();
    let mut i: usize = 0;
    let mut acc: usize = 0;
    assert(t@.take(0) =~= Seq::<char>::empty());
    assert(utf8_len(Seq::<char>::empty()) == 0);
    while acc < cursor
        invariant
            tl == t@.len(),
            0 <= k0 <= t@.len(),
            utf8_len(t@.take(k0)) == cursor,
            i <= k0,
            acc == utf8_len(t@.take(i as int)),
            acc <= cursor,
        decreases k0 - i,
    {
        assert(t@.take(i + 1) =~= t@.take(i as int).push(t@[i as int]));
        proof {
            lemma_utf8_push(t@.take(i as int), t@[i as int]);
            if i + 1 < k0 {
                lemma_prefix_grows(t@, i + 1, k0);
            }
        }
        acc = acc + width_of(t[i]);
        i = i + 1;
    }
    proof {
        if i < k0 {
            lemma_prefix_grows(t@, i as int, k0);
        }
        lemma_index_at(t@, i as int);
    }
    i
}

/// The byte length of the first `j` characters of `t`.
fn prefix_bytes(t: &Vec<char>, j: usize) -> (r: usize)
    requires
        j <= t@.len(),
        utf8_len(t@) <= usize::MAX,
    ensures
        r == utf8_len(t@.take(j as int)),
{
    let mut acc: usize = 0;
    assert(t@.take(0) =~= Seq::<char>::empty());
    assert(utf8_len(Seq::<char>::empty()) == 0);
    for i in 0..j
        invariant
            j <= t@.len(),
            utf8_len(t@) <= usize::MAX,
            acc == utf8_len(t@.take(i as int)),
    {
        assert(t@.take(i + 1) =~= t@.take(i as int).push(t@[i as int]));
        proof {
            lemma_utf8_push(t@.take(i as int), t@[i as int]);
            lemma_offset_bound(t@, i + 1);
        }
        acc = acc + width_of(t[i]);
    }
    acc
}

/// A text with a cursor, a byte offset into its UTF-8 encoding.
#[derive(Debug, Clone, Default)]
pub struct TextBuffer {
    /// The text.
    pub text: String,
    /// Cursor position in bytes, on a character boundary.
    pub cursor: usize,
}

impl TextBuffer {
    /// Whether the cursor lies on a character boundary of the text.
    pub open spec fn wf(&self) -> bool {
        is_offset(self.text@, self.cursor as int)
    }

    /// The number of characters before the cursor.
    pub open spec fn index(&self) -> int {
        index_at(self.text@, self.cursor as int)
    }

    /// The characters of the text and its byte length.
    fn chars_and_len(&self) -> (r: (Vec<char>, usize))
        ensures
            r.0@ == self.text@,
            r.1 == utf8_len(self.text@),
    {
        let n = self.text.as_str().as_bytes().len();
        (chars_of(self.text.as_str()), n)
    }

    /// An empty buffer.
    pub fn new() -> (r: Self)
        ensures
            r.text@ == Seq::<char>::empty(),
            r.cursor == 0,
            r.wf(),
    {
        let r = TextBuffer { text: String::new(), cursor: 0 };
        proof {
            lemma_index_at(r.text@, 0);
            assert(r.text@.take(0) =~= Seq::<char>::empty());
        }
        r
    }

    /// A buffer holding `text`, with the cursor at its end.
    pub fn with_text(text: &str) -> (r: Self)
        ensures
            r.text@ == text@,
            r.cursor == utf8_len(text@),
            r.wf(),
            r.index() == text@.len(),
    {
        let n = text.as_bytes().len();
        let r = TextBuffer { text: text.to_owned(), cursor: n };
        proof {
            assert(r.text@.take(text@.len() as int) =~= r.text@);
            lemma_index_at(r.text@, text@.len() as int);
        }
        r
    }

    /// The text.
    pub fn text(&self) -> (r: &str)
        ensures
            r@ == self.text@,
    {
        self.text.as_str()
    }

    /// Whether the text is empty.
    pub fn is_empty(&self) -> (r: bool)
        ensures
            r == (self.text@.len() == 0),
    {
        self.text.as_str().is_empty()
    }

    /// Replaces the text, with the cursor at its end.
    pub fn set_text(&mut self, text: &str)
        ensures
            final(self).text@ == text@,
            final(self).cursor == utf8_len(text@),
            final(self).wf(),
            final(self).index() == text@.len(),
    {
        *self = Self::with_text(text);
    }

    /// Empties the text.
    pub fn clear(&mut self)
        ensures
            final(self).text@ == Seq::<char>::empty(),
            final(self).cursor == 0,
            final(self).wf(),
    {
        *self = Self::new();
    }

    /// Replaces the characters from `from` up to `to` by `s`.
    fn splice(&mut self, from: usize, to: usize, s: &Vec<char>)
        requires
            from <= to <= old(self).text@.len(),
        ensures
            final(self).text@ == spliced(old(self).text@, from as int, to as int, s@),
            final(self).cursor == old(self).cursor,
    {
        let t = chars_of(self.text.as_str());
        let mut out: Vec<char> = Vec::new();
        for i in 0..from
            invariant
                from <= to <= t@.len(),
                out@ == t@.take(i as int),
        {
            out.push(t[i]);
            assert(out@ =~= t@.take(i + 1));
        }
        for i in 0..s.len()
            invariant
                from <= to <= t@.len(),
                out@ == t@.take(from as int) + s@.take(i as int),
        {
            out.push(s[i]);
            assert(out@ =~= t@.take(from as int) + s@.take(i + 1));
        }
        assert(s@.take(s@.len() as int) =~= s@);
        let n = t.len();
        for i in to..n
            invariant
                n == t@.len(),
                from <= to <= t@.len(),
                out@ == t@.take(from as int) + s@ + t@.subrange(to as int, i as int),
        {
            out.push(t[i]);
            assert(out@ =~= t@.take(from as int) + s@ + t@.subrange(to as int, i + 1));
        }
        assert(t@.subrange(to as int, n as int) =~= t@.skip(to as int));
        self.text = string_of(&out);
    }

    /// Inserts a text at the cursor and moves the cursor past it.
    pub fn insert_str(&mut self, s: &str)
        requires
            old(self).wf(),
            utf8_len(old(self).text@) + utf8_len(s@) <= usize::MAX,
        ensures
            final(self).text@ == spliced(old(self).text@, old(self).index(), old(self).index(), s@),
            final(self).cursor == old(self).cursor + utf8_len(s@),
            final(self).wf(),
            final(self).index() == old(self).index() + s@.len(),
    {
        let (t, _) = self.chars_and_len();
        let k = char_index(&t, self.cursor);
        let v = chars_of(s);
        let w = s.as_bytes().len();
        proof {
            lemma_offset_bound(t@, k as int);
        }
        self.splice(k, k, &v);
        self.cursor = self.cursor + w;
        proof {
            let n = self.text@;
            assert(n.take(k + s@.len()) =~= t@.take(k as int) + s@);
            lemma_utf8_concat(t@.take(k as int), s@);
            lemma_index_at(n, k + s@.len());
        }
    }

    /// Inserts a character at the cursor and moves the cursor past it.
    pub fn insert_char(&mut self, c: char)
        requires
            old(self).wf(),
            utf8_len(old(self).text@) + utf8_len(seq![c]) <= usize::MAX,
        ensures
            final(self).text@ == spliced(old(self).text@, old(self).index(), old(self).index(), seq![c]),
            final(self).cursor == old(self).cursor + utf8_len(seq![c]),
            final(self).wf(),
            final(self).index() == old(self).index() + 1,
    {
        let (t, _) = self.chars_and_len();
        let k = char_index(&t, self.cursor);
        let mut v: Vec<char> = Vec::new();
        v.push(c);
        assert(v@ =~= seq![c]);
        proof {
            lemma_offset_bound(t@, k as int);
            crate::text::lemma_width(c);
        }
        self.splice(k, k, &v);
        self.cursor = self.cursor + width_of(c);
        proof {
            let n = self.text@;
            assert(n.take(k + 1) =~= t@.take(k as int) + seq![c]);
            lemma_utf8_concat(t@.take(k as int), seq![c]);
            lemma_index_at(n, k + 1);
        }
    }

    /// Deletes the character before the cursor; false where there is none.
    pub fn backspace(&mut self) -> (r: bool)
        requires
            old(self).wf(),
        ensures
            r == (old(self).cursor > 0),
            r ==> final(self).text@ == spliced(old(self).text@, old(self).index() - 1, old(self).index(), Seq::empty()),
            r ==> final(self).cursor == utf8_len(old(self).text@.take(old(self).index() - 1)),
            r ==> final(self).index() == old(self).index() - 1,
            !r ==> *final(self) == *old(self),
            final(self).wf(),
    {
        let (t, _) = self.chars_and_len();
        let k = char_index(&t, self.cursor);
        if self.cursor > 0 {
            assert(k > 0) by {
                if k == 0 {
                    assert(t@.take(0) =~= Seq::<char>::empty());
                    assert(utf8_len(Seq::<char>::empty()) == 0);
                }
            }
            let w = width_of(t[k - 1]);
            proof {
                assert(t@.take(k as int) =~= t@.take(k - 1).push(t@[k - 1]));
                lemma_utf8_push(t@.take(k - 1), t@[k - 1]);
            }
            let v: Vec<char> = Vec::new();
            self.splice(k - 1, k, &v);
            self.cursor = self.cursor - w;
            proof {
                let n = self.text@;
                assert(n.take(k - 1) =~= t@.take(k - 1));
                lemma_index_at(n, k - 1);
            }
            true
        } else {
            false
        }
    }

    /// Deletes the character after the cursor; false where there is none.
    pub fn delete(&mut self) -> (r: bool)
        requires
            old(self).wf(),
        ensures
            r == (old(self).cursor < utf8_len(old(self).text@)),
            r ==> final(self).text@ == spliced(old(self).text@, old(self).index(), old(self).index() + 1, Seq::empty()),
            final(self).cursor == old(self).cursor,
            final(self).index() == old(self).index(),
            !r ==> *final(self) == *old(self),
            final(self).wf(),
    {
        let (t, n) = self.chars_and_len();
        let k = char_index(&t, self.cursor);
        proof {
            if k < t@.len() {
                lemma_prefix_grows(t@, k as int, t@.len() as int);
            }
            assert(t@.take(t@.len() as int) =~= t@);
        }
        let tl = t.len();
        if self.cursor < n {
            let v: Vec<char> = Vec::new();
            assert(k < tl);
            self.splice(k, k + 1, &v);
            proof {
                let m = self.text@;
                assert(m.take(k as int) =~= t@.take(k as int));
                lemma_index_at(m, k as int);
            }
            true
        } else {
            false
        }
    }

    /// Moves the cursor one character to the left, unless it is at the start.
    pub fn move_left(&mut self)
        requires
            old(self).wf(),
        ensures
            final(self).text == old(self).text,
            final(self).cursor == if old(self).cursor > 0 {
                utf8_len(old(self).text@.take(old(self).index() - 1))
            } else {
                old(self).cursor as nat
            },
            final(self).index() == if old(self).cursor > 0 {
                old(self).index() - 1
            } else {
                old(self).index()
            },
            final(self).wf(),
    {
        let (t, _) = self.chars_and_len();
        let k = char_index(&t, self.cursor);
        if self.cursor > 0 {
            assert(k > 0) by {
                if k == 0 {
                    assert(t@.take(0) =~= Seq::<char>::empty());
                    assert(utf8_len(Seq::<char>::empty()) == 0);
                }
            }
            proof {
                assert(t@.take(k as int) =~= t@.take(k - 1).push(t@[k - 1]));
                lemma_utf8_push(t@.take(k - 1), t@[k - 1]);
                lemma_index_at(t@, k - 1);
            }
            self.cursor = self.cursor - width_of(t[k - 1]);
        }
    }

    /// Moves the cursor one character to the right, unless it is at the end.
    pub fn move_right(&mut self)
        requires
            old(self).wf(),
        ensures
            final(self).text == old(self).text,
            final(self).cursor == if old(self).cursor < utf8_len(old(self).text@) {
                utf8_len(old(self).text@.take(old(self).index() + 1))
            } else {
                old(self).cursor as nat
            },
            final(self).index() == if old(self).cursor < utf8_len(old(self).text@) {
                old(self).index() + 1
            } else {
                old(self).index()
            },
            final(self).wf(),
    {
        let (t, n) = self.chars_and_len();
        let k = char_index(&t, self.cursor);
        proof {
            if k < t@.len() {
                lemma_prefix_grows(t@, k as int, t@.len() as int);
            }
            assert(t@.take(t@.len() as int) =~= t@);
        }
        if self.cursor < n {
            proof {
                assert(t@.take(k + 1) =~= t@.take(k as int).push(t@[k as int]));
                lemma_utf8_push(t@.take(k as int), t@[k as int]);
                lemma_offset_bound(t@, k + 1);
                lemma_index_at(t@, k + 1);
            }
            self.cursor = self.cursor + width_of(t[k]);
        }
    }

    /// Moves the cursor to the start.
    pub fn move_to_start(&mut self)
        ensures
            final(self).text == old(self).text,
            final(self).cursor == 0,
            final(self).index() == 0,
            final(self).wf(),
    {
        self.cursor = 0;
        proof {
            assert(self.text@.take(0) =~= Seq::<char>::empty());
            assert(utf8_len(Seq::<char>::empty()) == 0);
            lemma_index_at(self.text@, 0);
        }
    }

    /// Moves the cursor to the end.
    pub fn move_to_end(&mut self)
        ensures
            final(self).text == old(self).text,
            final(self).cursor == utf8_len(old(self).text@),
            final(self).index() == old(self).text@.len(),
            final(self).wf(),
    {
        self.cursor = self.text.as_str().as_bytes().len();
        proof {
            assert(self.text@.take(self.text@.len() as int) =~= self.text@);
            lemma_index_at(self.text@, self.text@.len() as int);
        }
    }
}

/// How a key was handled.
#[derive(Debug, Clone, Copy, PartialEq, Eq, Structural)]
pub enum KeyInputResult {
    /// The key was consumed and the text changed.
    TextChanged,
    /// The key was consumed; the text did not change.
    Consumed,
    /// The key submits the text.
    Submit,
    /// The key cancels the edit.
    Cancel,
    /// The key was not handled.
    Ignored,
}

/// Whether `c` is a printable ASCII character other than space.
pub open spec fn is_ascii_graphic(c: char) -> bool {
    '!' <= c <= '~'
}

/// `c` in upper case, where it is an ASCII lower-case letter.
pub open spec fn ascii_upper(c: char) -> char {
    if 'a' <= c <= 'z' {
        (c as u32 - 32) as char
    } else {
        c
    }
}

fn to_ascii_upper(c: char) -> (r: char)
    ensures
        r == ascii_upper(c),
{
    if 'a' <= c && c <= 'z' {
        ((c as u8) - 32) as char
    } else {
        c
    }
}

/// Text and cursor after a backspace.
pub open spec fn after_backspace(t: Seq<char>, c: int) -> (Seq<char>, int) {
    if c > 0 {
        (spliced(t, c - 1, c, Seq::empty()), c - 1)
    } else {
        (t, c)
    }
}

/// Text and cursor after a deletion of the character at the cursor.
pub open spec fn after_delete(t: Seq<char>, c: int) -> (Seq<char>, int) {
    if c < t.len() {
        (spliced(t, c, c + 1, Seq::empty()), c)
    } else {
        (t, c)
    }
}

/// Text and cursor after a backward word deletion.
pub open spec fn after_word_delete(t: Seq<char>, c: int) -> (Seq<char>, int) {
    (spliced(t, word_start(t, c), c, Seq::empty()), word_start(t, c))
}

/// Text and cursor after typing `ch`.
pub open spec fn after_insert(t: Seq<char>, c: int, ch: char) -> (Seq<char>, int) {
    (spliced(t, c, c, seq![ch]), c + 1)
}

/// Text, cursor and outcome after the key named `key`; `word` is whether a modifier
/// that turns backspace into a word deletion is held.
pub open spec fn key_model(t: Seq<char>, c: int, key: Seq<char>, shift: bool, word: bool) -> (
    Seq<char>,
    int,
    KeyInputResult,
) {
    if key == "backspace"@ {
        let e = if word {
            after_word_delete(t, c)
        } else {
            after_backspace(t, c)
        };
        (e.0, e.1, KeyInputResult::TextChanged)
    } else if key == "delete"@ {
        (after_delete(t, c).0, c, KeyInputResult::TextChanged)
    } else if key == "left"@ {
        (t, if c > 0 {
            c - 1
        } else {
            c
        }, KeyInputResult::Consumed)
    } else if key == "right"@ {
        (t, if c < t.len() {
            c + 1
        } else {
            c
        }, KeyInputResult::Consumed)
    } else if key == "home"@ {
        (t, 0, KeyInputResult::Consumed)
    } else if key == "end"@ {
        (t, t.len() as int, KeyInputResult::Consumed)
    } else if key == "enter"@ {
        (t, c, KeyInputResult::Submit)
    } else if key == "escape"@ {
        (t, c, KeyInputResult::Cancel)
    } else if key == "tab"@ {
        (t, c, KeyInputResult::Ignored)
    } else if key == "space"@ {
        (after_insert(t, c, ' ').0, c + 1, KeyInputResult::TextChanged)
    } else if key.len() == 1 && is_ascii_graphic(key[0]) {
        let ch = if shift {
            ascii_upper(key[0])
        } else {
            key[0]
        };
        (after_insert(t, c, ch).0, c + 1, KeyInputResult::TextChanged)
    } else {
        (t, c, KeyInputResult::Ignored)
    }
}

impl TextBuffer {
    /// The character before the cursor, if any.
    fn char_before_cursor(&self, t: &Vec<char>, at: usize) -> (r: Option<char>)
        requires
            t@ == self.text@,
            at <= t@.len(),
        ensures
            r == if at > 0 {
                Some(t@[at - 1])
            } else {
                None::<char>
            },
    {
        if at == 0 {
            None
        } else {
            Some(t[at - 1])
        }
    }

    /// Deletes the white space before the cursor and the word in front of it.
    pub fn delete_word_backward(&mut self)
        requires
            old(self).wf(),
        ensures
            final(self).text@ == after_word_delete(old(self).text@, old(self).index()).0,
            final(self).cursor == utf8_len(old(self).text@.take(word_start(old(self).text@, old(self).index()))),
            final(self).index() == word_start(old(self).text@, old(self).index()),
            final(self).wf(),
    {
        let (t, n) = self.chars_and_len();
        let k = char_index(&t, self.cursor);
        let mut j = k;
        loop
            invariant
                t@ == self.text@,
                j <= k <= t@.len(),
                skip_space_back(t@, j as int) == skip_space_back(t@, k as int),
            ensures
                t@ == self.text@,
                j <= k <= t@.len(),
                j as int == skip_space_back(t@, k as int),
            decreases j,
        {
            match self.char_before_cursor(&t, j) {
                Some(c) => {
                    if is_whitespace(c) {
                        j = j - 1;
                    } else {
                        break;
                    }
                },
                None => break,
            }
        }
        let ghost s = j;
        loop
            invariant
                t@ == self.text@,
                j <= s <= k <= t@.len(),
                s == skip_space_back(t@, k as int),
                skip_word_back(t@, j as int) == skip_word_back(t@, s as int),
            ensures
                t@ == self.text@,
                j <= k <= t@.len(),
                j as int == word_start(t@, k as int),
            decreases j,
        {
            match self.char_before_cursor(&t, j) {
                Some(c) => {
                    if !is_whitespace(c) {
                        j = j - 1;
                    } else {
                        break;
                    }
                },
                None => break,
            }
        }
        let b = prefix_bytes(&t, j);
        let v: Vec<char> = Vec::new();
        self.splice(j, k, &v);
        self.cursor = b;
        proof {
            let m = self.text@;
            assert(m.take(j as int) =~= t@.take(j as int));
            lemma_index_at(m, j as int);
        }
    }

    /// Handles the key named `key` (a character, or a name such as "backspace",
    /// "left" or "enter") and says how it was handled. With `ctrl` or `cmd` held,
    /// backspace deletes a word; with `shift` held, a letter is typed in upper case.
    pub fn process_key(&mut self, key: &str, shift: bool, ctrl: bool, cmd: bool) -> (r:
        KeyInputResult)
        requires
            old(self).wf(),
            utf8_len(old(self).text@) + 4 <= usize::MAX,
        ensures
            ({
                let m = key_model(old(self).text@, old(self).index(), key@, shift, ctrl || cmd);
                &&& final(self).text@ == m.0
                &&& final(self).index() == m.1
                &&& final(self).cursor == utf8_len(m.0.take(m.1))
                &&& r == m.2
            }),
            final(self).wf(),
    {
        proof {
            crate::text::lemma_width(' ');
            lemma_cursor_offset(*self);
        }
        let r = if same_text(key, "backspace") {
            if ctrl || cmd {
                self.delete_word_backward();
            } else {
                self.backspace();
            }
            KeyInputResult::TextChanged
        } else if same_text(key, "delete") {
            self.delete();
            KeyInputResult::TextChanged
        } else if same_text(key, "left") {
            self.move_left();
            KeyInputResult::Consumed
        } else if same_text(key, "right") {
            self.move_right();
            KeyInputResult::Consumed
        } else if same_text(key, "home") {
            self.move_to_start();
            KeyInputResult::Consumed
        } else if same_text(key, "end") {
            self.move_to_end();
            KeyInputResult::Consumed
        } else if same_text(key, "enter") {
            KeyInputResult::Submit
        } else if same_text(key, "escape") {
            KeyInputResult::Cancel
        } else if same_text(key, "tab") {
            KeyInputResult::Ignored
        } else if same_text(key, "space") {
            self.insert_char(' ');
            KeyInputResult::TextChanged
        } else {
            let k = chars_of(key);
            if k.len() == 1 && '!' <= k[0] && k[0] <= '~' {
                let c = if shift {
                    to_ascii_upper(k[0])
                } else {
                    k[0]
                };
                proof {
                    crate::text::lemma_width(c);
                }
                self.insert_char(c);
                KeyInputResult::TextChanged
            } else {
                KeyInputResult::Ignored
            }
        };
        proof {
            lemma_cursor_offset(*self);
        }
        r
    }
}

} // verus!
