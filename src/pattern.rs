//! Substring search that respects canonical equivalence. The needle is
//! compiled into a byte-level regular expression with alternatives for the
//! two byte forms of a surrogate at either end.
use vstd::prelude::*;
use crate::cmp::canonical_triple;
use crate::encoding::is_cont;
use crate::string::OmgWtf8;

verus! {

#[verifier::external_type_specification]
#[verifier::external_body]
pub struct ExRegex(regex::bytes::Regex);

#[verifier::external_type_specification]
#[verifier::external_body]
pub struct ExRegexError(regex::Error);

/// Relies on `String::push`: the character is appended at the end.
pub assume_specification[ String::push ](s: &mut String, ch: char)
    ensures
        final(s)@ == old(s)@.push(ch),
;

/// Whether the regex engine, with Unicode mode off, accepts a pattern.
pub uninterp spec fn byte_regex_compiles(pattern: Seq<char>) -> bool;

/// The byte range of the leftmost-first match of a pattern (Unicode mode
/// off) in a haystack, if there is one.
pub uninterp spec fn byte_regex_find(pattern: Seq<char>, haystack: Seq<u8>) -> Option<(int, int)>;

/// Relies on `regex::bytes::RegexBuilder` with Unicode mode off, which
/// compiles a pattern that matches raw bytes, or reports why it cannot.
#[verifier::external_body]
fn compile_byte_regex(pattern: &str) -> (r: Result<regex::bytes::Regex, regex::Error>)
    ensures
        r is Ok == byte_regex_compiles(pattern@),
{
    regex::bytes::RegexBuilder::new(pattern).unicode(false).build()
}

/// Relies on `regex::bytes::RegexBuilder` with Unicode mode off and on
/// `Regex::find`: the leftmost-first match of the pattern, a byte range
/// `start <= end` within the haystack.
#[verifier::external_body]
fn byte_regex_search(pattern: &str, haystack: &[u8]) -> (r: Result<
    Option<(usize, usize)>,
    regex::Error,
>)
    ensures
        r is Ok == byte_regex_compiles(pattern@),
        r matches Ok(Some((s, e))) ==> s <= e <= haystack@.len() && byte_regex_find(
            pattern@,
            haystack@,
        ) == Some((s as int, e as int)),
        r matches Ok(None) ==> byte_regex_find(pattern@, haystack@) is None,
{
    regex::bytes::RegexBuilder::new(pattern).unicode(false).build().map(
        |re| re.find(haystack).map(|m| (m.start(), m.end())),
    )
}

/// The searcher could not be built: the regex engine refused the pattern.
#[derive(PartialEq, Eq, Structural, Debug, Clone, Copy)]
pub enum SearchError {
    PatternRejected,
}

pub open spec fn hex_digit(d: int) -> char {
    seq!['0', '1', '2', '3', '4', '5', '6', '7', '8', '9', 'a', 'b', 'c', 'd', 'e', 'f'][d]
}

/// `\xHH`, the regex escape of one byte.
pub open spec fn byte_escape(b: int) -> Seq<char> {
    seq!['\\', 'x', hex_digit(b / 16), hex_digit(b % 16)]
}

/// The escapes of all the bytes, in order.
pub open spec fn bytes_escape(m: Seq<u8>) -> Seq<char>
    decreases m.len(),
{
    if m.len() == 0 {
        seq![]
    } else {
        bytes_escape(m.drop_last()) + byte_escape(m.last() as int)
    }
}

/// The pattern of a low-surrogate tag: the canonical `ED Bx yy` form or the
/// bare tail of a 4-byte sequence.
pub open spec fn low_tag_pattern(c: u16) -> Seq<char> {
    let nib = hex_digit(((c >> 8) & 0xf) as int);
    seq!['(', '?', ':'] + byte_escape(0xed) + byte_escape((c >> 8) as int) + seq!['|', '[']
        + byte_escape(0x80)
        + seq!['-'] + byte_escape(0xbf) + seq![']', '[', '\\', 'x', '8', nib, '\\', 'x', '9', nib]
        + seq!['\\', 'x', 'a', nib, '\\', 'x', 'b', nib, ']', ')'] + byte_escape((c & 0xff) as int)
}

/// The first two bytes of the 4-byte sequences whose high surrogate has tag
/// `c`, and the high two bits of the third byte, as a value `s`.
pub open spec fn high_tag_head(c: u16) -> u16 {
    (((c & 0x3f) | ((c >> 2) & 0x3c0)) + 0x40) as u16
}

/// The pattern of a high-surrogate tag: the canonical `ED Ax yy` form or the
/// bare head of a 4-byte sequence.
pub open spec fn high_tag_pattern(c: u16) -> Seq<char> {
    let s = high_tag_head(c);
    let third = hex_digit(((s & 3) | 8) as int);
    seq!['(', '?', ':'] + byte_escape(0xed) + byte_escape((c >> 8) as int) + byte_escape(
        (c & 0xff) as int,
    ) + seq!['|'] + byte_escape(((s >> 8) | 0xf0) as int) + byte_escape(
        (((s >> 2) & 0x3f) | 0x80) as int,
    ) + seq!['[', '\\', 'x', third, '0', '-', '\\', 'x', third, 'f', ']', ')']
}

/// The pattern of a surrogate tag.
pub open spec fn tag_pattern(c: u16) -> Seq<char> {
    if c >= 0xb000 {
        low_tag_pattern(c)
    } else {
        high_tag_pattern(c)
    }
}

/// The regular expression that a needle is searched with.
pub open spec fn needle_pattern(needle: Seq<u8>) -> Seq<char> {
    let t = canonical_triple(needle);
    (if t.0 != 0 {
        tag_pattern(t.0)
    } else {
        seq![]
    }) + bytes_escape(t.1) + (if t.2 != 0 {
        tag_pattern(t.2)
    } else {
        seq![]
    })
}

fn push_hex_digit(w: &mut String, d: u16)
    requires
        d < 16,
    ensures
        final(w)@ == old(w)@.push(hex_digit(d as int)),
{
    let digits: [char; 16] = ['0', '1', '2', '3', '4', '5', '6', '7', '8', '9', 'a', 'b', 'c', 'd', 'e', 'f'];
    assert(digits@ =~= seq!['0', '1', '2', '3', '4', '5', '6', '7', '8', '9', 'a', 'b', 'c', 'd', 'e', 'f']);
    w.push(digits[d as usize]);
}

fn push_byte_escape(w: &mut String, b: u16)
    requires
        b < 256,
    ensures
        final(w)@ == old(w)@ + byte_escape(b as int),
{
    w.push('\\');
    w.push('x');
    push_hex_digit(w, b / 16);
    push_hex_digit(w, b % 16);
    assert(final(w)@ =~= old(w)@ + byte_escape(b as int));
}

#[verifier::rlimit(40)]
fn append_low_tag_pattern(w: &mut String, c: u16)
    requires
        0xb000 <= c <= 0xbfff,
    ensures
        final(w)@ == old(w)@ + low_tag_pattern(c),
{
    let ghost start = old(w)@;
    assert((c >> 8) < 256 && (c & 0xff) < 256 && ((c >> 8) & 0xf) < 16) by (bit_vector);
    let nib = (c >> 8) & 0xf;
    w.push('(');
    w.push('?');
    w.push(':');
    push_byte_escape(w, 0xed);
    push_byte_escape(w, c >> 8);
    w.push('|');
    w.push('[');
    push_byte_escape(w, 0x80);
    w.push('-');
    push_byte_escape(w, 0xbf);
    w.push(']');
    w.push('[');
    w.push('\\');
    w.push('x');
    w.push('8');
    push_hex_digit(w, nib);
    w.push('\\');
    w.push('x');
    w.push('9');
    push_hex_digit(w, nib);
    w.push('\\');
    w.push('x');
    w.push('a');
    push_hex_digit(w, nib);
    w.push('\\');
    w.push('x');
    w.push('b');
    push_hex_digit(w, nib);
    w.push(']');
    w.push(')');
    push_byte_escape(w, c & 0xff);
    assert(w@ =~= start + low_tag_pattern(c));
}

#[verifier::rlimit(40)]
fn append_high_tag_pattern(w: &mut String, c: u16)
    requires
        0xa000 <= c <= 0xafff,
    ensures
        final(w)@ == old(w)@ + high_tag_pattern(c),
{
    let ghost start = old(w)@;
    assert((c >> 8) < 256 && (c & 0xff) < 256) by (bit_vector);
    assert(((c & 0x3f) | ((c >> 2) & 0x3c0)) <= 0x3ff) by (bit_vector);
    let s: u16 = ((c & 0x3f) | ((c >> 2) & 0x3c0)) + 0x40;
    assert(s == high_tag_head(c));
    assert(s <= 0x43f ==> ((s >> 8) | 0xf0) < 256 && (((s >> 2) & 0x3f) | 0x80) < 256 && ((s & 3)
        | 8) < 16) by (bit_vector);
    let third = (s & 3) | 8;
    w.push('(');
    w.push('?');
    w.push(':');
    push_byte_escape(w, 0xed);
    push_byte_escape(w, c >> 8);
    push_byte_escape(w, c & 0xff);
    w.push('|');
    push_byte_escape(w, (s >> 8) | 0xf0);
    push_byte_escape(w, ((s >> 2) & 0x3f) | 0x80);
    w.push('[');
    w.push('\\');
    w.push('x');
    push_hex_digit(w, third);
    w.push('0');
    w.push('-');
    w.push('\\');
    w.push('x');
    push_hex_digit(w, third);
    w.push('f');
    w.push(']');
    w.push(')');
    assert(w@ =~= start + high_tag_pattern(c));
}

/// Appends the pattern of a surrogate tag (`0xa000..=0xbfff`).
pub fn append_regex_pattern_from_surrogate(w: &mut String, c: u16)
    requires
        0xa000 <= c <= 0xbfff,
    ensures
        final(w)@ == old(w)@ + tag_pattern(c),
{
    if c >= 0xb000 {
        append_low_tag_pattern(w, c);
    } else {
        append_high_tag_pattern(w, c);
    }
}

impl OmgWtf8 {
    /// The byte-level regular expression that matches every byte form of
    /// this string.
    pub fn regex_pattern(&self) -> (r: String)
        ensures
            r@ == needle_pattern(self@),
    {
        let mut pattern = String::new();
        let (begin, middle, end) = self.canonicalize();
        if begin != 0 {
            append_regex_pattern_from_surrogate(&mut pattern, begin);
        }
        let ghost head = pattern@;
        let mut i: usize = 0;
        while i < middle.len()
            invariant
                i <= middle@.len(),
                pattern@ == head + bytes_escape(middle@.subrange(0, i as int)),
            decreases middle@.len() - i,
        {
            proof {
                let p = middle@.subrange(0, i + 1);
                assert(p.drop_last() =~= middle@.subrange(0, i as int));
                assert(p.last() == middle@[i as int]);
            }
            push_byte_escape(&mut pattern, middle[i] as u16);
            assert(pattern@ =~= head + bytes_escape(middle@.subrange(0, i + 1)));
            i = i + 1;
        }
        assert(middle@.subrange(0, i as int) =~= middle@);
        let ghost body = pattern@;
        if end != 0 {
            append_regex_pattern_from_surrogate(&mut pattern, end);
        }
        proof {
            let t = canonical_triple(self@);
            assert(head == (if t.0 != 0 { tag_pattern(t.0) } else { seq![] }));
            assert(pattern@ =~= needle_pattern(self@));
        }
        pattern
    }
}

/// A start cursor on a continuation byte marks a match that begins inside a
/// 4-byte sequence; as the end of the piece before it, it stands after the
/// sequence's third byte.
pub open spec fn start_to_end(b: Seq<u8>, c: int) -> int {
    if 0 < c && c + 2 <= b.len() && is_cont(b[c]) {
        c + 2
    } else {
        c
    }
}

/// An end cursor on a continuation byte marks a match that ends inside a
/// 4-byte sequence; as the start of what follows, it stands on the
/// sequence's second byte.
pub open spec fn end_to_start(b: Seq<u8>, c: int) -> int {
    if 2 <= c < b.len() && is_cont(b[c]) {
        c - 2
    } else {
        c
    }
}

/// The index, as slicing takes it, of a start cursor.
pub open spec fn start_offset(b: Seq<u8>, c: int) -> int {
    if 0 < c < b.len() && is_cont(b[c]) {
        c + 1
    } else {
        c
    }
}

/// The index, as slicing takes it, of an end cursor.
pub open spec fn end_offset(b: Seq<u8>, c: int) -> int {
    if 1 <= c < b.len() && is_cont(b[c]) {
        c - 1
    } else {
        c
    }
}

impl OmgWtf8 {
    /// The end cursor that corresponds to start cursor `cur`.
    pub fn start_to_end_cursor(&self, cur: usize) -> (r: usize)
        requires
            cur <= self@.len(),
        ensures
            r == start_to_end(self@, cur as int),
    {
        let s = self.as_bytes();
        if cur != 0 && cur < s.len() && s.len() - cur >= 2 && 0x80 <= s[cur] && s[cur] <= 0xbf {
            cur + 2
        } else {
            cur
        }
    }

    /// The start cursor that corresponds to end cursor `cur`.
    pub fn end_to_start_cursor(&self, cur: usize) -> (r: usize)
        requires
            cur <= self@.len(),
        ensures
            r == end_to_start(self@, cur as int),
    {
        let s = self.as_bytes();
        if cur >= 2 && cur < s.len() && 0x80 <= s[cur] && s[cur] <= 0xbf {
            cur - 2
        } else {
            cur
        }
    }

    /// The index of start cursor `cur`, as slicing takes it.
    pub fn start_cursor_to_offset(&self, cur: usize) -> (r: usize)
        requires
            cur <= self@.len(),
        ensures
            r == start_offset(self@, cur as int),
    {
        let s = self.as_bytes();
        if cur != 0 && cur < s.len() && 0x80 <= s[cur] && s[cur] <= 0xbf {
            cur + 1
        } else {
            cur
        }
    }

    /// The index of end cursor `cur`, as slicing takes it.
    pub fn end_cursor_to_offset(&self, cur: usize) -> (r: usize)
        requires
            cur <= self@.len(),
        ensures
            r == end_offset(self@, cur as int),
    {
        let s = self.as_bytes();
        if cur >= 1 && cur < s.len() && 0x80 <= s[cur] && s[cur] <= 0xbf {
            cur - 1
        } else {
            cur
        }
    }
}

/// The outcome of searching `hay` from `cursor` on with `pattern`, as
/// haystack cursors.
pub open spec fn search_from(pattern: Seq<char>, hay: Seq<u8>, cursor: int) -> Option<(int, int)> {
    match byte_regex_find(pattern, hay.subrange(cursor, hay.len() as int)) {
        Some((s, e)) => Some((cursor + s, cursor + e)),
        None => None,
    }
}

/// Finds the successive non-overlapping matches of a needle in a haystack.
/// It keeps the text of the needle's regular expression, which is compiled
/// for each search.
pub struct OmgWtf8Searcher<'h> {
    haystack: &'h OmgWtf8,
    pattern: String,
    begin: usize,
    end: usize,
    finished: bool,
}

impl<'h> OmgWtf8Searcher<'h> {
    pub closed spec fn wf(&self) -> bool {
        &&& self.begin <= self.end == self.haystack@.len()
        &&& byte_regex_compiles(self.pattern@)
    }

    /// The haystack's bytes.
    pub closed spec fn hay(&self) -> Seq<u8> {
        self.haystack@
    }

    /// The regular expression searched with.
    pub closed spec fn pattern_text(&self) -> Seq<char> {
        self.pattern@
    }

    /// Where the next search starts.
    pub closed spec fn cursor(&self) -> int {
        self.begin as int
    }

    /// No match is left.
    pub closed spec fn is_finished(&self) -> bool {
        self.finished
    }

    /// The cursor lies within the haystack.
    pub proof fn lemma_cursor_in_bounds(&self)
        requires
            self.wf(),
        ensures
            0 <= self.cursor() <= self.hay().len(),
    {
    }

    /// A searcher for `needle` in `haystack`, at the front of the haystack;
    /// an error when the regex engine refuses the needle's pattern.
    pub fn new(needle: &OmgWtf8, haystack: &'h OmgWtf8) -> (r: Result<
        OmgWtf8Searcher<'h>,
        SearchError,
    >)
        ensures
            r is Ok == byte_regex_compiles(needle_pattern(needle@)),
            r matches Ok(s) ==> s.wf() && s.hay() == haystack@ && s.pattern_text()
                == needle_pattern(needle@) && s.cursor() == 0 && !s.is_finished(),
    {
        let pattern = needle.regex_pattern();
        match compile_byte_regex(pattern.as_str()) {
            Ok(_) => Ok(
                OmgWtf8Searcher { haystack, pattern, begin: 0, end: haystack.len(), finished: false },
            ),
            Err(_) => Err(SearchError::PatternRejected),
        }
    }

    /// The haystack.
    pub fn haystack(&self) -> (r: &'h OmgWtf8)
        ensures
            r@ == self.hay(),
    {
        self.haystack
    }

    /// Takes the outcome of one search of the bytes from the cursor to the
    /// end (`found` is relative to the cursor): a match is returned as
    /// haystack cursors and the cursor moves past it; no match finishes the
    /// searcher.
    pub fn record_match(&mut self, found: Option<(usize, usize)>) -> (r: Option<(usize, usize)>)
        requires
            old(self).wf(),
            !old(self).is_finished(),
            found matches Some((s, e)) ==> s <= e <= old(self).hay().len() - old(self).cursor(),
        ensures
            final(self).wf(),
            final(self).hay() == old(self).hay(),
            final(self).pattern_text() == old(self).pattern_text(),
            found is None ==> r is None && final(self).is_finished() && final(self).cursor()
                == old(self).cursor(),
            found matches Some((s, e)) ==> r == Some(
                ((old(self).cursor() + s) as usize, (old(self).cursor() + e) as usize),
            ) && !final(self).is_finished() && final(self).cursor() == end_to_start(
                old(self).hay(),
                old(self).cursor() + e,
            ),
    {
        match found {
            None => {
                self.finished = true;
                None
            },
            Some((s, e)) => {
                let start = self.begin + s;
                let end = self.begin + e;
                self.begin = self.haystack.end_to_start_cursor(end);
                Some((start, end))
            },
        }
    }

    /// The next match, as a pair of start and end cursors (byte positions
    /// in the haystack): the first match of the pattern in the bytes from
    /// the cursor on. The cursor then moves past it.
    pub fn next_match(&mut self) -> (r: Option<(usize, usize)>)
        requires
            old(self).wf(),
        ensures
            final(self).wf(),
            final(self).hay() == old(self).hay(),
            final(self).pattern_text() == old(self).pattern_text(),
            old(self).is_finished() ==> r is None && final(self).is_finished()
                && final(self).cursor() == old(self).cursor(),
            !old(self).is_finished() ==> match search_from(
                old(self).pattern_text(),
                old(self).hay(),
                old(self).cursor(),
            ) {
                Some((s, e)) => (r matches Some((x, y)) && x == s && y == e) && old(self).cursor() <= s <= e
                    <= old(self).hay().len() && !final(self).is_finished() && final(self).cursor()
                    == end_to_start(old(self).hay(), e),
                None => r is None && final(self).is_finished() && final(self).cursor() == old(
                    self,
                ).cursor(),
            },
    {
        if self.finished {
            return None;
        }
        let window = vstd::slice::slice_subrange(self.haystack.as_bytes(), self.begin, self.end);
        match byte_regex_search(self.pattern.as_str(), window) {
            Ok(found) => self.record_match(found),
            Err(_) => {
                self.finished = true;
                None
            },
        }
    }
}

} // verus!
