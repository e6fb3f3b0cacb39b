//! Searching a string for a needle: `contains`, `find` and `split`.
use vstd::prelude::*;
use crate::pattern::{
    byte_regex_compiles, byte_regex_find, end_to_start, needle_pattern, search_from, start_offset,
    start_to_end, OmgWtf8Searcher, SearchError,
};
use crate::string::OmgWtf8;

verus! {

/// The pieces of a haystack between the matches of a needle. Consecutive
/// matches give empty pieces; the last piece is empty when the haystack ends
/// with a match.
pub struct Split<'h> {
    start: usize,
    end: usize,
    matcher: OmgWtf8Searcher<'h>,
    allow_trailing_empty: bool,
    finished: bool,
}

impl<'h> Split<'h> {
    /// The fields agree with the searcher, which may already be one match
    /// ahead.
    pub closed spec fn fields_wf(&self) -> bool {
        &&& self.matcher.wf()
        &&& self.start <= self.end == self.matcher.hay().len()
        &&& self.allow_trailing_empty
    }

    pub closed spec fn wf(&self) -> bool {
        &&& self.fields_wf()
        &&& self.start == self.matcher.cursor()
        &&& !self.finished ==> !self.matcher.is_finished()
    }

    /// The searcher has no match left.
    pub closed spec fn search_finished(&self) -> bool {
        self.matcher.is_finished()
    }

    /// The haystack's bytes.
    pub closed spec fn hay(&self) -> Seq<u8> {
        self.matcher.hay()
    }

    /// Where the next piece begins.
    pub closed spec fn position(&self) -> int {
        self.start as int
    }

    /// The regular expression searched with.
    pub closed spec fn pattern_text(&self) -> Seq<char> {
        self.matcher.pattern_text()
    }

    /// Where the searcher's next search starts.
    pub closed spec fn search_cursor(&self) -> int {
        self.matcher.cursor()
    }

    /// Every piece has been given.
    pub closed spec fn is_finished(&self) -> bool {
        self.finished
    }

    /// The bytes of the haystack from `start` to `end`.
    fn piece(&self, start: usize, end: usize) -> (r: OmgWtf8)
        requires
            start <= end <= self.hay().len(),
        ensures
            r@ == self.hay().subrange(start as int, end as int),
    {
        let hs = self.matcher.haystack().as_bytes();
        OmgWtf8::from_vec(
            vstd::slice::slice_to_vec(vstd::slice::slice_subrange(hs, start, end)),
        )
    }

    /// The last piece: from the current position to the end.
    fn get_end(&mut self) -> (r: Option<OmgWtf8>)
        requires
            old(self).fields_wf(),
            old(self).search_cursor() == old(self).position(),
        ensures
            final(self).wf(),
            final(self).hay() == old(self).hay(),
            final(self).is_finished(),
            final(self).position() == old(self).position(),
            final(self).pattern_text() == old(self).pattern_text(),
            old(self).is_finished() ==> r is None,
            !old(self).is_finished() ==> (r matches Some(p) && p@ == old(self).hay().subrange(
                old(self).position(),
                old(self).hay().len() as int,
            )),
    {
        if !self.finished && (self.allow_trailing_empty || self.start < self.end) {
            self.finished = true;
            Some(self.piece(self.start, self.end))
        } else {
            self.finished = true;
            None
        }
    }

    /// Takes the outcome of the searcher's next search: a match `(a, b)`
    /// gives the piece up to it, and the next piece begins after it; no
    /// match gives the last piece.
    pub fn take_match(&mut self, found: Option<(usize, usize)>) -> (r: Option<OmgWtf8>)
        requires
            old(self).fields_wf(),
            !old(self).is_finished(),
            found matches Some((a, b)) ==> old(self).position() <= a <= b <= old(self).hay().len()
                && old(self).search_cursor() == end_to_start(old(self).hay(), b as int),
            found is None ==> old(self).search_cursor() == old(self).position(),
            found is Some ==> !old(self).search_finished(),
        ensures
            final(self).wf(),
            final(self).hay() == old(self).hay(),
            final(self).pattern_text() == old(self).pattern_text(),
            found matches Some((a, b)) ==> (r matches Some(p) && p@ == old(self).hay().subrange(
                old(self).position(),
                start_to_end(old(self).hay(), a as int),
            ) && final(self).position() == end_to_start(old(self).hay(), b as int)
                && !final(self).is_finished()),
            found is None ==> (r matches Some(p) && p@ == old(self).hay().subrange(
                old(self).position(),
                old(self).hay().len() as int,
            ) && final(self).is_finished()),
    {
        match found {
            Some((a, b)) => {
                let haystack = self.matcher.haystack();
                let a2 = haystack.start_to_end_cursor(a);
                let b2 = haystack.end_to_start_cursor(b);
                let elt = self.piece(self.start, a2);
                self.start = b2;
                Some(elt)
            },
            None => self.get_end(),
        }
    }

    /// The next piece, or `None` once the last has been given: the bytes
    /// from the current position up to the next match of the pattern (to
    /// the end when there is none, which finishes the split).
    pub fn next(&mut self) -> (r: Option<OmgWtf8>)
        requires
            old(self).wf(),
        ensures
            final(self).wf(),
            final(self).hay() == old(self).hay(),
            final(self).pattern_text() == old(self).pattern_text(),
            old(self).is_finished() ==> r is None,
            !old(self).is_finished() ==> match search_from(
                old(self).pattern_text(),
                old(self).hay(),
                old(self).position(),
            ) {
                Some((a, b)) => r matches Some(p) && p@ == old(self).hay().subrange(
                    old(self).position(),
                    start_to_end(old(self).hay(), a),
                ) && final(self).position() == end_to_start(old(self).hay(), b)
                    && !final(self).is_finished(),
                None => r matches Some(p) && p@ == old(self).hay().subrange(
                    old(self).position(),
                    old(self).hay().len() as int,
                ) && final(self).is_finished(),
            },
    {
        if self.finished {
            return None;
        }
        let ghost sf = search_from(self.pattern_text(), self.hay(), self.position());
        let found = self.matcher.next_match();
        proof {
            self.matcher.lemma_cursor_in_bounds();
            match sf {
                Some((a, b)) => {
                    assert(found matches Some((x, y)) && x == a && y == b);
                },
                None => {
                    assert(found is None);
                },
            }
        }
        self.take_match(found)
    }
}

impl OmgWtf8 {
    /// Whether `pat` occurs in this string: whether the pattern of `pat`
    /// matches anywhere; an error when the regex engine refuses it.
    pub fn contains(&self, pat: &OmgWtf8) -> (r: Result<bool, SearchError>)
        ensures
            r is Ok == byte_regex_compiles(needle_pattern(pat@)),
            r matches Ok(b) ==> b == byte_regex_find(needle_pattern(pat@), self@) is Some,
    {
        let mut searcher = OmgWtf8Searcher::new(pat, self)?;
        assert(self@.subrange(0, self@.len() as int) =~= self@);
        Ok(searcher.next_match().is_some())
    }

    /// The index, as slicing takes it, where the first match of `pat`
    /// begins; an error when the regex engine refuses its pattern.
    pub fn find(&self, pat: &OmgWtf8) -> (r: Result<Option<usize>, SearchError>)
        ensures
            r is Ok == byte_regex_compiles(needle_pattern(pat@)),
            r matches Ok(o) ==> match byte_regex_find(needle_pattern(pat@), self@) {
                Some((s, _)) => 0 <= s <= self@.len() && (o matches Some(i) && i == start_offset(
                    self@,
                    s,
                )),
                None => o is None,
            },
    {
        let mut searcher = OmgWtf8Searcher::new(pat, self)?;
        assert(self@.subrange(0, self@.len() as int) =~= self@);
        let ghost sf = search_from(needle_pattern(pat@), self@, 0);
        assert(sf == byte_regex_find(needle_pattern(pat@), self@));
        let found = searcher.next_match();
        match found {
            Some((cursor, end_cursor)) => {
                assert(sf == Some((cursor as int, end_cursor as int)));
                Ok(Some(self.start_cursor_to_offset(cursor)))
            },
            None => Ok(None),
        }
    }

    /// The pieces of this string between the matches of `pat`; an error
    /// when the regex engine refuses its pattern.
    pub fn split<'h>(&'h self, pat: &OmgWtf8) -> (r: Result<Split<'h>, SearchError>)
        ensures
            r is Ok == byte_regex_compiles(needle_pattern(pat@)),
            r matches Ok(s) ==> s.wf() && s.hay() == self@ && s.pattern_text() == needle_pattern(
                pat@,
            ) && s.position() == 0 && !s.is_finished(),
    {
        let start: usize = 0;
        let end = self.len();
        let matcher = OmgWtf8Searcher::new(pat, self)?;
        Ok(Split { start, end, matcher, allow_trailing_empty: true, finished: false })
    }
}

} // verus!
