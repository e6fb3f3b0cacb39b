//! Searching a slice for single elements.
use vstd::prelude::*;
use vstd::std_specs::cmp::PartialEqSpec;

verus! {

/// `h[k]` equals the element that is searched for.
pub open spec fn is_elem<T: PartialEq>(h: Seq<T>, k: int, e: T) -> bool {
    h[k].eq_spec(&e)
}

/// No element of `h` in `from..to` equals `e`.
pub open spec fn none_between<T: PartialEq>(h: Seq<T>, from: int, to: int, e: T) -> bool {
    forall|k: int| from <= k < to ==> !#[trigger] is_elem(h, k, e)
}

/// Finds the successive occurrences of one element in a slice.
pub struct SliceElemSearcher<'p, 'h, T> {
    haystack: &'h [T],
    elem: &'p T,
    begin: usize,
    end: usize,
}

impl<'p, 'h, T: PartialEq> SliceElemSearcher<'p, 'h, T> {
    pub closed spec fn wf(&self) -> bool {
        self.begin <= self.end == self.haystack@.len()
    }

    /// The haystack's elements.
    pub closed spec fn hay(&self) -> Seq<T> {
        self.haystack@
    }

    /// The element searched for.
    pub closed spec fn needle(&self) -> T {
        *self.elem
    }

    /// Where the next search starts.
    pub closed spec fn cursor(&self) -> int {
        self.begin as int
    }

    /// A searcher for `elem` in `haystack`, at its front.
    pub fn new(elem: &'p T, haystack: &'h [T]) -> (r: Self)
        ensures
            r.wf(),
            r.hay() == haystack@,
            r.needle() == *elem,
            r.cursor() == 0,
    {
        SliceElemSearcher { haystack, elem, begin: 0, end: haystack.len() }
    }

    /// The haystack.
    pub fn haystack(&self) -> (r: &'h [T])
        ensures
            r@ == self.hay(),
    {
        self.haystack
    }

    /// The next occurrence, as the range `(k, k + 1)` of its index.
    pub fn next_match(&mut self) -> (r: Option<(usize, usize)>)
        requires
            old(self).wf(),
        ensures
            final(self).wf(),
            final(self).hay() == old(self).hay(),
            final(self).needle() == old(self).needle(),
            r is None ==> final(self).cursor() == old(self).hay().len(),
            r matches Some((s, e)) ==> old(self).cursor() <= s < old(self).hay().len() && e == s
                + 1 && final(self).cursor() == e,
            T::obeys_eq_spec() ==> (r is None ==> none_between(
                old(self).hay(),
                old(self).cursor(),
                old(self).hay().len() as int,
                old(self).needle(),
            )),
            T::obeys_eq_spec() ==> (r matches Some((s, e)) ==> is_elem(
                old(self).hay(),
                s as int,
                old(self).needle(),
            ) && none_between(old(self).hay(), old(self).cursor(), s as int, old(self).needle())),
    {
        let ghost start = self.begin;
        while self.begin != self.end
            invariant
                self.wf(),
                self.hay() == old(self).hay(),
                self.needle() == old(self).needle(),
                start == old(self).cursor() <= self.begin,
                T::obeys_eq_spec() ==> none_between(
                    self.hay(),
                    start as int,
                    self.begin as int,
                    self.needle(),
                ),
            decreases self.end - self.begin,
        {
            let cur = self.begin;
            self.begin = cur + 1;
            if self.haystack[cur] == *self.elem {
                return Some((cur, self.begin));
            }
        }
        None
    }
}

/// Whether `elem` occurs in `haystack`.
pub fn slice_contains<T: PartialEq>(haystack: &[T], elem: &T) -> (r: bool)
    ensures
        T::obeys_eq_spec() ==> r == !none_between(haystack@, 0, haystack@.len() as int, *elem),
{
    let mut searcher = SliceElemSearcher::new(elem, haystack);
    searcher.next_match().is_some()
}

/// The index of the first occurrence of `elem` in `haystack`.
pub fn slice_find<T: PartialEq>(haystack: &[T], elem: &T) -> (r: Option<usize>)
    ensures
        T::obeys_eq_spec() ==> match r {
            None => none_between(haystack@, 0, haystack@.len() as int, *elem),
            Some(i) => i < haystack@.len() && is_elem(haystack@, i as int, *elem) && none_between(
                haystack@,
                0,
                i as int,
                *elem,
            ),
        },
{
    let mut searcher = SliceElemSearcher::new(elem, haystack);
    match searcher.next_match() {
        Some((s, _)) => Some(s),
        None => None,
    }
}

/// The pieces of `h` between the occurrences of `e`, for the piece that
/// began at `i` and a scan that has reached `j`: consecutive occurrences
/// give empty pieces, and an occurrence at the end an empty last piece.
pub open spec fn pieces<T: PartialEq>(h: Seq<T>, e: T, i: int, j: int) -> Seq<Seq<T>>
    decreases h.len() - j,
{
    if j >= h.len() {
        seq![h.subrange(i, h.len() as int)]
    } else if is_elem(h, j, e) {
        seq![h.subrange(i, j)] + pieces(h, e, j + 1, j + 1)
    } else {
        pieces(h, e, i, j + 1)
    }
}

proof fn lemma_pieces_skip<T: PartialEq>(h: Seq<T>, e: T, i: int, j: int, s: int)
    requires
        j <= s <= h.len(),
        none_between(h, j, s, e),
    ensures
        pieces(h, e, i, j) == pieces(h, e, i, s),
    decreases s - j,
{
    if j < s {
        assert(!is_elem(h, j, e));
        lemma_pieces_skip(h, e, i, j + 1, s);
    }
}

/// The pieces of `haystack` between the occurrences of `elem`.
pub fn slice_split<'h, T: PartialEq>(haystack: &'h [T], elem: &T) -> (r: Vec<&'h [T]>)
    ensures
        T::obeys_eq_spec() ==> r@.map_values(|p: &[T]| p@) == pieces(haystack@, *elem, 0, 0),
{
    let mut searcher = SliceElemSearcher::new(elem, haystack);
    let mut out: Vec<&'h [T]> = Vec::new();
    let mut start: usize = 0;
    let ghost h = haystack@;
    let ghost e = *elem;
    loop
        invariant_except_break
            start == searcher.cursor(),
            T::obeys_eq_spec() ==> pieces(h, e, 0, 0) == out@.map_values(|p: &[T]| p@) + pieces(
                h,
                e,
                start as int,
                start as int,
            ),
        invariant
            searcher.wf(),
            searcher.hay() == h,
            searcher.needle() == e,
            h == haystack@,
            e == *elem,
        ensures
            T::obeys_eq_spec() ==> pieces(h, e, 0, 0) == out@.map_values(|p: &[T]| p@),
        decreases h.len() - searcher.cursor(),
    {
        let ghost before = out@;
        match searcher.next_match() {
            Some((a, b)) => {
                let piece = vstd::slice::slice_subrange(haystack, start, a);
                out.push(piece);
                proof {
                    if T::obeys_eq_spec() {
                        lemma_pieces_skip(h, e, start as int, start as int, a as int);
                        assert(pieces(h, e, start as int, a as int) == seq![h.subrange(start as int, a as int)]
                            + pieces(h, e, b as int, b as int));
                        assert(out@.map_values(|p: &[T]| p@) =~= before.map_values(|p: &[T]| p@).push(
                            h.subrange(start as int, a as int),
                        ));
                        assert(before.map_values(|p: &[T]| p@) + pieces(h, e, start as int, start as int)
                            =~= out@.map_values(|p: &[T]| p@) + pieces(h, e, b as int, b as int));
                    }
                }
                start = b;
            },
            None => {
                let piece = vstd::slice::slice_subrange(haystack, start, haystack.len());
                out.push(piece);
                proof {
                    if T::obeys_eq_spec() {
                        lemma_pieces_skip(h, e, start as int, start as int, h.len() as int);
                        assert(pieces(h, e, start as int, start as int) == seq![h.subrange(start as int, h.len() as int)]);
                        assert(out@.map_values(|p: &[T]| p@) =~= before.map_values(|p: &[T]| p@)
                            + pieces(h, e, start as int, start as int));
                    }
                }
                break;
            },
        }
    }
    out
}

} // verus!
