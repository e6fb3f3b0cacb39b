//! Conversions between OMG-WTF-8, UTF-8 text and 16-bit code units.
use vstd::prelude::*;
use vstd::utf8::valid_utf8;
use vstd::string::StringSliceAdditionalSpecFns;
use crate::encoding::{
    bytes_of_wide, decodable, four_bytes, front_units, is_bare_high, is_cont, pair_code_point,
    unit_bytes, unit_len, well_formed, wf_units, wide_of_bytes,
};
use crate::string::OmgWtf8;
use crate::tbs::{be24, tbs_tag, ThreeByteSeq};

verus! {

#[verifier::external_type_specification]
#[verifier::external_body]
pub struct ExUtf8Error(core::str::Utf8Error);

/// Relies on `core::str::from_utf8`: it succeeds exactly on valid UTF-8 and
/// then views the same bytes as text.
pub assume_specification<'a>[ core::str::from_utf8 ](v: &'a [u8]) -> (r: Result<
    &'a str,
    core::str::Utf8Error,
>)
    ensures
        r is Ok <==> valid_utf8(v@),
        r matches Ok(s) ==> s.spec_bytes() == v@,
;

/// Appends the 1-, 2- or 3-byte encoding of one code unit.
fn encode_unit(buf: &mut Vec<u8>, c: u16)
    ensures
        final(buf)@ == old(buf)@ + unit_bytes(c),
{
    if c <= 0x7f {
        buf.push(c as u8);
    } else if c <= 0x7ff {
        buf.push(((c >> 6) | 0xc0) as u8);
        buf.push(((c & 0x3f) | 0x80) as u8);
    } else {
        buf.push(((c >> 12) | 0xe0) as u8);
        buf.push((((c >> 6) & 0x3f) | 0x80) as u8);
        buf.push(((c & 0x3f) | 0x80) as u8);
    }
    assert(final(buf)@ =~= old(buf)@ + unit_bytes(c));
}

/// Well-formed WTF-8 can be decoded without reading past its end.
pub proof fn lemma_wf_units_decodable(b: Seq<u8>)
    requires
        wf_units(b),
    ensures
        decodable(b),
    decreases b.len(),
{
    if b.len() == 0 {
    } else if is_bare_high(b) {
        assert(decodable(b.subrange(3, 3)));
    } else {
        lemma_wf_units_decodable(b.subrange(unit_len(b) as int, b.len() as int));
    }
}

/// A well-formed string can be decoded without reading past its end.
pub proof fn lemma_well_formed_decodable(b: Seq<u8>)
    requires
        well_formed(b),
    ensures
        decodable(b),
{
    if wf_units(b) {
        lemma_wf_units_decodable(b);
    } else {
        lemma_wf_units_decodable(b.subrange(3, b.len() as int));
    }
}

/// The bytes of a canonical copy: a leading bare low-surrogate group and a
/// trailing bare high-surrogate group are rewritten in their 3-byte `ED`
/// form.
pub open spec fn canonical_bytes(b: Seq<u8>) -> Seq<u8> {
    let n = b.len() as int;
    let front = if n >= 3 && is_cont(b[0]) {
        let c = tbs_tag(be24(b[0], b[1], b[2]));
        b.update(0, 0xed).update(1, (c >> 8) as u8).update(2, (c & 0xff) as u8)
    } else {
        b
    };
    if n >= 3 && front[n - 3] >= 0xf0 {
        let c = tbs_tag(be24(front[n - 3], front[n - 2], front[n - 1]));
        front.update(n - 3, 0xed).update(n - 2, (c >> 8) as u8).update(n - 1, (c & 0xff) as u8)
    } else {
        front
    }
}

impl OmgWtf8 {
    /// Creates a string from UTF-8 text, byte for byte.
    pub fn from_str(s: &str) -> (r: OmgWtf8)
        ensures
            r@ == s.spec_bytes(),
            r.is_well_formed(),
    {
        proof {
            vstd::utf8::encode_utf8_valid_utf8(s@);
            crate::lemmas::lemma_valid_utf8_wf(s.spec_bytes());
        }
        OmgWtf8::from_vec(vstd::slice::slice_to_vec(s.as_bytes()))
    }

    /// Views the string as UTF-8 text; `None` when it holds an unpaired
    /// surrogate.
    pub fn to_str(&self) -> (r: Option<&str>)
        ensures
            r is Some <==> valid_utf8(self@),
            r matches Some(s) ==> s.spec_bytes() == self@,
    {
        match core::str::from_utf8(self.as_bytes()) {
            Ok(s) => Some(s),
            Err(_) => None,
        }
    }

    /// Encodes 16-bit code units: a high surrogate directly followed by a low
    /// one becomes a 4-byte sequence, every other unit its own 1- to 3-byte
    /// sequence.
    pub fn from_wide(ucs2: &[u16]) -> (r: OmgWtf8)
        ensures
            r@ == bytes_of_wide(ucs2@),
            r.is_well_formed(),
    {
        proof {
            crate::lemmas::lemma_bytes_of_wide_wf(ucs2@);
        }
        let mut buf: Vec<u8> = Vec::with_capacity(ucs2.len());
        let n = ucs2.len();
        let mut i: usize = 0;
        assert(buf@ + bytes_of_wide(ucs2@.subrange(0, n as int)) =~= bytes_of_wide(ucs2@)) by {
            assert(ucs2@.subrange(0, n as int) =~= ucs2@);
        }
        while i < n
            invariant
                i <= n == ucs2@.len(),
                bytes_of_wide(ucs2@) == buf@ + bytes_of_wide(ucs2@.subrange(i as int, n as int)),
            decreases n - i,
        {
            let ghost rest = ucs2@.subrange(i as int, n as int);
            let c1 = ucs2[i];
            if 0xd800 <= c1 && c1 <= 0xdbff && i + 1 < n && 0xdc00 <= ucs2[i + 1] && ucs2[i + 1]
                <= 0xdfff {
                let c2 = ucs2[i + 1];
                assert(((((c1 as u32) & 0x3ff) << 10) | ((c2 as u32) & 0x3ff)) <= 0xfffff)
                    by (bit_vector);
                let c: u32 = ((((c1 as u32) & 0x3ff) << 10) | ((c2 as u32) & 0x3ff)) + 0x10000;
                let ghost old_buf = buf@;
                buf.push(((c >> 18) | 0xf0) as u8);
                buf.push((((c >> 12) & 0x3f) | 0x80) as u8);
                buf.push((((c >> 6) & 0x3f) | 0x80) as u8);
                buf.push(((c & 0x3f) | 0x80) as u8);
                proof {
                    assert(buf@ =~= old_buf + four_bytes(pair_code_point(c1, c2)));
                    assert(rest.subrange(2, rest.len() as int) =~= ucs2@.subrange(
                        i + 2,
                        n as int,
                    ));
                    assert(bytes_of_wide(rest) == four_bytes(pair_code_point(c1, c2))
                        + bytes_of_wide(rest.subrange(2, rest.len() as int)));
                    assert(old_buf + bytes_of_wide(rest) =~= buf@ + bytes_of_wide(
                        ucs2@.subrange(i + 2, n as int),
                    ));
                }
                i = i + 2;
            } else {
                let ghost old_buf = buf@;
                encode_unit(&mut buf, c1);
                proof {
                    assert(rest.subrange(1, rest.len() as int) =~= ucs2@.subrange(
                        i + 1,
                        n as int,
                    ));
                    assert(bytes_of_wide(rest) == unit_bytes(c1) + bytes_of_wide(
                        rest.subrange(1, rest.len() as int),
                    ));
                    assert(old_buf + bytes_of_wide(rest) =~= buf@ + bytes_of_wide(
                        ucs2@.subrange(i + 1, n as int),
                    ));
                }
                i = i + 1;
            }
        }
        proof {
            assert(bytes_of_wide(ucs2@.subrange(n as int, n as int)) =~= Seq::<u8>::empty());
            assert(buf@ + Seq::<u8>::empty() =~= buf@);
        }
        OmgWtf8::from_vec(buf)
    }

    /// A lazy decoder of the string's 16-bit code units.
    pub fn encode_wide(&self) -> (r: EncodeWide<'_>)
        requires
            self.is_well_formed(),
        ensures
            r.wf(),
            r.remaining() == wide_of_bytes(self@),
    {
        proof {
            lemma_well_formed_decodable(self@);
            assert(self@.subrange(0, self@.len() as int) =~= self@);
        }
        EncodeWide { src: self.as_bytes(), pos: 0, low_surrogate: None }
    }

    /// All the 16-bit code units of the string.
    pub fn to_wide(&self) -> (r: Vec<u16>)
        requires
            self.is_well_formed(),
        ensures
            r@ == wide_of_bytes(self@),
    {
        let mut it = self.encode_wide();
        let mut out: Vec<u16> = Vec::new();
        loop
            invariant
                it.wf(),
                out@ + it.remaining() == wide_of_bytes(self@),
            ensures
                out@ == wide_of_bytes(self@),
            decreases it.remaining().len(),
        {
            let ghost before = it.remaining();
            match it.next() {
                Some(c) => {
                    proof {
                        assert(out@.push(c) + it.remaining() =~= out@ + before);
                    }
                    out.push(c);
                },
                None => {
                    assert(out@ + before =~= out@);
                    break ;
                },
            }
        }
        out
    }

    /// An owned copy whose end groups are in canonical form: a leading bare
    /// low-surrogate group and a trailing bare high-surrogate group are
    /// rewritten as `ED xx xx`.
    pub fn canonical_copy(&self) -> (r: OmgWtf8)
        ensures
            r@ == canonical_bytes(self@),
            self.is_well_formed() ==> r.is_well_formed() && crate::cmp::canonical_triple(r@)
                == crate::cmp::canonical_triple(self@),
    {
        proof {
            if self.is_well_formed() {
                crate::canon::lemma_canonical_bytes_equivalent(self@);
            }
        }
        let mut v = vstd::slice::slice_to_vec(self.as_bytes());
        let len = v.len();
        if len >= 3 {
            if 0x80 <= v[0] && v[0] <= 0xbf {
                let c = ThreeByteSeq::new(v.as_slice()).canonicalize();
                v.set(0, 0xed);
                v.set(1, (c >> 8) as u8);
                v.set(2, (c & 0xff) as u8);
            }
            if v[len - 3] >= 0xf0 {
                let c = ThreeByteSeq::new(vstd::slice::slice_subrange(v.as_slice(), len - 3, len)).canonicalize();
                v.set(len - 3, 0xed);
                v.set(len - 2, (c >> 8) as u8);
                v.set(len - 1, (c & 0xff) as u8);
            }
        }
        OmgWtf8::from_vec(v)
    }
}

/// The 16-bit code units of a string, one at a time. A 4-byte sequence
/// yields its high surrogate first and keeps the low one for the next call.
pub struct EncodeWide<'a> {
    src: &'a [u8],
    pos: usize,
    low_surrogate: Option<u16>,
}

impl<'a> EncodeWide<'a> {
    /// The decoder can read everything that is left.
    pub closed spec fn wf(&self) -> bool {
        &&& self.pos <= self.src@.len()
        &&& decodable(self.src@.subrange(self.pos as int, self.src@.len() as int))
    }

    /// The code units still to come.
    pub closed spec fn remaining(&self) -> Seq<u16> {
        let rest = wide_of_bytes(self.src@.subrange(self.pos as int, self.src@.len() as int));
        match self.low_surrogate {
            Some(c) => seq![c] + rest,
            None => rest,
        }
    }

    /// The next code unit, or `None` once all have been given.
    pub fn next(&mut self) -> (r: Option<u16>)
        requires
            old(self).wf(),
        ensures
            final(self).wf(),
            old(self).remaining().len() == 0 ==> r is None && final(self).remaining()
                == old(self).remaining(),
            old(self).remaining().len() > 0 ==> r == Some(old(self).remaining()[0])
                && final(self).remaining() == old(self).remaining().drop_first(),
    {
        if let Some(c) = self.low_surrogate {
            self.low_surrogate = None;
            assert(old(self).remaining().drop_first() =~= self.remaining());
            return Some(c);
        }
        let len = self.src.len();
        if self.pos == len {
            return None;
        }
        let ghost rest = self.src@.subrange(self.pos as int, len as int);
        let b1 = self.src[self.pos];
        let ghost k: int = unit_len(rest) as int;
        assert(rest[0] == b1);
        let code_unit: u16;
        if b1 <= 0x7f {
            code_unit = b1 as u16;
            self.pos = self.pos + 1;
        } else if 0xc0 <= b1 && b1 <= 0xdf {
            let b2 = self.src[self.pos + 1];
            assert(rest[1] == b2);
            code_unit = ((((b1 as u16) & 0x1f) << 6) | ((b2 as u16) & 0x3f)) as u16;
            self.pos = self.pos + 2;
        } else if b1 >= 0xf0 && len - self.pos >= 4 {
            let b2 = self.src[self.pos + 1];
            let b3 = self.src[self.pos + 2];
            let b4 = self.src[self.pos + 3];
            assert(rest[1] == b2 && rest[2] == b3 && rest[3] == b4);
            let d = ((((b1 as u32) & 7) << 18) | (((b2 as u32) & 0x3f) << 12) | (((b3 as u32)
                & 0x3f) << 6) | ((b4 as u32) & 0x3f)).wrapping_sub(0x10000);
            let c1 = (((d >> 10) & 0x3ff) | 0xd800) as u16;
            let c2 = ((d & 0x3ff) | 0xdc00) as u16;
            self.low_surrogate = Some(c2);
            code_unit = c1;
            self.pos = self.pos + 4;
        } else {
            let t = ThreeByteSeq::new(vstd::slice::slice_subrange(self.src, self.pos, len));
            assert(rest[1] == self.src@[self.pos + 1] && rest[2] == self.src@[self.pos + 2]);
            code_unit = t.as_code_unit();
            self.pos = self.pos + 3;
        }
        proof {
            assert(rest.subrange(k, rest.len() as int) =~= self.src@.subrange(
                self.pos as int,
                len as int,
            ));
            assert(wide_of_bytes(rest) == front_units(rest) + wide_of_bytes(
                rest.subrange(k, rest.len() as int),
            ));
            assert(old(self).remaining().drop_first() =~= self.remaining());
        }
        Some(code_unit)
    }
}

} // verus!
