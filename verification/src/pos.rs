//! Byte-offset source spans.
use vstd::prelude::*;
use vstd::string::StringSliceAdditionalSpecFns;
use crate::scanner::char_width;
use vstd::utf8::*;

verus! {

broadcast use vstd::string::group_string_axioms;

/// Span represents a range of a piece of source code.
/// It counts by byte offset, so it's 0-based.
///
/// Offsets are `u32`; sources larger than 4 GiB are rejected by the parser up front.
#[derive(Clone, Copy, Debug, Hash, PartialEq, Eq, Structural)]
pub struct Span {
    /// Start offset. (Inclusive)
    pub start: u32,
    /// End offset. (Exclusive)
    pub end: u32,
}

/// The bytes of a source text.
pub open spec fn src_bytes(source: &str) -> Seq<u8> {
    source.spec_bytes()
}

impl Span {
    /// The span is well formed: it does not end before it starts.
    pub open spec fn ordered(self) -> bool {
        self.start <= self.end
    }

    /// The span is well formed and lies inside `lo..hi`.
    pub open spec fn within(self, lo: int, hi: int) -> bool {
        lo <= self.start && self.start <= self.end && self.end <= hi
    }

    /// The span lies inside `outer`.
    pub open spec fn inside(self, outer: Span) -> bool {
        self.within(outer.start as int, outer.end as int)
    }

    /// The span can be used to slice `source`: its ends are in bounds and
    /// fall on character boundaries.
    pub open spec fn slices(self, source: &str) -> bool {
        &&& self.start <= self.end
        &&& self.end <= src_bytes(source).len()
        &&& is_char_boundary(src_bytes(source), self.start as int)
        &&& is_char_boundary(src_bytes(source), self.end as int)
    }

    pub fn new(start: u32, end: u32) -> (s: Self)
        ensures
            s.start == start,
            s.end == end,
    {
        Self { start, end }
    }

    /// A zero-width span at the given offset. Covers no characters, but its
    /// position may still be meaningful (e.g. a marker between two tokens).
    pub fn empty(at: u32) -> (s: Self)
        ensures
            s.start == at,
            s.end == at,
    {
        Self { start: at, end: at }
    }

    /// The source text this span covers.
    pub fn slice(self, source: &str) -> (r: &str)
        requires
            self.slices(source),
        ensures
            src_bytes(r) == src_bytes(source).subrange(self.start as int, self.end as int),
    {
        broadcast use is_char_boundary_iff_not_is_continuation_byte, valid_utf8_split,
            is_char_boundary_start_end_of_seq, encode_utf8_valid_utf8;

        let ghost bytes = src_bytes(source);
        assert(valid_utf8(bytes));
        let (head, _) = source.split_at(self.end as usize);
        assert(valid_utf8(bytes.subrange(0, self.end as int)));
        assert(src_bytes(head) =~= bytes.subrange(0, self.end as int));
        if self.start < self.end {
            assert(src_bytes(head)[self.start as int] == bytes[self.start as int]);
            proof {
                is_char_boundary_iff_not_is_continuation_byte(bytes, self.start as int);
                encode_utf8_valid_utf8(head@);
                is_char_boundary_iff_not_is_continuation_byte(src_bytes(head), self.start as int);
            }
            assert(is_char_boundary(src_bytes(head), self.start as int));
        } else {
            proof {
                encode_utf8_valid_utf8(head@);
                is_char_boundary_start_end_of_seq(src_bytes(head));
            }
        }
        let (_, mid) = head.split_at(self.start as usize);
        assert(src_bytes(mid) =~= bytes.subrange(self.start as int, self.end as int));
        mid
    }

    /// Whether the span covers no characters. An empty span's position may
    /// still be meaningful (e.g. a synthesized token).
    pub fn is_empty(self) -> (r: bool)
        ensures
            r == (self.start == self.end),
    {
        self.start == self.end
    }
}

/// In valid UTF-8, an ASCII byte is a whole character: it starts one, and
/// the next character starts right after it.
pub proof fn lemma_ascii_boundaries(bytes: Seq<u8>, k: int)
    requires
        valid_utf8(bytes),
        0 <= k < bytes.len(),
        bytes[k] < 0x80u8,
    ensures
        is_char_boundary(bytes, k),
        is_char_boundary(bytes, k + 1),
    decreases bytes.len(),
{
    is_char_boundary_iff_not_is_continuation_byte(bytes, k);
    let l = length_of_first_scalar(bytes);
    let tail = pop_first_scalar(bytes);
    assert(tail.len() == bytes.len() - l);
    if k < l {
        assert(k == 0);
        assert(l == 1);
        is_char_boundary_start_end_of_seq(tail);
    } else {
        assert(tail[k - l] == bytes[k]);
        lemma_ascii_boundaries(tail, k - l);
    }
}

/// In valid UTF-8, the character that starts at a boundary `k` takes the
/// width that its lead byte announces, and the next character starts right
/// after it.
pub proof fn lemma_char_width_boundary(bytes: Seq<u8>, k: int)
    requires
        valid_utf8(bytes),
        0 <= k < bytes.len(),
        is_char_boundary(bytes, k),
    ensures
        k + char_width(bytes[k]) <= bytes.len(),
        is_char_boundary(bytes, k + char_width(bytes[k])),
    decreases bytes.len(),
{
    let l = length_of_first_scalar(bytes);
    let tail = pop_first_scalar(bytes);
    assert(tail.len() == bytes.len() - l);
    if k == 0 {
        assert(char_width(bytes[0]) == l);
        is_char_boundary_start_end_of_seq(tail);
    } else {
        assert(valid_utf8(tail));
        assert(k >= l) by {
            reveal_with_fuel(is_char_boundary, 2);
        }
        assert(tail[k - l] == bytes[k]);
        lemma_char_width_boundary(tail, k - l);
    }
}

} // verus!
