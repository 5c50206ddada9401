//! Records of vector text geometry: outline curves, glyph bounds, and the arena they live in.
use crate::data::{record, F16x2, ShaderData};
use vstd::prelude::*;

verus! {

/// One quadratic outline segment: three control points, each packed as two half floats.
#[derive(Clone, Copy)]
pub struct Curve {
    points: [F16x2; 3],
}

impl ShaderData for Curve {
    open spec fn word_count() -> nat {
        3
    }

    closed spec fn zero_value() -> Self {
        Curve { points: [F16x2::zero_value(), F16x2::zero_value(), F16x2::zero_value()] }
    }

    closed spec fn decode(words: Seq<u32>) -> Self {
        Curve {
            points: [
                F16x2::decode(words.subrange(0, 1)),
                F16x2::decode(words.subrange(1, 2)),
                F16x2::decode(words.subrange(2, 3)),
            ],
        }
    }

    open spec fn canonical(self) -> bool {
        true
    }

    fn words() -> (count: usize) {
        3
    }

    fn zero() -> (zero: Self) {
        Curve { points: [F16x2::zero(), F16x2::zero(), F16x2::zero()] }
    }

    fn read_unchecked(words: &[u32], offset: usize) -> (value: Self) {
        let total = words.len();
        let a = F16x2::read_unchecked(words, offset);
        let b = F16x2::read_unchecked(words, offset + 1);
        let c = F16x2::read_unchecked(words, offset + 2);
        proof {
            let rec = record(words@, offset as int, 3);
            broadcast use vstd::array::group_array_axioms;

            assert(record(words@, offset as int, 1) =~= rec.subrange(0, 1));
            assert(record(words@, offset + 1, 1) =~= rec.subrange(1, 2));
            assert(record(words@, offset + 2, 1) =~= rec.subrange(2, 3));
        }
        Curve { points: [a, b, c] }
    }

    fn write(self, words: &mut [u32], offset: usize) {
        let ghost before = words@;
        let total = words.len();
        self.points[0].write(words, offset);
        let ghost first = words@;
        self.points[1].write(words, offset + 1);
        let ghost second = words@;
        self.points[2].write(words, offset + 2);
        proof {
            let rec = record(words@, offset as int, 3);
            assert(rec.subrange(0, 1) =~= record(first, offset as int, 1));
            assert(rec.subrange(1, 2) =~= record(second, offset + 1, 1));
            assert(rec.subrange(2, 3) =~= record(words@, offset + 2, 1));
            let decoded = Self::decode(rec);
            broadcast use vstd::array::group_array_axioms;

            assert(decoded.points@ =~= self.points@);
            assert(decoded.points =~= self.points);
        }
    }
}

/// The bounds of one glyph and the range of its outline curves.
///
/// The corners are held as the IEEE-754 bit patterns of their `f32` coordinates, the form in
/// which the shader record stores them.
#[derive(Clone, Copy, Debug)]
pub struct Glyph {
    min: [u32; 2],
    max: [u32; 2],
    start: u32,
    count: u32,
}

impl Glyph {
    /// A glyph record from its corner coordinates' bit patterns and its curve range.
    pub fn new(min: [u32; 2], max: [u32; 2], start: u32, count: u32) -> (glyph: Self)
        ensures
            glyph.min_bits() == min,
            glyph.max_bits() == max,
            glyph.first_curve() == start,
            glyph.curve_count() == count,
    {
        Glyph { min, max, start, count }
    }

    /// Bit patterns of the minimum corner.
    pub closed spec fn min_bits(self) -> [u32; 2] {
        self.min
    }

    /// Bit patterns of the maximum corner.
    pub closed spec fn max_bits(self) -> [u32; 2] {
        self.max
    }

    /// Index of the glyph's first outline curve.
    pub closed spec fn first_curve(self) -> u32 {
        self.start
    }

    /// Number of outline curves.
    pub closed spec fn curve_count(self) -> u32 {
        self.count
    }
}

impl ShaderData for Glyph {
    open spec fn word_count() -> nat {
        6
    }

    closed spec fn zero_value() -> Self {
        Glyph { min: [0, 0], max: [0, 0], start: 0, count: 0 }
    }

    closed spec fn decode(words: Seq<u32>) -> Self {
        Glyph {
            min: [words[0], words[1]],
            max: [words[2], words[3]],
            start: words[4],
            count: words[5],
        }
    }

    open spec fn canonical(self) -> bool {
        true
    }

    fn words() -> (count: usize) {
        6
    }

    fn zero() -> (zero: Self) {
        Glyph { min: [0, 0], max: [0, 0], start: 0, count: 0 }
    }

    fn read_unchecked(words: &[u32], offset: usize) -> (value: Self) {
        let value = Glyph {
            min: [words[offset], words[offset + 1]],
            max: [words[offset + 2], words[offset + 3]],
            start: words[offset + 4],
            count: words[offset + 5],
        };
        proof {
            broadcast use vstd::array::group_array_axioms;

            let decoded = Self::decode(record(words@, offset as int, 6));
            assert(decoded.min =~= value.min);
            assert(decoded.max =~= value.max);
        }
        value
    }

    fn write(self, words: &mut [u32], offset: usize) {
        words[offset] = self.min[0];
        words[offset + 1] = self.min[1];
        words[offset + 2] = self.max[0];
        words[offset + 3] = self.max[1];
        words[offset + 4] = self.start;
        words[offset + 5] = self.count;
        proof {
            broadcast use vstd::array::group_array_axioms;

            let decoded = Self::decode(record(words@, offset as int, 6));
            assert(decoded.min =~= self.min);
            assert(decoded.max =~= self.max);
        }
    }
}

/// One straight outline edge of a glyph at two weights: its end points, and how far each
/// moves across the weight axis, each point packed as two half floats.
#[derive(Clone, Copy)]
pub struct Edge {
    start: F16x2,
    end: F16x2,
    start_delta: F16x2,
    end_delta: F16x2,
}

impl ShaderData for Edge {
    open spec fn word_count() -> nat {
        4
    }

    closed spec fn zero_value() -> Self {
        Edge {
            start: F16x2::zero_value(),
            end: F16x2::zero_value(),
            start_delta: F16x2::zero_value(),
            end_delta: F16x2::zero_value(),
        }
    }

    closed spec fn decode(words: Seq<u32>) -> Self {
        Edge {
            start: F16x2::decode(words.subrange(0, 1)),
            end: F16x2::decode(words.subrange(1, 2)),
            start_delta: F16x2::decode(words.subrange(2, 3)),
            end_delta: F16x2::decode(words.subrange(3, 4)),
        }
    }

    open spec fn canonical(self) -> bool {
        true
    }

    fn words() -> (count: usize) {
        4
    }

    fn zero() -> (zero: Self) {
        Edge { start: F16x2::zero(), end: F16x2::zero(), start_delta: F16x2::zero(), end_delta: F16x2::zero() }
    }

    fn read_unchecked(words: &[u32], offset: usize) -> (value: Self) {
        let total = words.len();
        let start = F16x2::read_unchecked(words, offset);
        let end = F16x2::read_unchecked(words, offset + 1);
        let start_delta = F16x2::read_unchecked(words, offset + 2);
        let end_delta = F16x2::read_unchecked(words, offset + 3);
        proof {
            let rec = record(words@, offset as int, 4);
            assert(record(words@, offset as int, 1) =~= rec.subrange(0, 1));
            assert(record(words@, offset + 1, 1) =~= rec.subrange(1, 2));
            assert(record(words@, offset + 2, 1) =~= rec.subrange(2, 3));
            assert(record(words@, offset + 3, 1) =~= rec.subrange(3, 4));
        }
        Edge { start, end, start_delta, end_delta }
    }

    fn write(self, words: &mut [u32], offset: usize) {
        let total = words.len();
        self.start.write(words, offset);
        let ghost first = words@;
        self.end.write(words, offset + 1);
        let ghost second = words@;
        self.start_delta.write(words, offset + 2);
        let ghost third = words@;
        self.end_delta.write(words, offset + 3);
        proof {
            let rec = record(words@, offset as int, 4);
            assert(rec.subrange(0, 1) =~= record(first, offset as int, 1));
            assert(rec.subrange(1, 2) =~= record(second, offset + 1, 1));
            assert(rec.subrange(2, 3) =~= record(third, offset + 2, 1));
            assert(rec.subrange(3, 4) =~= record(words@, offset + 3, 1));
        }
    }
}

/// The placed-glyph and outline arenas a text shader reads.
#[derive(Clone, Copy)]
pub struct TextResources<'a> {
    pub placed_glyphs: &'a [u32],
    pub outlines: &'a [u32],
}

/// Appends a record to a font arena and returns its word offset; the arena's length must be
/// addressable by `u32`.
pub fn append<T: ShaderData>(words: &mut Vec<u32>, value: T) -> (offset: u32)
    requires
        value.canonical(),
        old(words).len() <= u32::MAX,
        old(words).len() + T::word_count() <= usize::MAX,
    ensures
        offset == old(words).len(),
        final(words)@.len() == old(words)@.len() + T::word_count(),
        final(words)@.take(offset as int) == old(words)@,
        T::decode(record(final(words)@, offset as int, T::word_count())) == value,
{
    let offset = words.len() as u32;
    let end = words.len() + T::words();
    words.resize(end, 0);
    let ghost grown = words@;
    value.write(words.as_mut_slice(), offset as usize);
    assert(words@.take(offset as int) =~= grown.take(offset as int));
    offset
}

} // verus!
