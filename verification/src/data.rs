//! Fixed-size word codecs shared by host and shaders, independent of Rust's memory layout.
use vstd::prelude::*;

verus! {

/// The `count` words of a record starting at `offset`.
pub open spec fn record(words: Seq<u32>, offset: int, count: nat) -> Seq<u32> {
    words.subrange(offset, offset + count)
}

/// A record of `T` lies wholly inside `words` at `offset`.
pub open spec fn fits<T: ShaderData>(words: Seq<u32>, offset: int) -> bool {
    0 <= offset && offset + T::word_count() <= words.len()
}

/// What a read of `T` at `offset` gives: the record there, or the zero value when the
/// record does not lie wholly inside the buffer.
pub open spec fn read_value<T: ShaderData>(words: Seq<u32>, offset: int) -> T {
    if fits::<T>(words, offset) {
        T::decode(record(words, offset, T::word_count()))
    } else {
        T::zero_value()
    }
}

/// `after` differs from `before` at most inside the `count` words from `offset`.
pub open spec fn unchanged_outside(before: Seq<u32>, after: Seq<u32>, offset: int, count: nat) -> bool {
    &&& after.len() == before.len()
    &&& forall|i: int|
        0 <= i < before.len() && !(offset <= i < offset + count) ==> #[trigger] after[i]
            == before[i]
}

/// A fixed-size word codec shared by CPU and GPU, independent of Rust's memory layout.
pub trait ShaderData: Sized + Copy {
    /// Number of 32-bit words occupied by one encoded value.
    spec fn word_count() -> nat;

    /// Fallback value returned when a read is out of bounds.
    spec fn zero_value() -> Self;

    /// The value a complete record decodes to.
    spec fn decode(words: Seq<u32>) -> Self;

    /// A value that a reader can produce, and so one a write must reproduce.
    spec fn canonical(self) -> bool;

    /// Number of 32-bit words occupied by one encoded value.
    fn words() -> (count: usize)
        requires
            Self::word_count() <= usize::MAX,
        ensures
            count == Self::word_count(),
    ;

    /// Fallback value returned when a read is out of bounds.
    fn zero() -> (zero: Self)
        ensures
            zero == Self::zero_value(),
            zero.canonical(),
    ;

    /// Decodes a complete record, which the caller guarantees lies inside the buffer.
    fn read_unchecked(words: &[u32], offset: usize) -> (value: Self)
        requires
            offset + Self::word_count() <= words@.len(),
        ensures
            value == Self::decode(record(words@, offset as int, Self::word_count())),
            value.canonical(),
    ;

    /// Writes a complete record at a word offset; the destination must have room for it.
    fn write(self, words: &mut [u32], offset: usize)
        requires
            self.canonical(),
            offset + Self::word_count() <= old(words)@.len(),
        ensures
            unchanged_outside(old(words)@, final(words)@, offset as int, Self::word_count()),
            Self::decode(record(final(words)@, offset as int, Self::word_count())) == self,
    ;

    /// Reads a complete record, returning the zero value for an out-of-bounds record.
    fn read(words: &[u32], offset: usize) -> (value: Self)
        requires
            Self::word_count() <= usize::MAX,
        ensures
            offset + Self::word_count() <= words@.len() ==> value == Self::decode(
                record(words@, offset as int, Self::word_count()),
            ),
            offset + Self::word_count() > words@.len() ==> value == Self::zero_value(),
            value.canonical(),
    {
        if offset > words.len() || Self::words() > words.len() - offset {
            return Self::zero();
        }
        Self::read_unchecked(words, offset)
    }

    /// Appends a value and returns its word offset; the arena must stay addressable by `u32`.
    fn append(self, words: &mut Vec<u32>) -> (offset: u32)
        requires
            self.canonical(),
            old(words).len() + Self::word_count() <= u32::MAX,
        ensures
            offset == old(words).len(),
            final(words)@.len() == old(words)@.len() + Self::word_count(),
            final(words)@.take(offset as int) == old(words)@,
            Self::decode(record(final(words)@, offset as int, Self::word_count())) == self,
    {
        let offset = words.len() as u32;
        let end = words.len() + Self::words();
        words.resize(end, 0);
        let ghost grown = words@;
        self.write(words.as_mut_slice(), offset as usize);
        assert(words@.take(offset as int) =~= grown.take(offset as int));
        offset
    }
}

impl ShaderData for u32 {
    open spec fn word_count() -> nat {
        1
    }

    open spec fn zero_value() -> Self {
        0
    }

    open spec fn decode(words: Seq<u32>) -> Self {
        words[0]
    }

    open spec fn canonical(self) -> bool {
        true
    }

    fn words() -> (count: usize) {
        1
    }

    fn zero() -> (zero: Self) {
        0
    }

    fn read_unchecked(words: &[u32], offset: usize) -> (value: Self) {
        words[offset]
    }

    fn write(self, words: &mut [u32], offset: usize) {
        words[offset] = self;
    }
}

impl ShaderData for i32 {
    open spec fn word_count() -> nat {
        1
    }

    open spec fn zero_value() -> Self {
        0
    }

    open spec fn decode(words: Seq<u32>) -> Self {
        words[0] as i32
    }

    open spec fn canonical(self) -> bool {
        true
    }

    fn words() -> (count: usize) {
        1
    }

    fn zero() -> (zero: Self) {
        0
    }

    fn read_unchecked(words: &[u32], offset: usize) -> (value: Self) {
        u32::read_unchecked(words, offset) as i32
    }

    fn write(self, words: &mut [u32], offset: usize) {
        let value = self;
        assert((value as u32) as i32 == value) by (bit_vector);
        (self as u32).write(words, offset);
    }
}

impl ShaderData for bool {
    open spec fn word_count() -> nat {
        1
    }

    open spec fn zero_value() -> Self {
        false
    }

    open spec fn decode(words: Seq<u32>) -> Self {
        words[0] != 0
    }

    open spec fn canonical(self) -> bool {
        true
    }

    fn words() -> (count: usize) {
        1
    }

    fn zero() -> (zero: Self) {
        false
    }

    fn read_unchecked(words: &[u32], offset: usize) -> (value: Self) {
        u32::read_unchecked(words, offset) != 0
    }

    fn write(self, words: &mut [u32], offset: usize) {
        let word: u32 = if self {
            1
        } else {
            0
        };
        word.write(words, offset);
    }
}

/// `after` is `before` with `value` written as a record at `offset`, as `ShaderData::write` leaves it.
pub open spec fn written<T: ShaderData>(before: Seq<u32>, after: Seq<u32>, offset: int, value: T) -> bool {
    &&& fits::<T>(before, offset)
    &&& unchanged_outside(before, after, offset, T::word_count())
    &&& T::decode(record(after, offset, T::word_count())) == value
}

/// A read where a value was written gives the value back.
pub proof fn lemma_read_after_write<T: ShaderData>(
    before: Seq<u32>,
    after: Seq<u32>,
    offset: int,
    value: T,
)
    requires
        written(before, after, offset, value),
    ensures
        read_value::<T>(after, offset) == value,
{
}

/// Writing a record leaves every record that does not overlap it reading as before.
pub proof fn lemma_write_keeps_other_records<T: ShaderData, U: ShaderData>(
    before: Seq<u32>,
    after: Seq<u32>,
    offset: int,
    value: T,
    other: int,
)
    requires
        written(before, after, offset, value),
        other + U::word_count() <= offset || offset + T::word_count() <= other,
    ensures
        read_value::<U>(after, other) == read_value::<U>(before, other),
{
    if fits::<U>(before, other) {
        assert(record(after, other, U::word_count()) =~= record(before, other, U::word_count()));
    }
}

/// Two normalized channels stored in one 32-bit word.
#[derive(Clone, Copy, Default)]
pub struct Unorm16x2(u32);

/// Two half-precision floats stored in one 32-bit word.
#[derive(Clone, Copy, Default)]
pub struct F16x2(u32);

/// Four normalized channels stored in one 32-bit word.
#[derive(Clone, Copy, Default)]
pub struct Unorm8x4(u32);

impl ShaderData for Unorm16x2 {
    open spec fn word_count() -> nat {
        1
    }

    closed spec fn zero_value() -> Self {
        Unorm16x2(0)
    }

    closed spec fn decode(words: Seq<u32>) -> Self {
        Unorm16x2(words[0])
    }

    open spec fn canonical(self) -> bool {
        true
    }

    fn words() -> (count: usize) {
        1
    }

    fn zero() -> (zero: Self) {
        Unorm16x2(0)
    }

    fn read_unchecked(words: &[u32], offset: usize) -> (value: Self) {
        Unorm16x2(u32::read_unchecked(words, offset))
    }

    fn write(self, words: &mut [u32], offset: usize) {
        self.0.write(words, offset);
    }
}

impl ShaderData for F16x2 {
    open spec fn word_count() -> nat {
        1
    }

    closed spec fn zero_value() -> Self {
        F16x2(0)
    }

    closed spec fn decode(words: Seq<u32>) -> Self {
        F16x2(words[0])
    }

    open spec fn canonical(self) -> bool {
        true
    }

    fn words() -> (count: usize) {
        1
    }

    fn zero() -> (zero: Self) {
        F16x2(0)
    }

    fn read_unchecked(words: &[u32], offset: usize) -> (value: Self) {
        F16x2(u32::read_unchecked(words, offset))
    }

    fn write(self, words: &mut [u32], offset: usize) {
        self.0.write(words, offset);
    }
}

impl ShaderData for Unorm8x4 {
    open spec fn word_count() -> nat {
        1
    }

    closed spec fn zero_value() -> Self {
        Unorm8x4(0)
    }

    closed spec fn decode(words: Seq<u32>) -> Self {
        Unorm8x4(words[0])
    }

    open spec fn canonical(self) -> bool {
        true
    }

    fn words() -> (count: usize) {
        1
    }

    fn zero() -> (zero: Self) {
        Unorm8x4(0)
    }

    fn read_unchecked(words: &[u32], offset: usize) -> (value: Self) {
        Unorm8x4(u32::read_unchecked(words, offset))
    }

    fn write(self, words: &mut [u32], offset: usize) {
        self.0.write(words, offset);
    }
}

/// A fixed-capacity vector that can be shared with shaders.
#[derive(Clone, Copy)]
pub struct InlineVec<T, const N: usize> {
    len: u32,
    items: [T; N],
}

impl<T, const N: usize> View for InlineVec<T, N> {
    type V = Seq<T>;

    /// The active items, in push order.
    closed spec fn view(&self) -> Seq<T> {
        self.items@.take(self.len as int)
    }
}

/// The item records of an inline vector lie one after another, after its length word.
proof fn lemma_item_record(i: int, n: int, w: int)
    requires
        0 <= i < n,
        0 <= w,
    ensures
        0 <= i * w,
        i * w + w <= n * w,
        i * w + w == (i + 1) * w,
{
    assert(0 <= i * w) by (nonlinear_arith)
        requires
            0 <= i,
            0 <= w,
    ;
    assert(i * w + w == (i + 1) * w) by (nonlinear_arith);
    assert((i + 1) * w <= n * w) by (nonlinear_arith)
        requires
            i + 1 <= n,
            0 <= w,
    ;
}

/// Records of different items do not overlap.
proof fn lemma_items_apart(i: int, j: int, w: int)
    requires
        0 <= i < j,
        0 <= w,
    ensures
        i * w + w <= j * w,
{
    assert(i * w + w <= j * w) by (nonlinear_arith)
        requires
            i + 1 <= j,
            0 <= w,
    ;
}

impl<T: ShaderData, const N: usize> InlineVec<T, N> {
    /// The record of item `index` inside a complete vector record.
    pub open spec fn item_record(words: Seq<u32>, index: int) -> Seq<u32> {
        record(words, 1 + index * T::word_count(), T::word_count())
    }

    /// The length a record decodes to: its first word, capped at the capacity.
    pub open spec fn decoded_len(words: Seq<u32>) -> u32 {
        if words[0] as int <= N {
            words[0]
        } else {
            N as u32
        }
    }

    /// The items a record decodes to: the active ones from their records, the rest zero.
    pub open spec fn decoded_items(words: Seq<u32>) -> Seq<T> {
        Seq::new(
            N as nat,
            |i: int|
                if i < Self::decoded_len(words) {
                    T::decode(Self::item_record(words, i))
                } else {
                    T::zero_value()
                },
        )
    }

    /// Number of items.
    pub closed spec fn count(self) -> nat {
        self.len as nat
    }

    proof fn lemma_decode(self, words: Seq<u32>)
        requires
            self.len == Self::decoded_len(words),
            self.items@ == Self::decoded_items(words),
        ensures
            Self::decode(words) == self,
    {
        let chosen = Self::decode(words);
        assert(exists|v: Self| v.len == Self::decoded_len(words) && v.items@ == Self::decoded_items(words));
        assert(chosen.items@ == self.items@);
        broadcast use vstd::array::axiom_array_ext_equal;

        assert(chosen.items =~= self.items);
    }

    /// An empty vector.
    pub fn new() -> (empty: Self)
        ensures
            empty@ == Seq::<T>::empty(),
            empty.canonical(),
    {
        let zero = T::zero();
        let items: [T; N] = vstd::array::array_fill_for_copy_types(zero);
        let empty = InlineVec { len: 0, items };
        proof {
            broadcast use vstd::array::group_array_axioms;

            assert(empty@ =~= Seq::<T>::empty());
        }
        empty
    }

    /// Number of items.
    pub fn len(&self) -> (count: usize)
        requires
            self.canonical(),
        ensures
            count == self@.len(),
            count <= N,
    {
        proof {
            broadcast use vstd::array::group_array_axioms;

        }
        self.len as usize
    }

    /// Whether the vector holds no items.
    pub fn is_empty(&self) -> (empty: bool)
        requires
            self.canonical(),
        ensures
            empty == (self@.len() == 0),
    {
        proof {
            broadcast use vstd::array::group_array_axioms;

        }
        self.len == 0
    }

    /// Appends an item; the vector must not be full.
    pub fn push(&mut self, item: T)
        requires
            old(self).canonical(),
            old(self)@.len() < N,
            old(self)@.len() < u32::MAX,
            item.canonical(),
        ensures
            final(self).canonical(),
            final(self)@ == old(self)@.push(item),
    {
        proof {
            broadcast use vstd::array::group_array_axioms;

        }
        let index = self.len as usize;
        self.items[index] = item;
        self.len = self.len + 1;
        proof {
            broadcast use vstd::array::group_array_axioms;

            assert(self@ =~= old(self)@.push(item));
        }
    }

    /// A well-formed inline vector never holds more items than its capacity.
    pub proof fn lemma_within_capacity(self)
        requires
            self.canonical(),
        ensures
            self@.len() <= N,
    {
    }

    /// The item at `index`, which must be one of the active items.
    pub fn index(&self, index: usize) -> (item: &T)
        requires
            self.canonical(),
            index < self@.len(),
        ensures
            *item == self@[index as int],
    {
        proof {
            broadcast use vstd::array::group_array_axioms;

        }
        &self.items[index]
    }

    /// The active items.
    pub fn as_slice(&self) -> (items: &[T])
        requires
            self.canonical(),
        ensures
            items@ == self@,
    {
        proof {
            broadcast use vstd::array::group_array_axioms;

        }
        let all: &[T] = self.items.as_slice();
        vstd::slice::slice_subrange(all, 0, self.len as usize)
    }
}

impl<T: ShaderData, const N: usize> Default for InlineVec<T, N> {
    /// An empty vector.
    fn default() -> (empty: Self)
        ensures
            empty@ == Seq::<T>::empty(),
            empty.canonical(),
    {
        Self::new()
    }
}

impl<T: ShaderData, const N: usize> ShaderData for InlineVec<T, N> {
    open spec fn word_count() -> nat {
        1 + (N as nat) * T::word_count()
    }

    closed spec fn zero_value() -> Self {
        InlineVec { len: 0, items: vstd::array::spec_array_fill_for_copy_type(T::zero_value()) }
    }

    closed spec fn decode(words: Seq<u32>) -> Self {
        choose|v: Self| v.len == Self::decoded_len(words) && v.items@ == Self::decoded_items(words)
    }

    closed spec fn canonical(self) -> bool {
        &&& self.len as int <= N
        &&& forall|i: int| 0 <= i < self.len ==> (#[trigger] self.items@[i]).canonical()
        &&& forall|i: int| self.len <= i < N ==> #[trigger] self.items@[i] == T::zero_value()
    }

    fn words() -> (count: usize) {
        if N == 0 {
            1
        } else {
            proof {
                assert(T::word_count() <= N * T::word_count()) by (nonlinear_arith)
                    requires
                        N >= 1,
                ;
            }
            1 + N * T::words()
        }
    }

    fn zero() -> (zero: Self) {
        InlineVec { len: 0, items: vstd::array::array_fill_for_copy_types(T::zero()) }
    }

    fn read_unchecked(words: &[u32], offset: usize) -> (value: Self) {
        let ghost rec = record(words@, offset as int, Self::word_count());
        let total = words.len();
        let stored = u32::read_unchecked(words, offset);
        let len: u32 = if (stored as usize) <= N {
            stored
        } else {
            N as u32
        };
        assert(len == Self::decoded_len(rec));
        let mut items: [T; N] = vstd::array::array_fill_for_copy_types(T::zero());
        let mut index: usize = 0;
        while index < len as usize
            invariant
                offset + 1 + N * T::word_count() <= words@.len(),
                words@.len() == total,
                rec == record(words@, offset as int, Self::word_count()),
                len == Self::decoded_len(rec),
                len as int <= N,
                index <= len,
                forall|i: int| 0 <= i < index ==> #[trigger] items@[i] == T::decode(Self::item_record(rec, i)),
                forall|i: int| 0 <= i < index ==> (#[trigger] items@[i]).canonical(),
                forall|i: int| index <= i < N ==> #[trigger] items@[i] == T::zero_value(),
            decreases len - index,
        {
            proof {
                broadcast use vstd::array::group_array_axioms;

                lemma_item_record(index as int, N as int, T::word_count() as int);
                assert(T::word_count() <= N * T::word_count()) by (nonlinear_arith)
                    requires
                        N >= 1,
                ;
            }
            let start = offset + 1 + index * T::words();
            let item = T::read_unchecked(words, start);
            proof {
                assert(record(words@, start as int, T::word_count()) =~= Self::item_record(rec, index as int));
            }
            items[index] = item;
            index += 1;
        }
        let value = InlineVec { len, items };
        proof {
            broadcast use vstd::array::group_array_axioms;

            assert(value.items@ =~= Self::decoded_items(rec));
            value.lemma_decode(rec);
        }
        value
    }

    fn write(self, words: &mut [u32], offset: usize) {
        let ghost before = words@;
        let total = words.len();
        self.len.write(words, offset);
        let mut index: usize = 0;
        while index < self.len as usize
            invariant
                self.canonical(),
                offset + 1 + N * T::word_count() <= words@.len(),
                words@.len() == total,
                unchanged_outside(before, words@, offset as int, Self::word_count()),
                words@[offset as int] == self.len,
                index <= self.len,
                forall|i: int|
                    0 <= i < index ==> T::decode(
                        #[trigger] Self::item_record(record(words@, offset as int, Self::word_count()), i),
                    ) == self.items@[i],
            decreases self.len - index,
        {
            proof {
                broadcast use vstd::array::group_array_axioms;

                lemma_item_record(index as int, N as int, T::word_count() as int);
                assert(T::word_count() <= N * T::word_count()) by (nonlinear_arith)
                    requires
                        N >= 1,
                ;
            }
            let ghost earlier = words@;
            let start = offset + 1 + index * T::words();
            self.items[index].write(words, start);
            proof {
                let rec = record(words@, offset as int, Self::word_count());
                let old_rec = record(earlier, offset as int, Self::word_count());
                assert forall|i: int| 0 <= i < index + 1 implies T::decode(
                    #[trigger] Self::item_record(rec, i),
                ) == self.items@[i] by {
                    if i < index {
                        lemma_items_apart(i, index as int, T::word_count() as int);
                        lemma_item_record(i, N as int, T::word_count() as int);
                        assert(Self::item_record(rec, i) =~= Self::item_record(old_rec, i));
                    } else {
                        assert(Self::item_record(rec, i) =~= record(words@, start as int, T::word_count()));
                    }
                }
            }
            index += 1;
        }
        proof {
            broadcast use vstd::array::group_array_axioms;

            let rec = record(words@, offset as int, Self::word_count());
            assert(rec[0] == self.len);
            assert(self.items@ =~= Self::decoded_items(rec));
            self.lemma_decode(rec);
        }
    }
}

/// The record of element `index` inside a complete array record.
pub open spec fn element_record<T: ShaderData>(words: Seq<u32>, index: int) -> Seq<u32> {
    record(words, index * T::word_count(), T::word_count())
}

/// The elements an array record decodes to, each from its own record.
pub open spec fn decoded_elements<T: ShaderData>(words: Seq<u32>, count: nat) -> Seq<T> {
    Seq::new(count, |i: int| T::decode(element_record::<T>(words, i)))
}

proof fn lemma_decode_array<T: ShaderData, const N: usize>(value: [T; N], words: Seq<u32>)
    requires
        value@ == decoded_elements::<T>(words, N as nat),
    ensures
        <[T; N] as ShaderData>::decode(words) == value,
{
    let chosen = <[T; N] as ShaderData>::decode(words);
    assert(exists|v: [T; N]| v@ == decoded_elements::<T>(words, N as nat));
    broadcast use vstd::array::axiom_array_ext_equal;

    assert(chosen =~= value);
}

impl<T: ShaderData, const N: usize> ShaderData for [T; N] {
    open spec fn word_count() -> nat {
        (N as nat) * T::word_count()
    }

    open spec fn zero_value() -> Self {
        vstd::array::spec_array_fill_for_copy_type(T::zero_value())
    }

    open spec fn decode(words: Seq<u32>) -> Self {
        choose|v: Self| v@ == decoded_elements::<T>(words, N as nat)
    }

    open spec fn canonical(self) -> bool {
        forall|i: int| 0 <= i < N ==> (#[trigger] self@[i]).canonical()
    }

    fn words() -> (count: usize) {
        if N == 0 {
            0
        } else {
            proof {
                assert(T::word_count() <= N * T::word_count()) by (nonlinear_arith)
                    requires
                        N >= 1,
                ;
            }
            N * T::words()
        }
    }

    fn zero() -> (zero: Self) {
        let zero: [T; N] = vstd::array::array_fill_for_copy_types(T::zero());
        proof {
            broadcast use vstd::array::group_array_axioms;

        }
        zero
    }

    fn read_unchecked(words: &[u32], offset: usize) -> (value: Self) {
        let ghost rec = record(words@, offset as int, Self::word_count());
        let total = words.len();
        let mut values: [T; N] = vstd::array::array_fill_for_copy_types(T::zero());
        let mut index: usize = 0;
        while index < N
            invariant
                offset + N * T::word_count() <= words@.len(),
                words@.len() == total,
                rec == record(words@, offset as int, Self::word_count()),
                index <= N,
                forall|i: int|
                    0 <= i < index ==> #[trigger] values@[i] == T::decode(element_record::<T>(rec, i)),
                forall|i: int| 0 <= i < index ==> (#[trigger] values@[i]).canonical(),
            decreases N - index,
        {
            proof {
                broadcast use vstd::array::group_array_axioms;

                lemma_item_record(index as int, N as int, T::word_count() as int);
                assert(T::word_count() <= N * T::word_count()) by (nonlinear_arith)
                    requires
                        N >= 1,
                ;
            }
            let start = offset + index * T::words();
            let item = T::read_unchecked(words, start);
            proof {
                assert(record(words@, start as int, T::word_count()) =~= element_record::<T>(
                    rec,
                    index as int,
                ));
            }
            values[index] = item;
            index += 1;
        }
        proof {
            broadcast use vstd::array::group_array_axioms;

            assert(values@ =~= decoded_elements::<T>(rec, N as nat));
            lemma_decode_array(values, rec);
        }
        values
    }

    fn write(self, words: &mut [u32], offset: usize) {
        let ghost before = words@;
        let total = words.len();
        let mut index: usize = 0;
        proof {
            assert(words@ =~= before);
        }
        while index < N
            invariant
                self.canonical(),
                offset + N * T::word_count() <= words@.len(),
                words@.len() == total,
                unchanged_outside(before, words@, offset as int, Self::word_count()),
                index <= N,
                forall|i: int|
                    0 <= i < index ==> T::decode(
                        #[trigger] element_record::<T>(record(words@, offset as int, Self::word_count()), i),
                    ) == self@[i],
            decreases N - index,
        {
            proof {
                broadcast use vstd::array::group_array_axioms;

                lemma_item_record(index as int, N as int, T::word_count() as int);
                assert(T::word_count() <= N * T::word_count()) by (nonlinear_arith)
                    requires
                        N >= 1,
                ;
            }
            let ghost earlier = words@;
            let start = offset + index * T::words();
            self[index].write(words, start);
            proof {
                let rec = record(words@, offset as int, Self::word_count());
                let old_rec = record(earlier, offset as int, Self::word_count());
                assert forall|i: int| 0 <= i < index + 1 implies T::decode(
                    #[trigger] element_record::<T>(rec, i),
                ) == self@[i] by {
                    if i < index {
                        lemma_items_apart(i, index as int, T::word_count() as int);
                        lemma_item_record(i, N as int, T::word_count() as int);
                        assert(element_record::<T>(rec, i) =~= element_record::<T>(old_rec, i));
                    } else {
                        assert(element_record::<T>(rec, i) =~= record(words@, start as int, T::word_count()));
                    }
                }
            }
            index += 1;
        }
        proof {
            broadcast use vstd::array::group_array_axioms;

            let rec = record(words@, offset as int, Self::word_count());
            assert(self@ =~= decoded_elements::<T>(rec, N as nat));
            lemma_decode_array(self, rec);
        }
    }
}

} // verus!
