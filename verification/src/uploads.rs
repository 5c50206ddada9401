//! Bookkeeping of a GPU storage buffer that words are uploaded into: when it must be
//! reallocated, and which words each upload sends.  The device calls themselves are made by
//! the renderer, which performs the transfers planned here.
use crate::data::{record, ShaderData};
use vstd::prelude::*;

verus! {

/// Whether a number is a power of two.
pub open spec fn power_of_two(n: int) -> bool
    decreases n,
{
    if n <= 0 {
        false
    } else if n == 1 {
        true
    } else {
        n % 2 == 0 && power_of_two(n / 2)
    }
}

/// The smallest power of two that is at least `n`, as `u64::next_power_of_two` gives it.
pub open spec fn next_power(n: int, p: int) -> bool {
    power_of_two(p) && p >= n && (p == 1 || p / 2 < n)
}

/// What the renderer does to the device buffer: replace it by a new one of `reallocate` bytes
/// first, if set; then write the words `from..to` of the source at word `from`.
#[derive(Clone, Copy, Debug, PartialEq, Eq, Structural)]
pub struct Transfer {
    pub reallocate: Option<u64>,
    pub from: usize,
    pub to: usize,
}

/// A storage buffer's bookkeeping: the size of the device buffer in bytes, the words last
/// staged for a whole upload, and how many words of an append-only arena are on the device.
pub struct UploadBuffer {
    pub capacity: u64,
    pub words: Vec<u32>,
    pub uploaded: usize,
}

impl UploadBuffer {
    /// Whether the arena words said to be on the device fit in it.
    pub open spec fn wf(&self) -> bool {
        self.uploaded * 4 <= self.capacity
    }

    /// A buffer with a small device buffer and nothing staged or uploaded.
    pub fn new() -> (buffer: Self)
        ensures
            buffer.wf(),
            buffer.capacity == 4,
            buffer.words@.len() == 0,
            buffer.uploaded == 0,
    {
        UploadBuffer { capacity: 4, words: Vec::new(), uploaded: 0 }
    }

    /// Makes room for `count` words: a device buffer too small is replaced by one of the
    /// next power of two of bytes, and then holds nothing of the arena.
    fn grow(&mut self, count: usize) -> (reallocate: Option<u64>)
        requires
            count * 4 <= 0x8000_0000_0000_0000,
        ensures
            match reallocate {
                Some(size) => old(self).capacity < count * 4 && next_power((count * 4) as int, size as int)
                    && final(self).capacity == size && final(self).uploaded == 0,
                None => old(self).capacity >= count * 4 && final(self).capacity == old(self).capacity
                    && final(self).uploaded == old(self).uploaded,
            },
            final(self).words == old(self).words,
    {
        let size = count as u64 * 4;
        if self.capacity < size {
            let new_size = next_power_of_two(size);
            self.capacity = new_size;
            self.uploaded = 0;
            Some(new_size)
        } else {
            None
        }
    }

    /// Uploads the new words of an append-only arena: after growing the device buffer if
    /// needed, the words past those already on the device (all of them after a reallocation)
    /// are written.  Nothing is sent when no word was added.
    pub fn upload_appended(&mut self, words: &[u32]) -> (transfer: Option<Transfer>)
        requires
            old(self).wf(),
            words@.len() >= old(self).uploaded,
            words@.len() * 4 <= 0x8000_0000_0000_0000,
        ensures
            final(self).wf(),
            final(self).uploaded == words@.len(),
            final(self).words == old(self).words,
            match transfer {
                None => words@.len() == old(self).uploaded && final(self).capacity == old(self).capacity,
                Some(t) => {
                    &&& words@.len() > old(self).uploaded
                    &&& t.to == words@.len()
                    &&& t.from == (if t.reallocate is Some {
                        0
                    } else {
                        old(self).uploaded
                    })
                    &&& match t.reallocate {
                        Some(size) => old(self).capacity < words@.len() * 4 && next_power((words@.len() * 4) as int,
                            size as int,
                        ) && final(self).capacity == size,
                        None => old(self).capacity >= words@.len() * 4 && final(self).capacity
                            == old(self).capacity,
                    }
                },
            },
    {
        if words.len() == self.uploaded {
            return None;
        }
        let reallocate = self.grow(words.len());
        let from = self.uploaded;
        self.uploaded = words.len();
        Some(Transfer { reallocate, from, to: words.len() })
    }

    /// Uploads all the staged words from the start, growing the device buffer if needed;
    /// nothing is written when there are none.
    pub fn flush(&mut self) -> (transfer: Transfer)
        requires
            old(self).words@.len() * 4 <= 0x8000_0000_0000_0000,
        ensures
            final(self).words == old(self).words,
            transfer.from == 0,
            transfer.to == old(self).words@.len(),
            match transfer.reallocate {
                Some(size) => old(self).capacity < old(self).words@.len() * 4 && next_power((old(self).words@.len() * 4) as int,
                    size as int,
                ) && final(self).capacity == size && final(self).uploaded == 0,
                None => old(self).capacity >= old(self).words@.len() * 4 && final(self).capacity
                    == old(self).capacity && final(self).uploaded == old(self).uploaded,
            },
    {
        let count = self.words.len();
        let reallocate = self.grow(count);
        Transfer { reallocate, from: 0, to: count }
    }

    /// Stages new words and uploads them, unless they are the words already staged.
    pub fn upload_if_changed(&mut self, words: &[u32]) -> (transfer: Option<Transfer>)
        requires
            words@.len() * 4 <= 0x8000_0000_0000_0000,
        ensures
            final(self).words@ == words@,
            transfer is None <==> old(self).words@ == words@,
            transfer is None ==> final(self).capacity == old(self).capacity && final(self).uploaded
                == old(self).uploaded,
            match transfer {
                Some(t) => t.from == 0 && t.to == words@.len() && match t.reallocate {
                    Some(size) => old(self).capacity < words@.len() * 4 && next_power((words@.len() * 4) as int,
                        size as int,
                    ) && final(self).capacity == size,
                    None => final(self).capacity == old(self).capacity,
                },
                None => true,
            },
    {
        if same_words(&self.words, words) {
            return None;
        }
        self.words.clear();
        let mut k: usize = 0;
        while k < words.len()
            invariant
                k <= words@.len(),
                self.words@ == words@.take(k as int),
                self.capacity == old(self).capacity,
                self.uploaded == old(self).uploaded,
            decreases words@.len() - k,
        {
            self.words.push(words[k]);
            k += 1;
            assert(words@.take(k as int) =~= words@.take(k - 1).push(words@[k - 1]));
        }
        assert(words@.take(k as int) =~= words@);
        Some(self.flush())
    }

    /// Stages one value as the whole of the buffer and uploads it.
    pub fn upload<T: ShaderData>(&mut self, value: T) -> (transfer: Transfer)
        requires
            value.canonical(),
            T::word_count() <= usize::MAX,
            T::word_count() * 4 <= 0x8000_0000_0000_0000,
        ensures
            final(self).words@.len() == T::word_count(),
            T::decode(record(final(self).words@, 0, T::word_count())) == value,
            transfer.from == 0,
            transfer.to == T::word_count(),
            match transfer.reallocate {
                Some(size) => old(self).capacity < T::word_count() * 4 && next_power((T::word_count() * 4) as int,
                    size as int,
                ) && final(self).capacity == size,
                None => final(self).capacity == old(self).capacity,
            },
    {
        let count = T::words();
        self.words.resize(count, 0);
        value.write(self.words.as_mut_slice(), 0);
        self.flush()
    }
}

/// Whether the staged words are the given ones.
fn same_words(staged: &Vec<u32>, words: &[u32]) -> (same: bool)
    ensures
        same == (staged@ == words@),
{
    if staged.len() != words.len() {
        return false;
    }
    let mut k: usize = 0;
    while k < words.len()
        invariant
            staged@.len() == words@.len(),
            k <= words@.len(),
            forall|i: int| 0 <= i < k ==> staged@[i] == words@[i],
        decreases words@.len() - k,
    {
        if staged[k] != words[k] {
            return false;
        }
        k += 1;
    }
    assert(staged@ =~= words@);
    true
}

/// The smallest power of two at least `n`.
fn next_power_of_two(n: u64) -> (p: u64)
    requires
        n <= 0x8000_0000_0000_0000,
    ensures
        next_power(n as int, p as int),
{
    let mut p: u64 = 1;
    while p < n
        invariant
            power_of_two(p as int),
            p == 1 || p / 2 < n,
            n <= 0x8000_0000_0000_0000,
        decreases 0x1_0000_0000_0000_0000 - p as int,
    {
        proof {
            lemma_double_power(p as int);
        }
        p = p * 2;
    }
    p
}

/// Doubling a power of two gives a power of two.
proof fn lemma_double_power(p: int)
    requires
        power_of_two(p),
    ensures
        power_of_two(p * 2),
{
    assert((p * 2) % 2 == 0);
    assert((p * 2) / 2 == p);
}

/// What the device buffer holds after a transfer, as far as it is known: a reallocated
/// buffer starts out unknown; then the words `from..to` of the source are written at `from`.
pub open spec fn after_transfer(device: Seq<u32>, transfer: Transfer, source: Seq<u32>) -> Seq<u32> {
    let kept = if transfer.reallocate is Some {
        Seq::empty()
    } else {
        device
    };
    kept.take(transfer.from as int) + source.subrange(transfer.from as int, transfer.to as int)
}

/// An append-only arena stays on the device: when the device holds the words uploaded so far
/// and the arena only grew, then after the transfer that `upload_appended` plans it holds the
/// whole arena.
pub proof fn lemma_arena_on_device(device: Seq<u32>, uploaded: int, words: Seq<u32>, transfer: Transfer)
    requires
        0 <= uploaded <= words.len(),
        uploaded <= device.len(),
        device.take(uploaded) == words.take(uploaded),
        transfer.to == words.len(),
        transfer.from == (if transfer.reallocate is Some {
            0
        } else {
            uploaded
        }),
    ensures
        after_transfer(device, transfer, words) == words,
{
    if transfer.reallocate is Some {
        assert(after_transfer(device, transfer, words) =~= words);
    } else {
        assert(device.take(uploaded) + words.subrange(uploaded, words.len() as int) =~= words);
    }
}

} // verus!
