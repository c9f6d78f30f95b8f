//! Per-file completion bitmap kept by a downloading client.
use vstd::prelude::*;

verus! {

/// Whether bit `j` of word `w` is set.
pub open spec fn bit_set(w: u64, j: u64) -> bool {
    (w >> j) & 1u64 == 1u64
}

/// Number of chunks of a file of `size` bytes cut into `chunk_size`-byte chunks.
pub open spec fn chunk_count(size: nat, chunk_size: nat) -> nat
    recommends
        chunk_size > 0,
{
    if chunk_size == 0 {
        0
    } else {
        ((size + chunk_size - 1) as nat) / chunk_size
    }
}

/// Number of 64-bit words needed to hold `n` bits.
pub open spec fn word_count(n: nat) -> nat {
    (n + 63) / 64
}

/// Whether the bitmap of a file of `size` bytes in `chunk_size`-byte chunks
/// can be held in memory.
pub open spec fn bitmap_fits(size: nat, chunk_size: nat) -> bool {
    word_count(chunk_count(size, chunk_size)) <= usize::MAX
}

/// The least index whose flag is clear, if any.
pub open spec fn first_clear(s: Seq<bool>) -> Option<nat> {
    if exists|i: int| 0 <= i < s.len() && !s[i] {
        let i = choose|i: int| 0 <= i < s.len() && !s[i] && forall|j: int| 0 <= j < i ==> s[j];
        Some(i as nat)
    } else {
        None
    }
}

/// Whether every flag is set.
pub open spec fn all_set(s: Seq<bool>) -> bool {
    forall|i: int| 0 <= i < s.len() ==> s[i]
}

proof fn lemma_bit_of_or(w: u64, j: u64, k: u64)
    requires
        j < 64,
        k < 64,
    ensures
        bit_set(w | (1u64 << j), k) == (k == j || bit_set(w, k)),
{
    assert(((w | (1u64 << j)) >> k) & 1u64 == 1u64 <==> (k == j || (w >> k) & 1u64 == 1u64))
        by (bit_vector)
        requires
            j < 64,
            k < 64,
    ;
}

proof fn lemma_bit_of_and_not(w: u64, j: u64, k: u64)
    requires
        j < 64,
        k < 64,
    ensures
        bit_set(w & !(1u64 << j), k) == (k != j && bit_set(w, k)),
{
    assert(((w & !(1u64 << j)) >> k) & 1u64 == 1u64 <==> (k != j && (w >> k) & 1u64 == 1u64))
        by (bit_vector)
        requires
            j < 64,
            k < 64,
    ;
}

proof fn lemma_mask_test(w: u64, j: u64)
    requires
        j < 64,
    ensures
        (w & (1u64 << j) != 0) == bit_set(w, j),
{
    assert((w & (1u64 << j) != 0u64) <==> ((w >> j) & 1u64 == 1u64)) by (bit_vector)
        requires
            j < 64,
    ;
}

proof fn lemma_zero_word(j: u64)
    requires
        j < 64,
    ensures
        !bit_set(0u64, j),
{
    assert((0u64 >> j) & 1u64 != 1u64) by (bit_vector);
}

proof fn lemma_full_word(w: u64, j: u64)
    requires
        j < 64,
        w == !0u64,
    ensures
        bit_set(w, j),
{
    assert(w == !0u64 ==> (w >> j) & 1u64 == 1u64) by (bit_vector)
        requires
            j < 64,
    ;
}

/// Number of chunks of a file of `size` bytes cut into `chunk_size`-byte chunks.
pub fn count_chunks(size: u64, chunk_size: u16) -> (r: u64)
    requires
        chunk_size > 0,
    ensures
        r == chunk_count(size as nat, chunk_size as nat),
{
    let cs = chunk_size as u64;
    proof {
        assert(size % cs != 0 ==> size / cs < 0xffff_ffff_ffff_ffffu64) by (nonlinear_arith)
            requires
                cs > 0,
        {
            if size % cs != 0 {
                assert(cs >= 2);
            }
        }
    }
    let n: u64 = size / cs + if size % cs == 0 { 0 } else { 1 };
    proof {
        assert(n == chunk_count(size as nat, cs as nat)) by (nonlinear_arith)
            requires
                cs > 0,
                n == size / cs + if size % cs == 0 { 0int } else { 1int },
        {
        }
    }
    n
}

/// The state of the chunks of a file, packed into a bitmap.
///
/// Chunk `i` is bit `i % 64` (least significant first) of word `i / 64`.
/// Bits at or past `num_chunks` stay clear.
#[derive(Debug, Clone)]
pub struct ChunkState {
    bitmap: Vec<u64>,
    /// The number of chunks in the file.
    pub num_chunks: u64,
}

impl View for ChunkState {
    type V = Seq<bool>;

    /// One flag per chunk: whether it has been received.
    closed spec fn view(&self) -> Seq<bool> {
        Seq::new(
            self.num_chunks as nat,
            |i: int| bit_set(self.bitmap@[i / 64], (i % 64) as u64),
        )
    }
}

impl ChunkState {
    /// The bitmap has exactly the words needed and no stray bit past the end.
    pub closed spec fn wf(&self) -> bool {
        &&& self.bitmap@.len() == word_count(self.num_chunks as nat)
        &&& forall|i: int|
            self.num_chunks <= i < self.bitmap@.len() * 64 ==> !bit_set(
                #[trigger] self.bitmap@[i / 64],
                (i % 64) as u64,
            )
    }

    /// The number of chunks in the file.
    pub fn len(&self) -> (r: u64)
        ensures
            r == self@.len(),
    {
        self.num_chunks
    }

    /// A state for a file of `size` bytes in chunks of `chunk_size` bytes,
    /// with no chunk received.
    pub fn from_file_size(size: u64, chunk_size: u16) -> (r: Self)
        requires
            chunk_size > 0,
            bitmap_fits(size as nat, chunk_size as nat),
        ensures
            r.wf(),
            r@.len() == chunk_count(size as nat, chunk_size as nat),
            r@ == Seq::new(r@.len(), |i: int| false),
    {
        let num_chunks = count_chunks(size, chunk_size);
        let num_words: u64 = num_chunks / 64 + if num_chunks % 64 == 0 { 0 } else { 1 };
        assert(num_words == word_count(num_chunks as nat));
        let bitmap: Vec<u64> = vec![0u64; num_words as usize];
        let r = ChunkState { bitmap, num_chunks };
        proof {
            assert forall|i: int| 0 <= i < r.bitmap@.len() * 64 implies !bit_set(
                #[trigger] r.bitmap@[i / 64],
                (i % 64) as u64,
            ) by {
                lemma_zero_word((i % 64) as u64);
            }
            assert(r@ =~= Seq::new(r.num_chunks as nat, |i: int| false));
        }
        r
    }

    /// Whether chunk `idx` has been received.
    pub fn get(&self, idx: u64) -> (r: bool)
        requires
            self.wf(),
            idx < self@.len(),
        ensures
            r == self@[idx as int],
    {
        let words = self.bitmap.len();
        proof {
            lemma_div_mod_64(idx as int);
            assert(idx / 64 < words);
        }
        let w = (idx / 64) as usize;
        let word = self.bitmap[w];
        let mask: u64 = 1u64 << (idx % 64);
        proof {
            assert(w as int == idx as int / 64);
            assert(self@[idx as int] == bit_set(self.bitmap@[w as int], idx % 64));
            lemma_mask_test(word, idx % 64);
        }
        word & mask != 0
    }

    /// Record whether chunk `idx` has been received.
    pub fn set(&mut self, idx: u64, val: bool)
        requires
            old(self).wf(),
            idx < old(self)@.len(),
        ensures
            final(self).wf(),
            final(self)@ == old(self)@.update(idx as int, val),
    {
        let words = self.bitmap.len();
        proof {
            lemma_div_mod_64(idx as int);
            assert(idx / 64 < words);
        }
        let w = (idx / 64) as usize;
        let j = idx % 64;
        assert(w as int == idx as int / 64 && j as int == idx as int % 64);
        let mask: u64 = 1u64 << j;
        let old_word = self.bitmap[w];
        let new_word = if val {
            old_word | mask
        } else {
            old_word & !mask
        };
        self.bitmap.set(w, new_word);
        proof {
            let old_map = old(self).bitmap@;
            let new_map = self.bitmap@;
            assert forall|k: u64| k < 64 implies bit_set(new_word, k) == (if k == j {
                val
            } else {
                bit_set(old_word, k)
            }) by {
                if val {
                    lemma_bit_of_or(old_word, j, k);
                } else {
                    lemma_bit_of_and_not(old_word, j, k);
                }
            }
            assert forall|i: int|
                self.num_chunks <= i < new_map.len() * 64 implies !bit_set(
                #[trigger] new_map[i / 64],
                (i % 64) as u64,
            ) by {
                assert(old_map[i / 64] == old_map[i / 64]);
                if i / 64 == w as int {
                    assert(i % 64 != j as int);
                }
            }
            assert(self@ =~= old(self)@.update(idx as int, val)) by {
                assert forall|i: int| 0 <= i < self@.len() implies self@[i] == old(self)@.update(
                    idx as int,
                    val,
                )[i] by {
                    lemma_div_mod_64(i);
                    lemma_div_mod_64(idx as int);
                    assert(self@[i] == bit_set(new_map[i / 64], (i % 64) as u64));
                    assert(old(self)@[i] == bit_set(old_map[i / 64], (i % 64) as u64));
                    if i / 64 == w as int {
                        assert((i == idx as int) == (i % 64 == j as int));
                    }
                }
            }
        }
    }

    /// The first chunk that has not been received, or `None` when all have.
    pub fn get_zero(&self) -> (r: Option<u64>)
        requires
            self.wf(),
        ensures
            r == (match first_clear(self@) {
                Some(i) => Some(i as u64),
                None => None::<u64>,
            }),
    {
        let n = self.bitmap.len();
        let mut i: usize = 0;
        while i < n
            invariant
                self.wf(),
                n == self.bitmap@.len(),
                0 <= i <= n,
                forall|k: int| 0 <= k < i * 64 && k < self.num_chunks ==> #[trigger] self@[k],
            decreases n - i,
        {
            let word = self.bitmap[i];
            if word != !0u64 {
                let mut j: u64 = 0;
                while j < 64
                    invariant
                        self.wf(),
                        n == self.bitmap@.len(),
                        0 <= i < n,
                        word == self.bitmap@[i as int],
                        j <= 64,
                        word != !0u64,
                        forall|k: int|
                            0 <= k < i * 64 + j && k < self.num_chunks ==> #[trigger] self@[k],
                        forall|t: u64| t < j ==> bit_set(word, t),
                    decreases 64 - j,
                {
                    let mask: u64 = 1u64 << j;
                    proof {
                        lemma_mask_test(word, j);
                    }
                    if word & mask == 0 {
                        let idx: u64 = (i as u64) * 64 + j;
                        proof {
                            self.lemma_clear_at(i as int, j);
                        }
                        if idx >= self.num_chunks {
                            proof {
                                assert(forall|k: int| 0 <= k < self@.len() ==> #[trigger] self@[k]);
                                self.lemma_first_clear_none();
                            }
                            return None;
                        }
                        proof {
                            self.lemma_first_clear_at(idx as int);
                        }
                        return Some(idx);
                    }
                    proof {
                        assert forall|k: int|
                            0 <= k < i * 64 + j + 1 && k < self.num_chunks implies #[trigger] self@[k] by {
                            if k == i * 64 + j {
                                assert(k / 64 == i as int && k % 64 == j as int);
                            }
                        }
                    }
                    j = j + 1;
                }
                proof {
                    assert(forall|t: u64| t < 64 ==> bit_set(word, t));
                    lemma_all_bits_full(word);
                }
            } else {
                proof {
                    assert forall|k: int|
                        0 <= k < (i + 1) * 64 && k < self.num_chunks implies #[trigger] self@[k] by {
                        if k >= i * 64 {
                            assert(k / 64 == i as int);
                            lemma_full_word(word, (k % 64) as u64);
                        }
                    }
                }
            }
            i = i + 1;
        }
        proof {
            assert(self.num_chunks <= n * 64);
            assert(forall|k: int| 0 <= k < self@.len() ==> #[trigger] self@[k]);
            self.lemma_first_clear_none();
        }
        None
    }

    /// Whether every chunk has been received.
    pub fn is_complete(&self) -> (r: bool)
        requires
            self.wf(),
        ensures
            r == all_set(self@),
    {
        let z = self.get_zero();
        proof {
            lemma_first_clear_spec(self@);
        }
        z.is_none()
    }

    proof fn lemma_clear_at(&self, i: int, j: u64)
        requires
            self.wf(),
            0 <= i < self.bitmap@.len(),
            j < 64,
            !bit_set(self.bitmap@[i], j),
        ensures
            i * 64 + j < self.num_chunks ==> !self@[i * 64 + j],
    {
        let k = i * 64 + j;
        assert(k / 64 == i && k % 64 == j as int);
    }

    proof fn lemma_first_clear_none(&self)
        requires
            all_set(self@),
        ensures
            first_clear(self@) == None::<nat>,
    {
    }

    proof fn lemma_first_clear_at(&self, k: int)
        requires
            0 <= k < self@.len(),
            !self@[k],
            forall|t: int| 0 <= t < k ==> #[trigger] self@[t],
        ensures
            first_clear(self@) == Some(k as nat),
    {
        let s = self@;
        assert(exists|i: int| 0 <= i < s.len() && !s[i]);
        let c = choose|i: int| 0 <= i < s.len() && !s[i] && forall|j: int| 0 <= j < i ==> s[j];
        assert(c == k) by {
            if c < k {
                assert(s[c]);
            }
            if k < c {
                assert(s[k]);
            }
        }
    }
}

/// Once chunk `i` is marked as received, it reads as received and is no
/// longer the first missing chunk.
pub proof fn lemma_set_then_get(s: ChunkState, i: u64)
    requires
        s.wf(),
        i < s@.len(),
    ensures
        s@.update(i as int, true)[i as int],
        first_clear(s@.update(i as int, true)) != Some(i as nat),
{
    lemma_first_clear_spec(s@.update(i as int, true));
}

/// There is no missing chunk exactly when the file is complete.
pub proof fn lemma_no_zero_iff_complete(s: ChunkState)
    requires
        s.wf(),
    ensures
        (first_clear(s@) is None) == all_set(s@),
{
    lemma_first_clear_spec(s@);
}

/// `first_clear` names the least clear index, and is `None` exactly when all are set.
pub proof fn lemma_first_clear_spec(s: Seq<bool>)
    ensures
        first_clear(s) is None <==> all_set(s),
        first_clear(s) matches Some(i) ==> i < s.len() && !s[i as int] && forall|j: int|
            0 <= j < i ==> s[j],
{
    if exists|i: int| 0 <= i < s.len() && !s[i] {
        let w = choose|i: int| 0 <= i < s.len() && !s[i];
        lemma_least_clear_exists(s, w);
    }
}

proof fn lemma_least_clear_exists(s: Seq<bool>, w: int)
    requires
        0 <= w < s.len(),
        !s[w],
    ensures
        exists|i: int| 0 <= i < s.len() && !s[i] && forall|j: int| 0 <= j < i ==> s[j],
    decreases w,
{
    if forall|j: int| 0 <= j < w ==> s[j] {
    } else {
        let v = choose|j: int| 0 <= j < w && !s[j];
        lemma_least_clear_exists(s, v);
    }
}

proof fn lemma_all_bits_full(w: u64)
    requires
        forall|t: u64| t < 64 ==> bit_set(w, t),
    ensures
        w == !0u64,
{
    assert(bit_set(w, 0u64));
    assert(bit_set(w, 1u64));
    assert(bit_set(w, 2u64));
    assert(bit_set(w, 3u64));
    assert(bit_set(w, 4u64));
    assert(bit_set(w, 5u64));
    assert(bit_set(w, 6u64));
    assert(bit_set(w, 7u64));
    assert(bit_set(w, 8u64));
    assert(bit_set(w, 9u64));
    assert(bit_set(w, 10u64));
    assert(bit_set(w, 11u64));
    assert(bit_set(w, 12u64));
    assert(bit_set(w, 13u64));
    assert(bit_set(w, 14u64));
    assert(bit_set(w, 15u64));
    assert(bit_set(w, 16u64));
    assert(bit_set(w, 17u64));
    assert(bit_set(w, 18u64));
    assert(bit_set(w, 19u64));
    assert(bit_set(w, 20u64));
    assert(bit_set(w, 21u64));
    assert(bit_set(w, 22u64));
    assert(bit_set(w, 23u64));
    assert(bit_set(w, 24u64));
    assert(bit_set(w, 25u64));
    assert(bit_set(w, 26u64));
    assert(bit_set(w, 27u64));
    assert(bit_set(w, 28u64));
    assert(bit_set(w, 29u64));
    assert(bit_set(w, 30u64));
    assert(bit_set(w, 31u64));
    assert(bit_set(w, 32u64));
    assert(bit_set(w, 33u64));
    assert(bit_set(w, 34u64));
    assert(bit_set(w, 35u64));
    assert(bit_set(w, 36u64));
    assert(bit_set(w, 37u64));
    assert(bit_set(w, 38u64));
    assert(bit_set(w, 39u64));
    assert(bit_set(w, 40u64));
    assert(bit_set(w, 41u64));
    assert(bit_set(w, 42u64));
    assert(bit_set(w, 43u64));
    assert(bit_set(w, 44u64));
    assert(bit_set(w, 45u64));
    assert(bit_set(w, 46u64));
    assert(bit_set(w, 47u64));
    assert(bit_set(w, 48u64));
    assert(bit_set(w, 49u64));
    assert(bit_set(w, 50u64));
    assert(bit_set(w, 51u64));
    assert(bit_set(w, 52u64));
    assert(bit_set(w, 53u64));
    assert(bit_set(w, 54u64));
    assert(bit_set(w, 55u64));
    assert(bit_set(w, 56u64));
    assert(bit_set(w, 57u64));
    assert(bit_set(w, 58u64));
    assert(bit_set(w, 59u64));
    assert(bit_set(w, 60u64));
    assert(bit_set(w, 61u64));
    assert(bit_set(w, 62u64));
    assert(bit_set(w, 63u64));
    assert(w == !0u64) by (bit_vector)
        requires
            (w >> 0u64) & 1u64 == 1u64,
            (w >> 1u64) & 1u64 == 1u64,
            (w >> 2u64) & 1u64 == 1u64,
            (w >> 3u64) & 1u64 == 1u64,
            (w >> 4u64) & 1u64 == 1u64,
            (w >> 5u64) & 1u64 == 1u64,
            (w >> 6u64) & 1u64 == 1u64,
            (w >> 7u64) & 1u64 == 1u64,
            (w >> 8u64) & 1u64 == 1u64,
            (w >> 9u64) & 1u64 == 1u64,
            (w >> 10u64) & 1u64 == 1u64,
            (w >> 11u64) & 1u64 == 1u64,
            (w >> 12u64) & 1u64 == 1u64,
            (w >> 13u64) & 1u64 == 1u64,
            (w >> 14u64) & 1u64 == 1u64,
            (w >> 15u64) & 1u64 == 1u64,
            (w >> 16u64) & 1u64 == 1u64,
            (w >> 17u64) & 1u64 == 1u64,
            (w >> 18u64) & 1u64 == 1u64,
            (w >> 19u64) & 1u64 == 1u64,
            (w >> 20u64) & 1u64 == 1u64,
            (w >> 21u64) & 1u64 == 1u64,
            (w >> 22u64) & 1u64 == 1u64,
            (w >> 23u64) & 1u64 == 1u64,
            (w >> 24u64) & 1u64 == 1u64,
            (w >> 25u64) & 1u64 == 1u64,
            (w >> 26u64) & 1u64 == 1u64,
            (w >> 27u64) & 1u64 == 1u64,
            (w >> 28u64) & 1u64 == 1u64,
            (w >> 29u64) & 1u64 == 1u64,
            (w >> 30u64) & 1u64 == 1u64,
            (w >> 31u64) & 1u64 == 1u64,
            (w >> 32u64) & 1u64 == 1u64,
            (w >> 33u64) & 1u64 == 1u64,
            (w >> 34u64) & 1u64 == 1u64,
            (w >> 35u64) & 1u64 == 1u64,
            (w >> 36u64) & 1u64 == 1u64,
            (w >> 37u64) & 1u64 == 1u64,
            (w >> 38u64) & 1u64 == 1u64,
            (w >> 39u64) & 1u64 == 1u64,
            (w >> 40u64) & 1u64 == 1u64,
            (w >> 41u64) & 1u64 == 1u64,
            (w >> 42u64) & 1u64 == 1u64,
            (w >> 43u64) & 1u64 == 1u64,
            (w >> 44u64) & 1u64 == 1u64,
            (w >> 45u64) & 1u64 == 1u64,
            (w >> 46u64) & 1u64 == 1u64,
            (w >> 47u64) & 1u64 == 1u64,
            (w >> 48u64) & 1u64 == 1u64,
            (w >> 49u64) & 1u64 == 1u64,
            (w >> 50u64) & 1u64 == 1u64,
            (w >> 51u64) & 1u64 == 1u64,
            (w >> 52u64) & 1u64 == 1u64,
            (w >> 53u64) & 1u64 == 1u64,
            (w >> 54u64) & 1u64 == 1u64,
            (w >> 55u64) & 1u64 == 1u64,
            (w >> 56u64) & 1u64 == 1u64,
            (w >> 57u64) & 1u64 == 1u64,
            (w >> 58u64) & 1u64 == 1u64,
            (w >> 59u64) & 1u64 == 1u64,
            (w >> 60u64) & 1u64 == 1u64,
            (w >> 61u64) & 1u64 == 1u64,
            (w >> 62u64) & 1u64 == 1u64,
            (w >> 63u64) & 1u64 == 1u64,
    ;
}

proof fn lemma_div_mod_64(i: int)
    requires
        i >= 0,
    ensures
        i == (i / 64) * 64 + i % 64,
        0 <= i % 64 < 64,
{
    vstd::arithmetic::div_mod::lemma_fundamental_div_mod(i, 64);
}

} // verus!
