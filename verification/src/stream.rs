//! Content streams: the lazily regenerated byte sequences behind every file.
//!
//! A file's bytes are never stored.  They are a pure function of the 64-bit
//! seed captured at build time and of the file's kind: a binary stream pulls
//! fixed-size blocks of pseudo-random bytes, a text stream pulls batches of
//! pseudo-lorem words.  Both are deterministic per seed, so a stream can be
//! rebuilt from scratch at any time and always yields the same bytes from
//! position zero -- which is what makes the seek-free re-derivation of the
//! serving path correct.

use rand::RngCore;
use vstd::math::min;
use vstd::prelude::*;

use crate::random::fresh_small_rng;

verus! {

/// How many bytes one pull takes from a binary stream's engine.
pub const CHUNK_BYTES: usize = 1024;

/// How many pseudo-lorem words one pull takes from a text stream's engine.
pub const CHUNK_WORDS: usize = 1024;

/// The `k`-th block of the binary stream with the given seed: the bytes of
/// the `k+1`-th fixed-size fill taken from a generator seeded with `seed`.
pub uninterp spec fn bin_chunk(seed: u64, k: nat) -> Seq<u8>;

/// The `k`-th batch of the text stream with the given seed: the bytes of
/// the `k+1`-th batch of pseudo-lorem words taken from a generator seeded
/// with `seed`.
pub uninterp spec fn text_chunk(seed: u64, k: nat) -> Seq<u8>;

/// The `k`-th block of a stream, guarded so that, whatever the two block
/// functions above denote, a binary block always has exactly
/// [`CHUNK_BYTES`] bytes and a text block always has at least one byte --
/// which the pull wrappers guarantee of every block actually produced.
pub open spec fn chunk_at(seed: u64, binary: bool, k: nat) -> Seq<u8> {
    if binary {
        if bin_chunk(seed, k).len() == CHUNK_BYTES as nat {
            bin_chunk(seed, k)
        } else {
            Seq::new(CHUNK_BYTES as nat, |i: int| 0u8)
        }
    } else {
        if text_chunk(seed, k).len() >= 1 {
            text_chunk(seed, k)
        } else {
            seq![0u8]
        }
    }
}

/// The first `k` blocks of a stream, concatenated.
pub open spec fn chunks_concat(seed: u64, binary: bool, k: nat) -> Seq<u8>
    decreases k,
{
    if k == 0 {
        Seq::<u8>::empty()
    } else {
        chunks_concat(seed, binary, (k - 1) as nat) + chunk_at(seed, binary, (k - 1) as nat)
    }
}

/// The byte at position `i` of a stream.  The first `i + 1` blocks always
/// cover position `i`, because every block holds at least one byte.
pub open spec fn stream_at(seed: u64, binary: bool, i: nat) -> u8 {
    chunks_concat(seed, binary, i + 1)[i as int]
}

/// The `n` bytes of a stream starting at position `p`.
pub open spec fn stream_seg(seed: u64, binary: bool, p: nat, n: nat) -> Seq<u8> {
    Seq::new(n, |i: int| stream_at(seed, binary, (p + i) as nat))
}

/// The first `n` bytes of a stream.
pub open spec fn stream_take(seed: u64, binary: bool, n: nat) -> Seq<u8> {
    stream_seg(seed, binary, 0, n)
}

/// Every block holds at least one byte; a binary block holds exactly
/// [`CHUNK_BYTES`].
pub proof fn lemma_chunk_at_len(seed: u64, binary: bool, k: nat)
    ensures
        chunk_at(seed, binary, k).len() >= 1,
        binary ==> chunk_at(seed, binary, k).len() == CHUNK_BYTES as nat,
{
}

/// The first `k` blocks cover at least `k` bytes.
pub proof fn lemma_concat_len(seed: u64, binary: bool, k: nat)
    ensures
        chunks_concat(seed, binary, k).len() >= k,
    decreases k,
{
    if k > 0 {
        lemma_concat_len(seed, binary, (k - 1) as nat);
        lemma_chunk_at_len(seed, binary, (k - 1) as nat);
    }
}

/// A longer concatenation is never shorter.
pub proof fn lemma_concat_len_mono(seed: u64, binary: bool, j: nat, k: nat)
    requires
        j <= k,
    ensures
        chunks_concat(seed, binary, j).len() <= chunks_concat(seed, binary, k).len(),
    decreases k,
{
    if j < k {
        lemma_concat_len_mono(seed, binary, j, (k - 1) as nat);
    }
}

/// A shorter concatenation is a prefix of a longer one.
pub proof fn lemma_concat_prefix(seed: u64, binary: bool, j: nat, k: nat)
    requires
        j <= k,
    ensures
        chunks_concat(seed, binary, j)
            == chunks_concat(seed, binary, k).take(chunks_concat(seed, binary, j).len() as int),
    decreases k,
{
    let sj = chunks_concat(seed, binary, j);
    let l = sj.len() as int;
    if j < k {
        lemma_concat_prefix(seed, binary, j, (k - 1) as nat);
        lemma_concat_len_mono(seed, binary, j, (k - 1) as nat);
        let prev = chunks_concat(seed, binary, (k - 1) as nat);
        let cur = chunks_concat(seed, binary, k);
        assert forall|idx: int| 0 <= idx < l implies cur.take(l)[idx] == sj[idx] by {
            assert(cur[idx] == prev[idx]);
            assert(sj[idx] == prev.take(l)[idx]);
        }
        assert(sj =~= cur.take(l));
    } else {
        assert(sj =~= chunks_concat(seed, binary, k).take(l));
    }
}

/// Within range, any concatenation agrees with the stream's bytes.
pub proof fn lemma_concat_at(seed: u64, binary: bool, k: nat, i: nat)
    requires
        i < chunks_concat(seed, binary, k).len(),
    ensures
        chunks_concat(seed, binary, k)[i as int] == stream_at(seed, binary, i),
{
    if i + 1 <= k {
        lemma_concat_len(seed, binary, i + 1);
        lemma_concat_prefix(seed, binary, i + 1, k);
        lemma_concat_len_mono(seed, binary, i + 1, k);
        let short = chunks_concat(seed, binary, i + 1);
        let long = chunks_concat(seed, binary, k);
        assert(long.take(short.len() as int)[i as int] == long[i as int]);
        assert(short[i as int] == long.take(short.len() as int)[i as int]);
    } else {
        lemma_concat_prefix(seed, binary, k, i + 1);
        lemma_concat_len_mono(seed, binary, k, i + 1);
        let short = chunks_concat(seed, binary, k);
        let long = chunks_concat(seed, binary, i + 1);
        assert(long.take(short.len() as int)[i as int] == long[i as int]);
        assert(short[i as int] == long.take(short.len() as int)[i as int]);
    }
}

/// A segment of a stream is the matching subrange of any long enough
/// prefix of that stream.
pub proof fn lemma_seg_is_subrange(seed: u64, binary: bool, p: nat, n: nat, m: nat)
    requires
        p + n <= m,
    ensures
        stream_seg(seed, binary, p, n)
            == stream_take(seed, binary, m).subrange(p as int, (p + n) as int),
{
    assert(stream_seg(seed, binary, p, n)
        =~= stream_take(seed, binary, m).subrange(p as int, (p + n) as int));
}

/// The engine of one stream, opaque but for its seed, kind, and the number
/// of blocks pulled so far.
struct ChunkSource {
    rng: rand::rngs::SmallRng,
    binary: bool,
    seed: Ghost<u64>,
    pulls: Ghost<nat>,
}

impl ChunkSource {
    spec fn seed(&self) -> u64 {
        self.seed@
    }

    spec fn pulls(&self) -> nat {
        self.pulls@
    }

    fn new(seed: u64, binary: bool) -> (r: ChunkSource)
        ensures
            r.seed() == seed,
            r.binary == binary,
            r.pulls() == 0,
    {
        ChunkSource { rng: fresh_small_rng(seed), binary, seed: Ghost(seed), pulls: Ghost(0nat) }
    }

    /// Relies on `rand::RngCore::fill_bytes` on `SmallRng`: it fills the
    /// whole buffer, and, the generator being deterministic, the bytes are
    /// a function of its seed and of the blocks already pulled.
    #[verifier::external_body]
    fn pull_bin(&mut self) -> (chunk: Vec<u8>)
        requires
            old(self).binary,
        ensures
            final(self).seed() == old(self).seed(),
            final(self).binary == old(self).binary,
            final(self).pulls() == old(self).pulls() + 1,
            chunk@ == bin_chunk(old(self).seed(), old(self).pulls()),
            chunk@.len() == CHUNK_BYTES as nat,
    {
        let mut buf = vec![0u8; CHUNK_BYTES];
        self.rng.fill_bytes(&mut buf);
        buf
    }

    /// Relies on `lipsum::lipsum_words_with_rng`: a batch of pseudo-lorem
    /// words joined by single spaces, never empty for a positive word
    /// count, and, the word chain being fixed and the generator
    /// deterministic, a function of the generator's seed and of the blocks
    /// already pulled.
    #[verifier::external_body]
    fn pull_text(&mut self) -> (chunk: Vec<u8>)
        requires
            !old(self).binary,
        ensures
            final(self).seed() == old(self).seed(),
            final(self).binary == old(self).binary,
            final(self).pulls() == old(self).pulls() + 1,
            chunk@ == text_chunk(old(self).seed(), old(self).pulls()),
            chunk@.len() >= 1,
    {
        lipsum::lipsum_words_with_rng(&mut self.rng, CHUNK_WORDS).into_bytes()
    }

    /// Pulls the next block, whatever the stream's kind.
    fn pull(&mut self) -> (chunk: Vec<u8>)
        ensures
            final(self).seed() == old(self).seed(),
            final(self).binary == old(self).binary,
            final(self).pulls() == old(self).pulls() + 1,
            chunk@ == chunk_at(old(self).seed(), old(self).binary, old(self).pulls()),
            chunk@.len() >= 1,
    {
        if self.binary {
            self.pull_bin()
        } else {
            self.pull_text()
        }
    }
}

/// A restartable byte stream: pulls blocks from its engine and serves them
/// out in order, so that the bytes handed out from position zero onward
/// are exactly [`stream_seg`] of its seed and kind.
pub struct ContentRead {
    src: ChunkSource,
    cache: Vec<u8>,
    cache_off: usize,
    pos: Ghost<nat>,
}

impl ContentRead {
    /// The seed this stream regenerates from.
    pub closed spec fn seed(&self) -> u64 {
        self.src.seed()
    }

    /// Whether this is a binary stream rather than a text stream.
    pub closed spec fn is_binary(&self) -> bool {
        self.src.binary
    }

    /// How many bytes have been served so far.
    pub closed spec fn pos(&self) -> nat {
        self.pos@
    }

    /// The stream's bookkeeping ties the unserved tail of its block cache
    /// to the stream's bytes at the current position.
    pub closed spec fn wf(&self) -> bool {
        &&& self.cache_off <= self.cache@.len()
        &&& chunks_concat(self.seed(), self.is_binary(), self.src.pulls()).len()
            == self.pos() + self.cache@.len() - self.cache_off
        &&& self.cache@.skip(self.cache_off as int)
            == chunks_concat(self.seed(), self.is_binary(), self.src.pulls()).skip(self.pos() as int)
    }

    /// A fresh stream for one seed and kind, at position zero.
    pub fn new(seed: u64, binary: bool) -> (r: ContentRead)
        ensures
            r.wf(),
            r.seed() == seed,
            r.is_binary() == binary,
            r.pos() == 0,
    {
        let r = ContentRead {
            src: ChunkSource::new(seed, binary),
            cache: Vec::new(),
            cache_off: 0,
            pos: Ghost(0nat),
        };
        proof {
            assert(r.cache@.skip(0) =~= chunks_concat(seed, binary, 0).skip(0));
        }
        r
    }

    /// Serves the next `n` bytes of the stream.  Two streams built from the
    /// same seed and kind serve identical bytes at identical positions.
    pub fn read(&mut self, n: usize) -> (out: Vec<u8>)
        requires
            old(self).wf(),
        ensures
            final(self).wf(),
            final(self).seed() == old(self).seed(),
            final(self).is_binary() == old(self).is_binary(),
            final(self).pos() == old(self).pos() + n,
            out@ == stream_seg(old(self).seed(), old(self).is_binary(), old(self).pos(), n as nat),
    {
        let ghost seed = self.seed();
        let ghost binary = self.is_binary();
        let ghost p0 = self.pos();
        let mut out: Vec<u8> = Vec::new();
        while out.len() < n
            invariant
                self.wf(),
                self.seed() == seed,
                self.is_binary() == binary,
                out@.len() <= n,
                self.pos() == p0 + out@.len(),
                out@ == stream_seg(seed, binary, p0, out@.len() as nat),
            decreases n - out.len(),
        {
            if self.cache_off == self.cache.len() {
                let ghost pulls0 = self.src.pulls();
                let chunk = self.src.pull();
                self.cache = chunk;
                self.cache_off = 0;
                proof {
                    lemma_concat_len(seed, binary, pulls0 + 1);
                    assert(self.cache@.skip(0) =~= chunks_concat(seed, binary, pulls0 + 1).skip(
                        self.pos() as int,
                    ));
                }
            }
            let ghost pulls = self.src.pulls();
            let ghost off0 = self.cache_off as int;
            let ghost pos0 = self.pos@;
            let ghost cached = self.cache@.skip(off0);
            let ghost rest = chunks_concat(seed, binary, pulls).skip(pos0 as int);
            let b = self.cache[self.cache_off];
            proof {
                assert(cached[0] == self.cache@[off0]);
                assert(rest[0] == chunks_concat(seed, binary, pulls)[pos0 as int]);
                assert(b == chunks_concat(seed, binary, pulls)[pos0 as int]);
                lemma_concat_at(seed, binary, pulls, pos0);
                assert(b == stream_at(seed, binary, pos0));
            }
            self.cache_off = self.cache_off + 1;
            out.push(b);
            proof {
                self.pos = Ghost(self.pos@ + 1);
                assert(self.cache@.skip(off0 + 1) =~= cached.skip(1));
                assert(chunks_concat(seed, binary, pulls).skip(pos0 as int + 1) =~= rest.skip(1));
                assert(self.cache@.skip(self.cache_off as int) == chunks_concat(
                    seed,
                    binary,
                    pulls,
                ).skip(self.pos() as int));
                assert(out@ =~= stream_seg(seed, binary, p0, out@.len() as nat));
            }
        }
        out
    }
}

/// A stream limited to one file's declared size: what a reader of a file's
/// content pulls from.  It serves the file's bytes in order and stops at
/// the declared size, however much is asked for.
pub struct FileRead {
    inner: ContentRead,
    left: usize,
}

impl FileRead {
    /// The seed the file's bytes regenerate from.
    pub closed spec fn seed(&self) -> u64 {
        self.inner.seed()
    }

    /// Whether the file's content is binary rather than text.
    pub closed spec fn is_binary(&self) -> bool {
        self.inner.is_binary()
    }

    /// How many bytes have been served so far.
    pub closed spec fn pos(&self) -> nat {
        self.inner.pos()
    }

    /// The file's declared size.
    pub closed spec fn size(&self) -> nat {
        (self.inner.pos() + self.left) as nat
    }

    /// The underlying stream is sound and its position never passes the
    /// declared size.
    pub closed spec fn wf(&self) -> bool {
        self.inner.wf()
    }

    /// The whole content this reader serves: the first `size` bytes of the
    /// stream for its seed and kind.
    pub open spec fn content(&self) -> Seq<u8> {
        stream_take(self.seed(), self.is_binary(), self.size())
    }

    /// A fresh reader over the first `size` bytes of the stream for one
    /// seed and kind.
    pub fn new(seed: u64, binary: bool, size: usize) -> (r: FileRead)
        ensures
            r.wf(),
            r.seed() == seed,
            r.is_binary() == binary,
            r.pos() == 0,
            r.size() == size,
    {
        FileRead { inner: ContentRead::new(seed, binary), left: size }
    }

    /// Serves the next `n` bytes of the file, fewer when fewer are left
    /// before the declared size.
    pub fn read(&mut self, n: usize) -> (out: Vec<u8>)
        requires
            old(self).wf(),
        ensures
            final(self).wf(),
            final(self).seed() == old(self).seed(),
            final(self).is_binary() == old(self).is_binary(),
            final(self).size() == old(self).size(),
            out@.len() == min(n as int, old(self).size() - old(self).pos()),
            final(self).pos() == old(self).pos() + out@.len(),
            out@ == old(self).content().subrange(
                old(self).pos() as int,
                old(self).pos() as int + out@.len() as int,
            ),
    {
        let k = if n < self.left {
            n
        } else {
            self.left
        };
        let ghost p0 = self.pos();
        let ghost sz = self.size();
        let out = self.inner.read(k);
        self.left = self.left - k;
        proof {
            lemma_seg_is_subrange(self.seed(), self.is_binary(), p0, k as nat, sz);
        }
        out
    }
}

/// Content reproducibility: two content streams built independently from
/// the same seed and kind serve identical bytes -- any two byte strings
/// that each equal the stream's segment at one position and length are
/// the same string, whenever and however often the stream is rebuilt.
pub proof fn lemma_stream_reproducible(
    b1: Seq<u8>,
    b2: Seq<u8>,
    seed: u64,
    binary: bool,
    p: nat,
    n: nat,
)
    requires
        b1 == stream_seg(seed, binary, p, n),
        b2 == stream_seg(seed, binary, p, n),
    ensures
        b1 == b2,
{
}

/// A binary content stream: pseudo-random bytes regenerated from one
/// seed, served in order.
pub struct BinRead {
    inner: ContentRead,
}

impl BinRead {
    /// How many bytes have been served so far.
    pub closed spec fn pos(&self) -> nat {
        self.inner.pos()
    }

    /// The seed this stream regenerates from.
    pub closed spec fn seed(&self) -> u64 {
        self.inner.seed()
    }

    /// The stream's bookkeeping is sound.
    pub closed spec fn wf(&self) -> bool {
        self.inner.wf() && self.inner.is_binary()
    }

    /// A fresh binary stream for one seed, at position zero.
    pub fn new(seed: u64) -> (r: BinRead)
        ensures
            r.wf(),
            r.seed() == seed,
            r.pos() == 0,
    {
        BinRead { inner: ContentRead::new(seed, true) }
    }

    /// Serves the next `n` bytes of the stream.
    pub fn read(&mut self, n: usize) -> (out: Vec<u8>)
        requires
            old(self).wf(),
        ensures
            final(self).wf(),
            final(self).seed() == old(self).seed(),
            final(self).pos() == old(self).pos() + n,
            out@ == stream_seg(old(self).seed(), true, old(self).pos(), n as nat),
    {
        self.inner.read(n)
    }
}

/// A text content stream: pseudo-lorem words regenerated from one seed,
/// served in order.
pub struct TextRead {
    inner: ContentRead,
}

impl TextRead {
    /// How many bytes have been served so far.
    pub closed spec fn pos(&self) -> nat {
        self.inner.pos()
    }

    /// The seed this stream regenerates from.
    pub closed spec fn seed(&self) -> u64 {
        self.inner.seed()
    }

    /// The stream's bookkeeping is sound.
    pub closed spec fn wf(&self) -> bool {
        self.inner.wf() && !self.inner.is_binary()
    }

    /// A fresh text stream for one seed, at position zero.
    pub fn new(seed: u64) -> (r: TextRead)
        ensures
            r.wf(),
            r.seed() == seed,
            r.pos() == 0,
    {
        TextRead { inner: ContentRead::new(seed, false) }
    }

    /// Serves the next `n` bytes of the stream.
    pub fn read(&mut self, n: usize) -> (out: Vec<u8>)
        requires
            old(self).wf(),
        ensures
            final(self).wf(),
            final(self).seed() == old(self).seed(),
            final(self).pos() == old(self).pos() + n,
            out@ == stream_seg(old(self).seed(), false, old(self).pos(), n as nat),
    {
        self.inner.read(n)
    }
}

} // verus!
