//! The pseudo-random engine behind every build, and the generation context
//! that turns its raw draws into child counts, names, kinds, lengths and
//! per-file seeds.
//!
//! The engine is `rand`'s `SmallRng`, which is a deterministic generator:
//! seeded from one 64-bit value, the stream of values it hands out depends
//! only on that value and on the sequence of requests made of it.  That is
//! what makes a whole tree reproducible from one root seed.  The model here
//! makes this explicit: an [`Engine`] carries, as ghost state, its seed and
//! the trace of requests served so far, and the result of each draw is an
//! (otherwise unspecified) mathematical function of seed, trace and request.

use rand::Rng;
use rand::SeedableRng;
use vstd::prelude::*;

verus! {

/// One recorded request to the engine: a tag and the request's parameters.
pub type Req = (int, int, int);

/// The trace of requests an engine has served, oldest first.
pub type Trace = Seq<Req>;

/// Declares `rand`'s small generator so that the engine and the content
/// streams can hold one; Verus sees nothing inside a value of it.
#[verifier::external_type_specification]
#[verifier::external_body]
pub struct ExSmallRng(rand::rngs::SmallRng);

/// A request for a `u64` drawn uniformly from `[lo, hi)`.
pub open spec fn req_range_u64(lo: u64, hi: u64) -> Req {
    (0int, lo as int, hi as int)
}

/// A request for a `usize` drawn uniformly from `[lo, hi)`.
pub open spec fn req_range_usize(lo: usize, hi: usize) -> Req {
    (1int, lo as int, hi as int)
}

/// A request for a full 64-bit word.
pub open spec fn req_word() -> Req {
    (2int, 0int, 0int)
}

/// A request for a full 32-bit word.
pub open spec fn req_word32() -> Req {
    (3int, 0int, 0int)
}

/// A request for one alphanumeric byte.
pub open spec fn req_alnum() -> Req {
    (4int, 0int, 0int)
}

/// The `u64` that an engine with the given seed and trace returns for a
/// uniform draw from `[lo, hi)`.
pub uninterp spec fn draw_range_u64(seed: u64, trace: Trace, lo: u64, hi: u64) -> u64;

/// The `usize` that an engine with the given seed and trace returns for a
/// uniform draw from `[lo, hi)`.
pub uninterp spec fn draw_range_usize(seed: u64, trace: Trace, lo: usize, hi: usize) -> usize;

/// The 64-bit word that an engine with the given seed and trace returns.
pub uninterp spec fn draw_word(seed: u64, trace: Trace) -> u64;

/// The 32-bit word that an engine with the given seed and trace returns.
pub uninterp spec fn draw_word32(seed: u64, trace: Trace) -> u32;

/// The alphanumeric byte that an engine with the given seed and trace returns.
pub uninterp spec fn draw_alnum(seed: u64, trace: Trace) -> u8;

/// Returns `true` when `b` is an ASCII digit or letter.
pub open spec fn is_alnum_byte(b: u8) -> bool {
    (48 <= b <= 57) || (65 <= b <= 90) || (97 <= b <= 122)
}

/// Relies on `rand::rngs::SmallRng::seed_from_u64` to build a generator from
/// one 64-bit seed.  What the draws taken from the result return is stated by
/// the draw wrappers on [`Engine`], as functions of this seed.
#[verifier::external_body]
pub(crate) fn fresh_small_rng(seed: u64) -> rand::rngs::SmallRng {
    rand::rngs::SmallRng::seed_from_u64(seed)
}

/// The one pseudo-random engine of a build: a seeded `SmallRng` together
/// with ghost bookkeeping of its seed and of the requests served so far.
pub struct Engine {
    inner: rand::rngs::SmallRng,
    seed: Ghost<u64>,
    hist: Ghost<Trace>,
}

impl Engine {
    /// The seed this engine was built from.
    pub closed spec fn seed(&self) -> u64 {
        self.seed@
    }

    /// The requests this engine has served so far, oldest first.
    pub closed spec fn trace(&self) -> Trace {
        self.hist@
    }

    /// Builds the engine for one root seed, with an empty trace.
    pub fn new(seed: u64) -> (r: Engine)
        ensures
            r.seed() == seed,
            r.trace() == Seq::<Req>::empty(),
    {
        Engine { inner: fresh_small_rng(seed), seed: Ghost(seed), hist: Ghost(Seq::empty()) }
    }

    /// Relies on `rand::Rng::gen_range` over `u64`: the result lies in
    /// `[lo, hi)` and, `SmallRng` being deterministic, is a function of the
    /// generator's seed and of the draws already taken from it.
    #[verifier::external_body]
    fn gen_range_u64(&mut self, lo: u64, hi: u64) -> (r: u64)
        requires
            lo < hi,
        ensures
            final(self).seed() == old(self).seed(),
            final(self).trace() == old(self).trace().push(req_range_u64(lo, hi)),
            r == draw_range_u64(old(self).seed(), old(self).trace(), lo, hi),
            lo <= r < hi,
    {
        self.inner.gen_range(lo..hi)
    }

    /// Relies on `rand::Rng::gen_range` over `usize`: the result lies in
    /// `[lo, hi)` and, `SmallRng` being deterministic, is a function of the
    /// generator's seed and of the draws already taken from it.
    #[verifier::external_body]
    fn gen_range_usize(&mut self, lo: usize, hi: usize) -> (r: usize)
        requires
            lo < hi,
        ensures
            final(self).seed() == old(self).seed(),
            final(self).trace() == old(self).trace().push(req_range_usize(lo, hi)),
            r == draw_range_usize(old(self).seed(), old(self).trace(), lo, hi),
            lo <= r < hi,
    {
        self.inner.gen_range(lo..hi)
    }

    /// Relies on `rand::Rng::gen` over `u64`: a full word, a function of the
    /// generator's seed and of the draws already taken from it.
    #[verifier::external_body]
    fn gen_word(&mut self) -> (r: u64)
        ensures
            final(self).seed() == old(self).seed(),
            final(self).trace() == old(self).trace().push(req_word()),
            r == draw_word(old(self).seed(), old(self).trace()),
    {
        self.inner.gen()
    }

    /// Relies on `rand::Rng::gen` over `u32`, which samples the full 32-bit
    /// range uniformly: a function of the generator's seed and of the draws
    /// already taken from it.
    #[verifier::external_body]
    fn gen_word32(&mut self) -> (r: u32)
        ensures
            final(self).seed() == old(self).seed(),
            final(self).trace() == old(self).trace().push(req_word32()),
            r == draw_word32(old(self).seed(), old(self).trace()),
    {
        self.inner.gen()
    }

    /// Relies on `rand::Rng::sample` with `rand::distributions::Alphanumeric`,
    /// which returns one byte drawn uniformly from the ASCII digits and
    /// letters; a function of the generator's seed and of the draws already
    /// taken from it.
    #[verifier::external_body]
    fn gen_alnum(&mut self) -> (r: u8)
        ensures
            final(self).seed() == old(self).seed(),
            final(self).trace() == old(self).trace().push(req_alnum()),
            r == draw_alnum(old(self).seed(), old(self).trace()),
            is_alnum_byte(r),
    {
        self.inner.sample(rand::distributions::Alphanumeric)
    }
}


/// An inclusive-exclusive range of `u64` values.
#[derive(Clone, Copy, Debug, PartialEq, Eq, Structural)]
pub struct U64Range {
    pub start: u64,
    pub end: u64,
}

impl U64Range {
    /// A range can be drawn from only when it holds at least one value.
    pub open spec fn nonempty(self) -> bool {
        self.start < self.end
    }
}

/// An inclusive-exclusive range of `usize` values.
#[derive(Clone, Copy, Debug, PartialEq, Eq, Structural)]
pub struct UsizeRange {
    pub start: usize,
    pub end: usize,
}

impl UsizeRange {
    /// A range can be drawn from only when it holds at least one value.
    pub open spec fn nonempty(self) -> bool {
        self.start < self.end
    }
}

/// The ratio denominator: kind draws compare a uniform 32-bit word against
/// a numerator out of this many.
pub const RATIO_DENOMINATOR: u64 = 0x1_0000_0000;

/// The shape parameters of one build: how deep the tree may go, how many
/// children a directory receives, how likely a file is to be binary, and
/// how long a file is.  The pseudo-random engine is threaded separately,
/// by mutable borrow, through every operation that draws from it.
#[derive(Clone, Copy, Debug, PartialEq, Eq, Structural)]
pub struct Context {
    /// Remaining-depth range; shifted down by one on descent.
    pub dir_depth: U64Range,
    /// Bounds on how many subdirectories a directory receives.
    pub nb_dir_child: U64Range,
    /// Bounds on how many files a directory receives.
    pub nb_file_child: U64Range,
    /// Probability that a file is binary, as a numerator out of
    /// [`RATIO_DENOMINATOR`].
    pub binary_ratio_num: u64,
    /// Byte-length range for binary files; text files use it divided by 8.
    pub file_len: UsizeRange,
}

/// The file and directory counts drawn for one node, with the trace after
/// the draws: a file count, then a depth draw, then -- only when the depth
/// draw is strictly positive -- a directory count.
pub open spec fn spec_nb_child(ctx: Context, seed: u64, t: Trace) -> (u64, u64, Trace) {
    let nf = draw_range_u64(seed, t, ctx.nb_file_child.start, ctx.nb_file_child.end);
    let t1 = t.push(req_range_u64(ctx.nb_file_child.start, ctx.nb_file_child.end));
    let depth = draw_range_u64(seed, t1, ctx.dir_depth.start, ctx.dir_depth.end);
    let t2 = t1.push(req_range_u64(ctx.dir_depth.start, ctx.dir_depth.end));
    if depth > 0 {
        let nd = draw_range_u64(seed, t2, ctx.nb_dir_child.start, ctx.nb_dir_child.end);
        let t3 = t2.push(req_range_u64(ctx.nb_dir_child.start, ctx.nb_dir_child.end));
        (nf, nd, t3)
    } else {
        (nf, 0u64, t2)
    }
}

/// The `k` alphanumeric bytes drawn for a name, with the trace after the
/// draws.
pub open spec fn spec_chars(seed: u64, t: Trace, k: nat) -> (Seq<u8>, Trace)
    decreases k,
{
    if k == 0 {
        (Seq::<u8>::empty(), t)
    } else {
        let (s, t1) = spec_chars(seed, t, (k - 1) as nat);
        (s.push(draw_alnum(seed, t1)), t1.push(req_alnum()))
    }
}

/// The outcome of one kind draw: binary exactly when a uniform 32-bit word
/// falls below the configured numerator.
pub open spec fn spec_is_binary(ctx: Context, seed: u64, t: Trace) -> bool {
    (draw_word32(seed, t) as u64) < ctx.binary_ratio_num
}

impl Context {
    /// A context is well formed when every range holds at least one value
    /// and the ratio numerator does not exceed its denominator.
    pub open spec fn wf(self) -> bool {
        &&& self.dir_depth.nonempty()
        &&& self.nb_dir_child.nonempty()
        &&& self.nb_file_child.nonempty()
        &&& self.file_len.nonempty()
        &&& self.binary_ratio_num <= RATIO_DENOMINATOR
    }

    /// The context one level deeper: the depth range shifted down by one,
    /// saturating at zero, everything else unchanged.
    pub open spec fn spec_descent(self) -> Context {
        Context {
            dir_depth: U64Range {
                start: if self.dir_depth.start == 0 { 0u64 } else { (self.dir_depth.start - 1) as u64 },
                end: if self.dir_depth.end == 0 { 0u64 } else { (self.dir_depth.end - 1) as u64 },
            },
            ..self
        }
    }

    /// Draws the child counts for one node: a file count from
    /// `nb_file_child`; then a value from `dir_depth`, and, only when that
    /// value is strictly positive, a directory count from `nb_dir_child`,
    /// else zero.  Depth exhaustion is thus probabilistic, tied to the
    /// depth-range draw, not a hard cutoff.
    pub fn nb_child(&self, eng: &mut Engine) -> (counts: (u64, u64))
        requires
            self.wf(),
        ensures
            final(eng).seed() == old(eng).seed(),
            ({
                let (nf, nd, t) = spec_nb_child(*self, old(eng).seed(), old(eng).trace());
                counts.0 == nf && counts.1 == nd && final(eng).trace() == t
            }),
            self.nb_file_child.start <= counts.0 < self.nb_file_child.end,
            counts.1 == 0 || self.nb_dir_child.start <= counts.1 < self.nb_dir_child.end,
            counts.1 > 0 ==> self.dir_depth.end > 1,
    {
        let nb_files = eng.gen_range_u64(self.nb_file_child.start, self.nb_file_child.end);
        let can_contain_dir = eng.gen_range_u64(self.dir_depth.start, self.dir_depth.end);
        let nb_dir = if can_contain_dir > 0 {
            eng.gen_range_u64(self.nb_dir_child.start, self.nb_dir_child.end)
        } else {
            0
        };
        (nb_files, nb_dir)
    }

    /// Draws whether the next file is binary rather than text: one uniform
    /// 32-bit draw compared against the configured ratio numerator.
    pub fn is_binary(&self, eng: &mut Engine) -> (b: bool)
        ensures
            final(eng).seed() == old(eng).seed(),
            final(eng).trace() == old(eng).trace().push(req_word32()),
            b == spec_is_binary(*self, old(eng).seed(), old(eng).trace()),
    {
        let w = eng.gen_word32();
        (w as u64) < self.binary_ratio_num
    }

    /// Draws the byte length of a binary file from `file_len`.
    pub fn file_len(&self, eng: &mut Engine) -> (n: usize)
        requires
            self.wf(),
        ensures
            final(eng).seed() == old(eng).seed(),
            final(eng).trace() == old(eng).trace().push(
                req_range_usize(self.file_len.start, self.file_len.end),
            ),
            n == draw_range_usize(old(eng).seed(), old(eng).trace(), self.file_len.start, self.file_len.end),
            self.file_len.start <= n < self.file_len.end,
    {
        eng.gen_range_usize(self.file_len.start, self.file_len.end)
    }

    /// Draws the length target of a text file: a draw from `file_len`
    /// divided by 8, an approximate word count.
    pub fn text_len(&self, eng: &mut Engine) -> (n: usize)
        requires
            self.wf(),
        ensures
            final(eng).seed() == old(eng).seed(),
            final(eng).trace() == old(eng).trace().push(
                req_range_usize(self.file_len.start, self.file_len.end),
            ),
            n == draw_range_usize(old(eng).seed(), old(eng).trace(), self.file_len.start, self.file_len.end) / 8,
            n < self.file_len.end,
    {
        eng.gen_range_usize(self.file_len.start, self.file_len.end) / 8
    }

    /// Draws a seven-byte alphanumeric name.
    pub fn name(&self, eng: &mut Engine) -> (nm: Vec<u8>)
        ensures
            final(eng).seed() == old(eng).seed(),
            ({
                let (s, t) = spec_chars(old(eng).seed(), old(eng).trace(), 7);
                nm@ == s && final(eng).trace() == t
            }),
            nm@.len() == 7,
            forall|i: int| 0 <= i < nm@.len() ==> is_alnum_byte(#[trigger] nm@[i]),
    {
        let mut nm: Vec<u8> = Vec::new();
        let ghost seed0 = eng.seed();
        let ghost t0 = eng.trace();
        let mut i: usize = 0;
        while i < 7
            invariant
                0 <= i <= 7,
                eng.seed() == seed0,
                ({
                    let (s, t) = spec_chars(seed0, t0, i as nat);
                    nm@ == s && eng.trace() == t
                }),
                nm@.len() == i,
                forall|j: int| 0 <= j < nm@.len() ==> is_alnum_byte(#[trigger] nm@[j]),
            decreases 7 - i,
        {
            let b = eng.gen_alnum();
            nm.push(b);
            i = i + 1;
        }
        nm
    }

    /// Draws the 64-bit seed stored into a file entry.
    pub fn get(&self, eng: &mut Engine) -> (s: u64)
        ensures
            final(eng).seed() == old(eng).seed(),
            final(eng).trace() == old(eng).trace().push(req_word()),
            s == draw_word(old(eng).seed(), old(eng).trace()),
    {
        eng.gen_word()
    }

    /// Returns the context for one level deeper.  A well-formed context
    /// stays well formed as long as the depth range still allows
    /// subdirectories below this level.
    pub fn descent(&self) -> (c: Context)
        ensures
            c == self.spec_descent(),
            self.wf() && self.dir_depth.end > 1 ==> c.wf(),
    {
        let start = if self.dir_depth.start == 0 { 0 } else { self.dir_depth.start - 1 };
        let end = if self.dir_depth.end == 0 { 0 } else { self.dir_depth.end - 1 };
        Context {
            dir_depth: U64Range { start, end },
            nb_dir_child: self.nb_dir_child,
            nb_file_child: self.nb_file_child,
            binary_ratio_num: self.binary_ratio_num,
            file_len: self.file_len,
        }
    }
}

/// Why a configuration was rejected before any generation started.
#[derive(Clone, Copy, Debug, PartialEq, Eq, Structural)]
pub enum ConfigError {
    /// Some range holds no value at all (its start is not below its end).
    EmptyRange,
    /// The binary-ratio numerator exceeds [`RATIO_DENOMINATOR`].
    RatioOutOfRange,
}

/// Collects the root seed and the shape parameters of a build, with the
/// same defaults for everything left unset.
#[derive(Clone, Copy, Debug, PartialEq, Eq, Structural)]
pub struct ContextBuilder {
    pub seed: u64,
    pub dir_depth: U64Range,
    pub nb_dir_child: U64Range,
    pub nb_file_child: U64Range,
    pub binary_ratio_num: u64,
    pub file_len: UsizeRange,
}

/// The default binary ratio: one fifth, as a numerator out of
/// [`RATIO_DENOMINATOR`], rounded down.
pub const DEFAULT_BINARY_RATIO_NUM: u64 = 0x3333_3333;

impl ContextBuilder {
    /// The context a builder describes, before validation.
    pub open spec fn spec_context(self) -> Context {
        Context {
            dir_depth: self.dir_depth,
            nb_dir_child: self.nb_dir_child,
            nb_file_child: self.nb_file_child,
            binary_ratio_num: self.binary_ratio_num,
            file_len: self.file_len,
        }
    }

    /// A builder with every parameter at its default.
    pub fn new() -> (r: ContextBuilder)
        ensures
            r == (ContextBuilder {
                seed: 0u64,
                dir_depth: U64Range { start: 4u64, end: 6u64 },
                nb_dir_child: U64Range { start: 0u64, end: 5u64 },
                nb_file_child: U64Range { start: 0u64, end: 10u64 },
                binary_ratio_num: DEFAULT_BINARY_RATIO_NUM,
                file_len: UsizeRange { start: 10usize, end: 1000000usize },
            }),
    {
        ContextBuilder {
            seed: 0,
            dir_depth: U64Range { start: 4, end: 6 },
            nb_dir_child: U64Range { start: 0, end: 5 },
            nb_file_child: U64Range { start: 0, end: 10 },
            binary_ratio_num: DEFAULT_BINARY_RATIO_NUM,
            file_len: UsizeRange { start: 10, end: 1000000 },
        }
    }

    /// Sets the root seed.
    pub fn seed(&mut self, seed: u64) -> (r: &mut ContextBuilder)
        ensures
            *r == (ContextBuilder { seed, ..*old(self) }),
            *final(self) == *final(r),
    {
        self.seed = seed;
        self
    }

    /// Sets the depth range.
    pub fn dir_depth(&mut self, dir_depth: U64Range) -> (r: &mut ContextBuilder)
        ensures
            *r == (ContextBuilder { dir_depth, ..*old(self) }),
            *final(self) == *final(r),
    {
        self.dir_depth = dir_depth;
        self
    }

    /// Sets the subdirectory-count range.
    pub fn nb_dir_child(&mut self, nb_dir_child: U64Range) -> (r: &mut ContextBuilder)
        ensures
            *r == (ContextBuilder { nb_dir_child, ..*old(self) }),
            *final(self) == *final(r),
    {
        self.nb_dir_child = nb_dir_child;
        self
    }

    /// Sets the file-count range.
    pub fn nb_file_child(&mut self, nb_file_child: U64Range) -> (r: &mut ContextBuilder)
        ensures
            *r == (ContextBuilder { nb_file_child, ..*old(self) }),
            *final(self) == *final(r),
    {
        self.nb_file_child = nb_file_child;
        self
    }

    /// Sets the binary ratio, as a numerator out of [`RATIO_DENOMINATOR`].
    pub fn binary_ratio(&mut self, binary_ratio_num: u64) -> (r: &mut ContextBuilder)
        ensures
            *r == (ContextBuilder { binary_ratio_num, ..*old(self) }),
            *final(self) == *final(r),
    {
        self.binary_ratio_num = binary_ratio_num;
        self
    }

    /// Sets the file-length range.
    pub fn file_len(&mut self, file_len: UsizeRange) -> (r: &mut ContextBuilder)
        ensures
            *r == (ContextBuilder { file_len, ..*old(self) }),
            *final(self) == *final(r),
    {
        self.file_len = file_len;
        self
    }

    /// Validates the parameters and hands out the context together with the
    /// engine seeded from the root seed.  Malformed parameters are rejected
    /// here, before any generation starts: every range must hold a value,
    /// and the ratio numerator must not exceed its denominator.
    pub fn create(self) -> (r: Result<(Context, Engine), ConfigError>)
        ensures
            r is Ok <==> self.spec_context().wf(),
            match r {
                Ok((ctx, eng)) => {
                    &&& ctx == self.spec_context()
                    &&& eng.seed() == self.seed
                    &&& eng.trace() == Seq::<Req>::empty()
                },
                Err(e) => {
                    &&& e is EmptyRange <==> !(self.dir_depth.nonempty()
                        && self.nb_dir_child.nonempty() && self.nb_file_child.nonempty()
                        && self.file_len.nonempty())
                    &&& e is RatioOutOfRange ==> self.binary_ratio_num > RATIO_DENOMINATOR
                },
            },
    {
        if self.dir_depth.start >= self.dir_depth.end || self.nb_dir_child.start >= self.nb_dir_child.end
            || self.nb_file_child.start >= self.nb_file_child.end
            || self.file_len.start >= self.file_len.end {
            Err(ConfigError::EmptyRange)
        } else if self.binary_ratio_num > RATIO_DENOMINATOR {
            Err(ConfigError::RatioOutOfRange)
        } else {
            let ctx = Context {
                dir_depth: self.dir_depth,
                nb_dir_child: self.nb_dir_child,
                nb_file_child: self.nb_file_child,
                binary_ratio_num: self.binary_ratio_num,
                file_len: self.file_len,
            };
            Ok((ctx, Engine::new(self.seed)))
        }
    }
}

impl Default for ContextBuilder {
    /// The same defaults as [`ContextBuilder::new`].
    fn default() -> (r: ContextBuilder)
        ensures
            r == (ContextBuilder {
                seed: 0u64,
                dir_depth: U64Range { start: 4u64, end: 6u64 },
                nb_dir_child: U64Range { start: 0u64, end: 5u64 },
                nb_file_child: U64Range { start: 0u64, end: 10u64 },
                binary_ratio_num: DEFAULT_BINARY_RATIO_NUM,
                file_len: UsizeRange { start: 10usize, end: 1000000usize },
            }),
    {
        ContextBuilder::new()
    }
}

} // verus!
