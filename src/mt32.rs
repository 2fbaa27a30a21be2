//! The 32-bit Mersenne Twister, MT19937.
use vstd::prelude::*;
use crate::SeedError;
use vstd::wrapping::u32_specs::{wrapping_add, wrapping_mul, wrapping_sub};

verus! {

/// Number of words in the state.
pub const N: usize = 624;

/// Recurrence depth of the twist.
pub const M: usize = 397;

/// Multiplier of the scalar seeding recurrence.
pub const INIT_MULT: u32 = 1812433253;

/// Multiplier of the first mixing pass of array seeding.
pub const KEY_MULT: u32 = 1664525;

/// Multiplier of the second mixing pass of array seeding.
pub const DIFF_MULT: u32 = 1566083941;

/// Scalar seed that array seeding starts from.
pub const ARRAY_BASE_SEED: u32 = 19650218;

/// Seed of the default engine.
pub const DEFAULT_SEED: u32 = 5489;

/// Constant xor-ed into a twisted word whose source is odd.
pub const MATRIX_A: u32 = 0x9908b0df;

/// The top bit of a word.
pub const UPPER_MASK: u32 = 0x8000_0000;

/// All bits of a word but the top one.
pub const LOWER_MASK: u32 = 0x7fff_ffff;

/// First tempering mask.
pub const TEMPER_B: u32 = 0x9d2c5680;

/// Second tempering mask.
pub const TEMPER_C: u32 = 0xefc60000;

/// The abstract state of an engine: its words and the cursor of the next
/// word to hand out. A cursor of `N` or more means that the block is spent
/// and the next request regenerates it first.
pub struct State {
    pub words: Seq<u32>,
    pub cursor: nat,
}

/// Word `i` of the state that the scalar seed `seed` produces.
pub open spec fn init_word(seed: u32, i: nat) -> u32
    decreases i,
{
    if i == 0 {
        seed
    } else {
        let p = init_word(seed, (i - 1) as nat);
        wrapping_add(wrapping_mul(INIT_MULT, p ^ (p >> 30u32)), i as u32)
    }
}

/// The words that the scalar seed `seed` produces.
pub open spec fn init_words(seed: u32) -> Seq<u32> {
    Seq::new(N as nat, |i: int| init_word(seed, i as nat))
}

/// The state of an engine just seeded with the scalar `seed`.
pub open spec fn seeded(seed: u32) -> State {
    State { words: init_words(seed), cursor: N as nat }
}

/// The word `(w ^ (w >> 30)) * mult`, wrapping, that array seeding mixes in.
pub open spec fn spread(w: u32, mult: u32) -> u32 {
    wrapping_mul(w ^ (w >> 30u32), mult)
}

/// The position that follows `i` in a mixing pass, and the words after the
/// wrap: past the last word the pass goes on at 1, with word 0 set to the
/// last word.
pub open spec fn wrap_after(w: Seq<u32>, i: nat) -> (Seq<u32>, nat) {
    if i + 1 >= N {
        (w.update(0, w[N - 1]), 1nat)
    } else {
        (w, i + 1)
    }
}

/// The words, the word position `i` and the key position `j` after `t`
/// steps of the first mixing pass of array seeding with `key`.
pub open spec fn key_pass(key: Seq<u32>, t: nat) -> (Seq<u32>, nat, nat)
    decreases t,
{
    if t == 0 {
        (init_words(ARRAY_BASE_SEED), 1nat, 0nat)
    } else {
        let (w, i, j) = key_pass(key, (t - 1) as nat);
        let v = wrapping_add(wrapping_add(w[i as int] ^ spread(w[i - 1], KEY_MULT), key[j as int]), j as u32);
        let (w2, i2) = wrap_after(w.update(i as int, v), i);
        let j2 = if j + 1 >= key.len() { 0nat } else { j + 1 };
        (w2, i2, j2)
    }
}

/// Number of steps of the first mixing pass: the larger of `N` and the key
/// length.
pub open spec fn key_pass_len(key: Seq<u32>) -> nat {
    if key.len() > N { key.len() } else { N as nat }
}

/// The words and the word position after `t` steps of the second mixing
/// pass of array seeding with `key`.
pub open spec fn diff_pass(key: Seq<u32>, t: nat) -> (Seq<u32>, nat)
    decreases t,
{
    if t == 0 {
        let (w, i, j) = key_pass(key, key_pass_len(key));
        (w, i)
    } else {
        let (w, i) = diff_pass(key, (t - 1) as nat);
        let v = wrapping_sub(w[i as int] ^ spread(w[i - 1], DIFF_MULT), i as u32);
        wrap_after(w.update(i as int, v), i)
    }
}

/// The words that array seeding with `key` produces: both mixing passes,
/// then word 0 set to a word with only its top bit set, so that the state
/// is never all zero.
pub open spec fn key_words(key: Seq<u32>) -> Seq<u32> {
    diff_pass(key, (N - 1) as nat).0.update(0, UPPER_MASK)
}

/// The state of an engine just seeded with the key `key`.
pub open spec fn seeded_array(key: Seq<u32>) -> State {
    State { words: key_words(key), cursor: N as nat }
}

/// One twisted word: the `UPPER_MASK` bits of `hi` joined to the
/// `LOWER_MASK` bits of `lo`, shifted right by one, xor-ed with `far` and,
/// when odd, with `MATRIX_A`.
pub open spec fn twist_word(hi: u32, lo: u32, far: u32) -> u32 {
    let y = (hi & UPPER_MASK) | (lo & LOWER_MASK);
    far ^ (y >> 1u32) ^ (if y & 1 == 0 { 0u32 } else { MATRIX_A })
}

/// Word `k` after the twist of `w`. The words are replaced in place in
/// increasing order, so a source at a lower position has already been
/// replaced: the far source `k + M - N` of each `k` from `N - M` on, and
/// word 0, the successor of the last word.
pub open spec fn twisted(w: Seq<u32>, k: nat) -> u32
    decreases k,
{
    if k < N - M {
        twist_word(w[k as int], w[k + 1int], w[k + M as int])
    } else if k < N - 1 {
        twist_word(w[k as int], w[k + 1int], twisted(w, (k + M - N) as nat))
    } else {
        twist_word(w[k as int], twisted(w, 0), twisted(w, (M - 1) as nat))
    }
}

/// The words after the twist of `w`.
pub open spec fn twist(w: Seq<u32>) -> Seq<u32> {
    Seq::new(N as nat, |k: int| twisted(w, k as nat))
}

/// One request for a word: the state after it, and the word handed out.
/// A spent block is twisted first.
pub open spec fn step(s: State) -> (State, u32) {
    let spent = s.cursor >= N;
    let w = if spent { twist(s.words) } else { s.words };
    let c = if spent { 0nat } else { s.cursor };
    (State { words: w, cursor: c + 1 }, temper(w[c as int]))
}

/// The state after `k` requests.
pub open spec fn advance(s: State, k: nat) -> State
    decreases k,
{
    if k == 0 {
        s
    } else {
        advance(step(s).0, (k - 1) as nat)
    }
}

/// The words that the next `k` requests hand out.
pub open spec fn outputs(s: State, k: nat) -> Seq<u32>
    decreases k,
{
    if k == 0 {
        Seq::empty()
    } else {
        seq![step(s).1] + outputs(step(s).0, (k - 1) as nat)
    }
}

/// How many twists the next `k` requests run.
pub open spec fn twist_count(s: State, k: nat) -> nat
    decreases k,
{
    if k == 0 {
        0
    } else {
        (if s.cursor >= N { 1nat } else { 0nat }) + twist_count(step(s).0, (k - 1) as nat)
    }
}

/// A Mersenne Twister engine that produces 32-bit words.
#[derive(Clone, Copy)]
pub struct MTRng32 {
    state: [u32; N],
    index: usize,
}

impl View for MTRng32 {
    type V = State;

    closed spec fn view(&self) -> State {
        State { words: self.state@, cursor: self.index as nat }
    }
}

impl MTRng32 {
    /// Creates an engine seeded with the scalar `seed`.
    pub fn new(seed: u32) -> (r: MTRng32)
        ensures
            r@ == seeded(seed),
    {
        let mut rng = MTRng32 { state: [0u32; N], index: N + 1 };
        rng.reset(seed);
        rng
    }

    /// Creates an engine seeded with the key `key`; an empty key is refused.
    pub fn new_array(key: &[u32]) -> (r: Result<MTRng32, SeedError>)
        ensures
            key@.len() == 0 <==> r is Err,
            r matches Err(e) ==> e == SeedError::InvalidSeed,
            r matches Ok(rng) ==> rng@ == seeded_array(key@),
    {
        if key.len() == 0 {
            return Err(SeedError::InvalidSeed);
        }
        let mut rng = MTRng32 { state: [0u32; N], index: N + 1 };
        rng.reset_array(key);
        Ok(rng)
    }

    /// Seeds the engine again with the scalar `seed`; nothing of the former
    /// state remains.
    pub fn reseed(&mut self, seed: u32)
        ensures
            final(self)@ == seeded(seed),
    {
        self.reset(seed);
    }

    /// Seeds the engine again with the key `key`; nothing of the former
    /// state remains. An empty key is refused and leaves the engine as it
    /// was.
    pub fn reseed_array(&mut self, key: &[u32]) -> (r: Result<(), SeedError>)
        ensures
            key@.len() == 0 <==> r is Err,
            r matches Err(e) ==> e == SeedError::InvalidSeed && final(self)@ == old(self)@,
            r is Ok ==> final(self)@ == seeded_array(key@),
    {
        if key.len() == 0 {
            return Err(SeedError::InvalidSeed);
        }
        self.reset_array(key);
        Ok(())
    }

    /// Hands out the next word.
    pub fn next_u32(&mut self) -> (r: u32)
        ensures
            final(self)@ == step(old(self)@).0,
            r == step(old(self)@).1,
    {
        self.next()
    }

    /// Twists a spent block, then tempers the word at the cursor.
    fn next(&mut self) -> (r: u32)
        ensures
            final(self)@ == step(old(self)@).0,
            r == step(old(self)@).1,
    {
        if self.index >= N {
            self.generate_words();
        }
        let y = self.state[self.index];
        self.index += 1;
        temper_word(y)
    }

    /// Replaces all words in place by the twist, and rewinds the cursor.
    fn generate_words(&mut self)
        ensures
            final(self)@ == (State { words: twist(old(self)@.words), cursor: 0 }),
    {
        let ghost w = self.state@;
        let mut index: usize = 0;
        while index < N - M
            invariant
                index <= N - M,
                w.len() == N,
                self.state@.len() == N,
                forall|k: int| 0 <= k < index ==> self.state@[k] == twisted(w, k as nat),
                forall|k: int| index <= k < N ==> self.state@[k] == w[k],
            decreases N - M - index,
        {
            let v = twist_next(self.state[index], self.state[index + 1], self.state[index + M]);
            self.state[index] = v;
            index += 1;
        }
        while index < N - 1
            invariant
                N - M <= index <= N - 1,
                w.len() == N,
                self.state@.len() == N,
                forall|k: int| 0 <= k < index ==> self.state@[k] == twisted(w, k as nat),
                forall|k: int| index <= k < N ==> self.state@[k] == w[k],
            decreases N - 1 - index,
        {
            let v = twist_next(self.state[index], self.state[index + 1], self.state[index + M - N]);
            self.state[index] = v;
            index += 1;
        }
        let v = twist_next(self.state[N - 1], self.state[0], self.state[M - 1]);
        self.state[N - 1] = v;
        self.index = 0;
        assert(self.state@ =~= twist(w));
    }

    /// Fills the words by the scalar seeding recurrence.
    fn reset(&mut self, seed: u32)
        ensures
            final(self)@ == seeded(seed),
    {
        self.state[0] = seed;
        let mut index: usize = 1;
        while index < N
            invariant
                1 <= index <= N,
                self.state@.len() == N,
                forall|k: int| 0 <= k < index ==> self.state@[k] == init_word(seed, k as nat),
            decreases N - index,
        {
            let prec = self.state[index - 1];
            self.state[index] = INIT_MULT.wrapping_mul(prec ^ (prec >> 30)).wrapping_add(index as u32);
            index += 1;
        }
        self.index = N;
        assert(self.state@ =~= init_words(seed));
    }
    /// Fills the words from a non-empty key: scalar seeding with
    /// `ARRAY_BASE_SEED`, then the two mixing passes.
    fn reset_array(&mut self, key: &[u32])
        requires
            key@.len() > 0,
        ensures
            final(self)@ == seeded_array(key@),
    {
        self.reset(ARRAY_BASE_SEED);
        let mut i: usize = 1;
        let mut j: usize = 0;
        let size: usize = if N > key.len() { N } else { key.len() };
        let mut t: usize = 0;
        while t < size
            invariant
                size == key_pass_len(key@),
                key@.len() > 0,
                t <= size,
                1 <= i < N,
                j < key@.len(),
                self.state@.len() == N,
                (self.state@, i as nat, j as nat) == key_pass(key@, t as nat),
            decreases size - t,
        {
            let prec = self.state[i - 1];
            let mixed = self.state[i] ^ (prec ^ (prec >> 30)).wrapping_mul(KEY_MULT);
            self.state[i] = mixed.wrapping_add(key[j]).wrapping_add(j as u32);
            i += 1;
            j += 1;
            if i >= N {
                self.state[0] = self.state[N - 1];
                i = 1;
            }
            if j >= key.len() {
                j = 0;
            }
            t += 1;
        }
        t = 0;
        while t < N - 1
            invariant
                t <= N - 1,
                1 <= i < N,
                self.state@.len() == N,
                (self.state@, i as nat) == diff_pass(key@, t as nat),
            decreases N - 1 - t,
        {
            let prec = self.state[i - 1];
            let mixed = self.state[i] ^ (prec ^ (prec >> 30)).wrapping_mul(DIFF_MULT);
            self.state[i] = mixed.wrapping_sub(i as u32);
            i += 1;
            if i >= N {
                self.state[0] = self.state[N - 1];
                i = 1;
            }
            t += 1;
        }
        self.state[0] = UPPER_MASK;
        self.index = N;
    }
}

impl Default for MTRng32 {
    /// Creates an engine seeded with the scalar `DEFAULT_SEED`.
    fn default() -> (r: MTRng32)
        ensures
            r@ == seeded(DEFAULT_SEED),
    {
        MTRng32::new(DEFAULT_SEED)
    }
}

/// Requests one word more: the first `k + 1` words are the first `k`
/// followed by the word of one request from the state after `k` requests.
pub proof fn lemma_outputs_push(s: State, k: nat)
    ensures
        outputs(s, k + 1) == outputs(s, k).push(step(advance(s, k)).1),
        advance(s, k + 1) == step(advance(s, k)).0,
    decreases k,
{
    let t = step(s).0;
    if k == 0 {
        assert(advance(t, 0) == t);
        assert(outputs(t, 0) == Seq::<u32>::empty());
        assert(outputs(s, 1) =~= outputs(s, 0).push(step(s).1));
    } else {
        lemma_outputs_push(t, (k - 1) as nat);
        assert(advance(s, k) == advance(t, (k - 1) as nat));
        assert(outputs(s, k) == seq![step(s).1] + outputs(t, (k - 1) as nat));
        assert(outputs(s, k + 1) == seq![step(s).1] + outputs(t, k));
        assert(outputs(s, k + 1) =~= outputs(s, k).push(step(advance(s, k)).1));
    }
}

/// Two engines in the same state hand out the same words, request for
/// request, and stay in the same state.
pub proof fn lemma_same_state_same_words(a: MTRng32, b: MTRng32, k: nat)
    requires
        a@ == b@,
    ensures
        forall|i: nat| i <= k ==> #[trigger] outputs(a@, i) == outputs(b@, i),
        forall|i: nat| i <= k ==> #[trigger] advance(a@, i) == advance(b@, i),
{
}

/// Two engines created from the same scalar seed hand out the same words.
pub proof fn lemma_seed_determinism(seed: u32, a: MTRng32, b: MTRng32, k: nat)
    requires
        a@ == seeded(seed),
        b@ == seeded(seed),
    ensures
        outputs(a@, k) == outputs(b@, k),
        advance(a@, k) == advance(b@, k),
{
}

/// Two engines created from the same key hand out the same words.
pub proof fn lemma_key_determinism(key: Seq<u32>, a: MTRng32, b: MTRng32, k: nat)
    requires
        key.len() > 0,
        a@ == seeded_array(key),
        b@ == seeded_array(key),
    ensures
        outputs(a@, k) == outputs(b@, k),
        advance(a@, k) == advance(b@, k),
{
}

/// An engine reseeded with `seed`, whatever it did before, hands out the
/// same words as a new engine created from `seed`: its state is that of the
/// new engine, with nothing left of the former one.
pub proof fn lemma_reseed_resets(reseeded: MTRng32, fresh: MTRng32, seed: u32, k: nat)
    requires
        reseeded@ == seeded(seed),
        fresh@ == seeded(seed),
    ensures
        reseeded@ == fresh@,
        outputs(reseeded@, k) == outputs(fresh@, k),
{
}

/// The same for a reseed with a key.
pub proof fn lemma_reseed_array_resets(reseeded: MTRng32, fresh: MTRng32, key: Seq<u32>, k: nat)
    requires
        key.len() > 0,
        reseeded@ == seeded_array(key),
        fresh@ == seeded_array(key),
    ensures
        reseeded@ == fresh@,
        outputs(reseeded@, k) == outputs(fresh@, k),
{
}

/// A copy of an engine, and the engine itself, advanced apart, hand out the
/// same words and pass through the same states.
pub proof fn lemma_clone_independent(original: MTRng32, copy: MTRng32, k: nat)
    requires
        copy@ == original@,
    ensures
        forall|i: nat| i <= k ==> #[trigger] outputs(copy@, i) == outputs(original@, i),
        forall|i: nat| i <= k ==> #[trigger] advance(copy@, i) == advance(original@, i),
{
}

/// The number of words left in the block of state `s`.
pub open spec fn words_left(s: State) -> nat {
    if s.cursor >= N { 0 } else { (N - s.cursor) as nat }
}

/// The next `k` requests run no twist while the block lasts, and then one
/// for each `N` words begun.
pub proof fn lemma_twist_count(s: State, k: nat)
    ensures
        twist_count(s, k) == if k <= words_left(s) { 0 } else { ((k - words_left(s) + N - 1) / N as int) as nat },
    decreases k,
{
    if k > 0 {
        lemma_twist_count(step(s).0, (k - 1) as nat);
        if s.cursor >= N {
            let x = k - 1;
            assert((x + N) / N as int == 1 + x / N as int) by (nonlinear_arith)
                requires x >= 0;
        }
    }
}

/// From a freshly seeded engine, `2N + 1` words run three twists: one for
/// the first word, and two more when the first and the second block are
/// spent.
pub proof fn lemma_two_blocks_after_first(s: State)
    requires
        s.cursor == N,
    ensures
        twist_count(s, 1) == 1,
        twist_count(step(s).0, 2 * N as nat) == 2,
        twist_count(s, 2 * N as nat + 1) == 3,
{
    lemma_twist_count(s, 1);
    lemma_twist_count(step(s).0, 2 * N as nat);
    lemma_twist_count(s, 2 * N as nat + 1);
}

/// The tempering transform that turns a raw state word into an output word.
pub open spec fn temper(x: u32) -> u32 {
    let y1 = x ^ (x >> 11u32);
    let y2 = y1 ^ ((y1 << 7u32) & TEMPER_B);
    let y3 = y2 ^ ((y2 << 15u32) & TEMPER_C);
    y3 ^ (y3 >> 18u32)
}

fn twist_next(hi: u32, lo: u32, far: u32) -> (r: u32)
    ensures
        r == twist_word(hi, lo, far),
{
    let y = (hi & UPPER_MASK) | (lo & LOWER_MASK);
    let odd = if y & 1 == 0 { 0u32 } else { MATRIX_A };
    far ^ (y >> 1) ^ odd
}

fn temper_word(x: u32) -> (r: u32)
    ensures
        r == temper(x),
{
    let mut y = x;
    y ^= y >> 11;
    y ^= (y << 7) & TEMPER_B;
    y ^= (y << 15) & TEMPER_C;
    y ^= y >> 18;
    y
}

} // verus!
