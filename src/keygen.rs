//! The Mersenne-Twister-style word generator that drives key-table
//! derivation, in 32-bit signed arithmetic with arithmetic right shifts.

use vstd::prelude::*;

verus! {

pub const STATE_LENGTH: usize = 624;

pub const STATE_M: usize = 397;

pub const MATRIX_A: i32 = -1727483681;

pub const TEMPERING_MASK_B: i32 = -1658038656;

pub const TEMPERING_MASK_C: i32 = -272236544;

pub const SEED_MULTIPLIER: i32 = 0x6C078965;

/// Entry `i` of the state vector right after seeding with `seed`.
pub open spec fn seed_word(seed: i32, i: nat) -> i32
    decreases i,
{
    if i == 0 {
        seed
    } else {
        let prev = seed_word(seed, (i - 1) as nat);
        (i as i32).wrapping_add(SEED_MULTIPLIER.wrapping_mul(prev ^ (prev >> 30u32)))
    }
}

/// The whole state vector right after seeding with `seed`.
pub open spec fn seeded_state(seed: i32) -> Seq<i32> {
    Seq::new(STATE_LENGTH as nat, |i: int| seed_word(seed, i as nat))
}

/// The new value of a state word, from the word itself (`cur`), its
/// successor (`next`) and the word `STATE_M` places further on (`far`).
pub open spec fn twist_word(cur: i32, next: i32, far: i32) -> i32 {
    let y = cur ^ ((cur ^ next) & 0x7FFFFFFF);
    far ^ (y >> 1u32) ^ (if y & 1 != 0 {
        MATRIX_A
    } else {
        0
    })
}

/// The state after the regeneration pass has rewritten words `0..k` in place.
pub open spec fn twist_upto(s: Seq<i32>, k: nat) -> Seq<i32>
    decreases k,
{
    if k == 0 {
        s
    } else {
        let t = twist_upto(s, (k - 1) as nat);
        let i = k - 1;
        t.update(
            i,
            twist_word(
                t[i],
                t[(i + 1) % (STATE_LENGTH as int)],
                t[(i + STATE_M) % (STATE_LENGTH as int)],
            ),
        )
    }
}

/// The state after a full regeneration pass.
pub open spec fn twisted(s: Seq<i32>) -> Seq<i32> {
    twist_upto(s, STATE_LENGTH as nat)
}

/// The tempering transform applied to each raw state word on output.
pub open spec fn temper(y0: i32) -> i32 {
    let y1 = y0 ^ (y0 >> 11u32);
    let y2 = y1 ^ ((y1 << 7u32) & TEMPERING_MASK_B);
    let y3 = y2 ^ ((y2 << 15u32) & TEMPERING_MASK_C);
    y3 ^ (y3 >> 18u32)
}

/// Generator model: the state vector and the cursor into it.
pub struct GenState {
    pub words: Seq<i32>,
    pub pos: nat,
}

/// One draw: the state that follows and the word returned.
pub open spec fn gen_step(g: GenState) -> (GenState, i32) {
    let words = if g.pos >= STATE_LENGTH {
        twisted(g.words)
    } else {
        g.words
    };
    let pos: nat = if g.pos >= STATE_LENGTH {
        0
    } else {
        g.pos
    };
    (GenState { words, pos: pos + 1 }, temper(words[pos as int]))
}

/// The generator right after seeding.
pub open spec fn gen_seeded(seed: i32) -> GenState {
    GenState { words: seeded_state(seed), pos: STATE_LENGTH as nat }
}

/// The generator seeded with `seed`, after `k` draws.
pub open spec fn gen_after(seed: i32, k: nat) -> GenState
    decreases k,
{
    if k == 0 {
        gen_seeded(seed)
    } else {
        gen_step(gen_after(seed, (k - 1) as nat)).0
    }
}

/// Draw number `k` (counting from zero) of the generator seeded with `seed`.
pub open spec fn gen_output(seed: i32, k: nat) -> i32 {
    gen_step(gen_after(seed, k)).1
}

pub struct KeyTableGenerator {
    m_table: Vec<i32>,
    m_pos: usize,
}

impl View for KeyTableGenerator {
    type V = GenState;

    closed spec fn view(&self) -> GenState {
        GenState { words: self.m_table@, pos: self.m_pos as nat }
    }
}

fn twist_word_exec(cur: i32, next: i32, far: i32) -> (r: i32)
    ensures
        r == twist_word(cur, next, far),
{
    let y: i32 = cur ^ ((cur ^ next) & 0x7FFFFFFF);
    far ^ (y >> 1u32) ^ (if y & 1 != 0 {
        MATRIX_A
    } else {
        0
    })
}

fn temper_exec(y0: i32) -> (r: i32)
    ensures
        r == temper(y0),
{
    let y1: i32 = y0 ^ (y0 >> 11u32);
    let y2: i32 = y1 ^ ((y1 << 7u32) & TEMPERING_MASK_B);
    let y3: i32 = y2 ^ ((y2 << 15u32) & TEMPERING_MASK_C);
    y3 ^ (y3 >> 18u32)
}

impl KeyTableGenerator {
    pub closed spec fn wf(&self) -> bool {
        &&& self.m_table@.len() == STATE_LENGTH
        &&& self.m_pos <= STATE_LENGTH
    }

    /// A generator seeded with `seed`.
    pub fn new(seed: i32) -> (g: Self)
        ensures
            g.wf(),
            g@ == gen_seeded(seed),
    {
        let mut m_table: Vec<i32> = Vec::with_capacity(STATE_LENGTH);
        let mut i: usize = 0;
        while i < STATE_LENGTH
            invariant
                i <= STATE_LENGTH,
                m_table@.len() == i,
            decreases STATE_LENGTH - i,
        {
            m_table.push(0);
            i = i + 1;
        }
        let mut g = KeyTableGenerator { m_table, m_pos: 0 };
        g.s_rand(seed);
        g
    }

    /// Reseeds the whole state with `seed`.
    pub fn s_rand(&mut self, seed: i32)
        requires
            old(self).wf(),
        ensures
            final(self).wf(),
            final(self)@ == gen_seeded(seed),
    {
        self.m_table.set(0, seed);
        let mut i: usize = 1;
        while i < STATE_LENGTH
            invariant
                1 <= i <= STATE_LENGTH,
                self.m_table@.len() == STATE_LENGTH,
                forall|j: int| 0 <= j < i ==> self.m_table@[j] == seed_word(seed, j as nat),
            decreases STATE_LENGTH - i,
        {
            let last: i32 = self.m_table[i - 1];
            let v: i32 = (i as i32).wrapping_add(SEED_MULTIPLIER.wrapping_mul(last ^ (last >> 30u32)));
            self.m_table.set(i, v);
            i = i + 1;
        }
        self.m_pos = STATE_LENGTH;
        assert(self.m_table@ =~= seeded_state(seed));
    }

    fn regenerate(&mut self)
        requires
            old(self).wf(),
        ensures
            final(self).m_table@ == twisted(old(self).m_table@),
            final(self).m_pos == old(self).m_pos,
            final(self).wf(),
    {
        let ghost start = self.m_table@;
        let mut i: usize = 0;
        while i < STATE_LENGTH
            invariant
                i <= STATE_LENGTH,
                self.m_table@ == twist_upto(start, i as nat),
                self.m_table@.len() == STATE_LENGTH,
                self.m_pos == old(self).m_pos,
                self.m_pos <= STATE_LENGTH,
            decreases STATE_LENGTH - i,
        {
            let n: usize = if i + 1 == STATE_LENGTH {
                0
            } else {
                i + 1
            };
            let f: usize = if i < STATE_LENGTH - STATE_M {
                i + STATE_M
            } else {
                i - (STATE_LENGTH - STATE_M)
            };
            assert(n as int == (i + 1) % (STATE_LENGTH as int));
            assert(f as int == (i + STATE_M) % (STATE_LENGTH as int));
            let v: i32 = twist_word_exec(self.m_table[i], self.m_table[n], self.m_table[f]);
            self.m_table.set(i, v);
            i = i + 1;
        }
    }

    /// Draws the next word.
    pub fn rand(&mut self) -> (r: i32)
        requires
            old(self).wf(),
        ensures
            final(self).wf(),
            (final(self)@, r) == gen_step(old(self)@),
    {
        if self.m_pos >= STATE_LENGTH {
            self.regenerate();
            self.m_pos = 0;
        }
        let y: i32 = self.m_table[self.m_pos];
        self.m_pos = self.m_pos + 1;
        temper_exec(y)
    }
}

} // verus!
