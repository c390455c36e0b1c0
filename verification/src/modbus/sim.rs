//! Values that move by themselves: simulation of a block and counting of single entries.
use crate::modbus::store::{DataStore, StoreView};
use crate::modbus::{Area, SimCfg, SimMode};
use vstd::prelude::*;

verus! {

/// A source of pseudo-random numbers.
#[derive(Clone, Copy, Debug)]
pub struct Xorshift {
    pub state: u64,
}

/// The state after `x`, which is also the number that is drawn.
pub open spec fn shifted(x: u64) -> u64 {
    let a = x ^ (x << 13);
    let b = a ^ (a >> 7);
    b ^ (b << 17)
}

impl Xorshift {
    /// A source that starts from a seed; the state is never zero.
    pub fn new(seed: u64) -> (r: Xorshift)
        ensures
            r.state == seed | 1,
            r.state != 0,
    {
        assert(seed | 1 != 0) by (bit_vector);
        Xorshift { state: seed | 1 }
    }

    /// Draws a number.
    pub fn next(&mut self) -> (r: u64)
        ensures
            r == shifted(old(self).state),
            final(self).state == r,
    {
        let mut x: u64 = self.state;
        x = x ^ (x << 13);
        x = x ^ (x >> 7);
        x = x ^ (x << 17);
        self.state = x;
        x
    }
}

/// The source never gets stuck: a state other than zero is followed by one other than zero.
pub proof fn law_random_source_never_dies(x: u64)
    requires
        x != 0,
    ensures
        shifted(x) != 0,
{
    assert(x != 0 ==> x ^ (x << 13) != 0) by (bit_vector);
    let a = x ^ (x << 13);
    assert(a != 0 ==> a ^ (a >> 7) != 0) by (bit_vector);
    let b = a ^ (a >> 7);
    assert(b != 0 ==> b ^ (b << 17) != 0) by (bit_vector);
}

/// The lesser of two numbers.
pub open spec fn lesser(a: i64, b: i64) -> i64 {
    if a < b {
        a
    } else {
        b
    }
}

/// The greater of two numbers.
pub open spec fn greater(a: i64, b: i64) -> i64 {
    if a < b {
        b
    } else {
        a
    }
}

/// The number after `cur`, before it is cut to 16 bits. Limits in the wrong order are swapped.
pub open spec fn stepped(cur: u16, mode: SimMode, step: u16, min: i64, max: i64, draw: u64) -> int {
    let lo = lesser(min, max);
    let hi = greater(min, max);
    match mode {
        SimMode::Increment => if cur + step > hi {
            lo as int
        } else {
            cur + step
        },
        SimMode::Decrement => if cur - step < lo {
            hi as int
        } else {
            cur - step
        },
        SimMode::Random => lo + (draw as int) % (hi - lo + 1),
        SimMode::Toggle => if cur != lo {
            lo as int
        } else {
            hi as int
        },
        SimMode::Off => cur as int,
    }
}

/// A number cut to 16 bits.
pub open spec fn low16(n: int) -> u16 {
    (n % 0x1_0000) as u16
}

fn cut16(n: i64) -> (r: u16)
    ensures
        r == low16(n as int),
{
    let m: i64 = n % 0x1_0000;
    if m < 0 {
        (m + 0x1_0000) as u16
    } else {
        m as u16
    }
}

/// The value after one step of the simulation.
pub fn step_value(cur: u16, mode: SimMode, step: u16, min: i64, max: i64, rng: &mut Xorshift) -> (r:
    u16)
    ensures
        r == low16(stepped(cur, mode, step, min, max, shifted(old(rng).state))),
        final(rng).state == if mode == SimMode::Random {
            shifted(old(rng).state)
        } else {
            old(rng).state
        },
{
    let lo: i64 = if min < max {
        min
    } else {
        max
    };
    let hi: i64 = if min < max {
        max
    } else {
        min
    };
    let cur64: i64 = cur as i64;
    let next: i64 = match mode {
        SimMode::Increment => {
            let n: i64 = cur64 + step as i64;
            if n > hi {
                lo
            } else {
                n
            }
        },
        SimMode::Decrement => {
            let n: i64 = cur64 - step as i64;
            if n < lo {
                hi
            } else {
                n
            }
        },
        SimMode::Random => {
            let span: i128 = hi as i128 - lo as i128 + 1;
            let draw: u64 = rng.next();
            let offset: i128 = draw as i128 % span;
            assert(offset < span);
            (lo as i128 + offset) as i64
        },
        SimMode::Toggle => if cur64 != lo {
            lo
        } else {
            hi
        },
        SimMode::Off => cur64,
    };
    cut16(next)
}

/// Values that start within the limits of their simulation stay within them.
pub proof fn law_simulated_values_stay_within(
    cur: u16,
    mode: SimMode,
    step: u16,
    min: i64,
    max: i64,
    draw: u64,
)
    requires
        0 <= min <= max <= 0xFFFF,
        min <= cur <= max,
    ensures
        min <= stepped(cur, mode, step, min, max, draw) <= max,
        low16(stepped(cur, mode, step, min, max, draw)) == stepped(cur, mode, step, min, max, draw),
{
    if mode == SimMode::Random {
        let span = max - min + 1;
        vstd::arithmetic::div_mod::lemma_mod_bound(draw as int, span);
    }
    let n = stepped(cur, mode, step, min, max, draw);
    vstd::arithmetic::div_mod::lemma_small_mod(n as nat, 0x1_0000);
}

// ---------------------------------------------------------------- one entry

/// The tables with one entry counted up or, where it is a bit, flipped.
pub open spec fn bumped(s: StoreView, area: Area, addr: u16) -> StoreView {
    let i = addr as int;
    match area {
        Area::Coils => if i < s.coils.len() {
            StoreView { coils: s.coils.update(i, !s.coils[i]), ..s }
        } else {
            s
        },
        Area::DiscreteInputs => if i < s.discrete_inputs.len() {
            StoreView { discrete_inputs: s.discrete_inputs.update(i, !s.discrete_inputs[i]), ..s }
        } else {
            s
        },
        Area::HoldingRegisters => if i < s.holding.len() {
            StoreView { holding: s.holding.update(i, low16(s.holding[i] + 1)), ..s }
        } else {
            s
        },
        Area::InputRegisters => if i < s.input.len() {
            StoreView { input: s.input.update(i, low16(s.input[i] + 1)), ..s }
        } else {
            s
        },
    }
}

/// Counts one entry up, or flips it where it is a bit.
pub fn bump_one(store: &mut DataStore, area: Area, addr: u16)
    ensures
        final(store)@ == bumped(old(store)@, area, addr),
{
    let i: usize = addr as usize;
    match area {
        Area::Coils => {
            if i < store.coils.len() {
                let b: bool = store.coils[i];
                store.coils.set(i, !b);
            }
        },
        Area::DiscreteInputs => {
            if i < store.discrete_inputs.len() {
                let b: bool = store.discrete_inputs[i];
                store.discrete_inputs.set(i, !b);
            }
        },
        Area::HoldingRegisters => {
            if i < store.holding.len() {
                let v: u16 = store.holding[i];
                store.holding.set(i, v.wrapping_add(1));
            }
        },
        Area::InputRegisters => {
            if i < store.input.len() {
                let v: u16 = store.input[i];
                store.input.set(i, v.wrapping_add(1));
            }
        },
    }
}

// ---------------------------------------------------------------- blocks

/// Whether the entry at an address moves.
pub open spec fn moves(cfg: SimCfg, i: int) -> bool {
    cfg.target < 0 || cfg.target == i
}

/// Whether the entry at an address moves.
pub fn sim_hits(cfg: &SimCfg, i: usize) -> (r: bool)
    ensures
        r == moves(*cfg, i as int),
{
    cfg.target < 0 || cfg.target as usize == i
}

/// Registers and source of numbers after the entries from `lo` up to `k` moved.
pub open spec fn words_moved(mem: Seq<u16>, lo: int, k: int, cfg: SimCfg, state: u64) -> (
    Seq<u16>,
    u64,
)
    decreases k - lo,
{
    if k <= lo {
        (mem, state)
    } else {
        let before = words_moved(mem, lo, k - 1, cfg, state);
        if moves(cfg, k - 1) {
            (
                before.0.update(
                    k - 1,
                    low16(
                        stepped(
                            before.0[k - 1],
                            cfg.mode,
                            cfg.step,
                            cfg.min,
                            cfg.max,
                            shifted(before.1),
                        ),
                    ),
                ),
                if cfg.mode == SimMode::Random {
                    shifted(before.1)
                } else {
                    before.1
                },
            )
        } else {
            before
        }
    }
}

/// A bit after a step: drawn, kept, or flipped.
pub open spec fn bit_stepped(cur: bool, mode: SimMode, draw: u64) -> bool {
    match mode {
        SimMode::Random => draw & 1 == 1,
        SimMode::Off => cur,
        _ => !cur,
    }
}

/// Bits and source of numbers after the entries from `lo` up to `k` moved.
pub open spec fn bits_moved(mem: Seq<bool>, lo: int, k: int, cfg: SimCfg, state: u64) -> (
    Seq<bool>,
    u64,
)
    decreases k - lo,
{
    if k <= lo {
        (mem, state)
    } else {
        let before = bits_moved(mem, lo, k - 1, cfg, state);
        if moves(cfg, k - 1) {
            (
                before.0.update(k - 1, bit_stepped(before.0[k - 1], cfg.mode, shifted(before.1))),
                if cfg.mode == SimMode::Random {
                    shifted(before.1)
                } else {
                    before.1
                },
            )
        } else {
            before
        }
    }
}

/// The end of a block within a table.
pub open spec fn block_end(len: nat, hi: int) -> int {
    if hi < len {
        hi
    } else {
        len as int
    }
}

/// Moves the registers of a block.
pub fn sim_regs(mem: &mut Vec<u16>, lo: usize, hi: usize, cfg: &SimCfg, rng: &mut Xorshift)
    ensures
        final(mem)@ == words_moved(
            old(mem)@,
            lo as int,
            block_end(old(mem)@.len(), hi as int),
            *cfg,
            old(rng).state,
        ).0,
        final(rng).state == words_moved(
            old(mem)@,
            lo as int,
            block_end(old(mem)@.len(), hi as int),
            *cfg,
            old(rng).state,
        ).1,
        final(mem)@.len() == old(mem)@.len(),
{
    let end: usize = if hi < mem.len() {
        hi
    } else {
        mem.len()
    };
    let ghost before = mem@;
    let ghost state = rng.state;
    let mut i: usize = lo;
    while i < end
        invariant
            lo <= i,
            i <= end || i == lo,
            end <= mem@.len(),
            mem@.len() == before.len(),
            mem@ == words_moved(before, lo as int, i as int, *cfg, state).0,
            rng.state == words_moved(before, lo as int, i as int, *cfg, state).1,
        decreases end - i,
    {
        if sim_hits(cfg, i) {
            let v: u16 = step_value(mem[i], cfg.mode, cfg.step, cfg.min, cfg.max, rng);
            mem.set(i, v);
        }
        i += 1;
    }
}

/// Moves the bits of a block.
pub fn sim_bits(mem: &mut Vec<bool>, lo: usize, hi: usize, cfg: &SimCfg, rng: &mut Xorshift)
    ensures
        final(mem)@ == bits_moved(
            old(mem)@,
            lo as int,
            block_end(old(mem)@.len(), hi as int),
            *cfg,
            old(rng).state,
        ).0,
        final(rng).state == bits_moved(
            old(mem)@,
            lo as int,
            block_end(old(mem)@.len(), hi as int),
            *cfg,
            old(rng).state,
        ).1,
        final(mem)@.len() == old(mem)@.len(),
{
    let end: usize = if hi < mem.len() {
        hi
    } else {
        mem.len()
    };
    let ghost before = mem@;
    let ghost state = rng.state;
    let mut i: usize = lo;
    while i < end
        invariant
            lo <= i,
            i <= end || i == lo,
            end <= mem@.len(),
            mem@.len() == before.len(),
            mem@ == bits_moved(before, lo as int, i as int, *cfg, state).0,
            rng.state == bits_moved(before, lo as int, i as int, *cfg, state).1,
        decreases end - i,
    {
        if sim_hits(cfg, i) {
            let b: bool = match cfg.mode {
                SimMode::Random => rng.next() & 1 == 1,
                SimMode::Off => mem[i],
                _ => !mem[i],
            };
            mem.set(i, b);
        }
        i += 1;
    }
}

/// The tables and the source of numbers after one tick of a simulation.
pub open spec fn simulated(s: StoreView, cfg: SimCfg, state: u64) -> (StoreView, u64) {
    let lo = cfg.address as int;
    let hi = cfg.address + cfg.quantity;
    match cfg.area {
        Area::HoldingRegisters => {
            let r = words_moved(s.holding, lo, block_end(s.holding.len(), hi), cfg, state);
            (StoreView { holding: r.0, ..s }, r.1)
        },
        Area::InputRegisters => {
            let r = words_moved(s.input, lo, block_end(s.input.len(), hi), cfg, state);
            (StoreView { input: r.0, ..s }, r.1)
        },
        Area::Coils => {
            let r = bits_moved(s.coils, lo, block_end(s.coils.len(), hi), cfg, state);
            (StoreView { coils: r.0, ..s }, r.1)
        },
        Area::DiscreteInputs => {
            let r = bits_moved(
                s.discrete_inputs,
                lo,
                block_end(s.discrete_inputs.len(), hi),
                cfg,
                state,
            );
            (StoreView { discrete_inputs: r.0, ..s }, r.1)
        },
    }
}

/// One tick of a simulation.
pub fn apply_sim(store: &mut DataStore, cfg: &SimCfg, rng: &mut Xorshift)
    ensures
        final(store)@ == simulated(old(store)@, *cfg, old(rng).state).0,
        final(rng).state == simulated(old(store)@, *cfg, old(rng).state).1,
{
    let lo: usize = cfg.address as usize;
    let hi: usize = lo + cfg.quantity as usize;
    match cfg.area {
        Area::HoldingRegisters => sim_regs(&mut store.holding, lo, hi, cfg, rng),
        Area::InputRegisters => sim_regs(&mut store.input, lo, hi, cfg, rng),
        Area::Coils => sim_bits(&mut store.coils, lo, hi, cfg, rng),
        Area::DiscreteInputs => sim_bits(&mut store.discrete_inputs, lo, hi, cfg, rng),
    }
}

proof fn lemma_words_moved_frame(mem: Seq<u16>, lo: int, k: int, cfg: SimCfg, state: u64, i: int)
    requires
        0 <= lo,
        k <= mem.len(),
        0 <= i < mem.len(),
        !(lo <= i < k) || !moves(cfg, i),
    ensures
        words_moved(mem, lo, k, cfg, state).0.len() == mem.len(),
        words_moved(mem, lo, k, cfg, state).0[i] == mem[i],
    decreases k - lo,
{
    if k > lo {
        lemma_words_moved_frame(mem, lo, k - 1, cfg, state, i);
    }
}

/// Registers outside the simulated block, and those that are not its target, keep their values.
pub proof fn law_simulation_moves_its_block_only(s: StoreView, cfg: SimCfg, state: u64, i: int)
    requires
        s.complete(),
        cfg.area == Area::HoldingRegisters,
        0 <= i < s.holding.len(),
        i < cfg.address || i >= cfg.address + cfg.quantity || !moves(cfg, i),
    ensures
        simulated(s, cfg, state).0.holding[i] == s.holding[i],
        simulated(s, cfg, state).0.input == s.input,
        simulated(s, cfg, state).0.coils == s.coils,
        simulated(s, cfg, state).0.discrete_inputs == s.discrete_inputs,
{
    let hi = block_end(s.holding.len(), cfg.address + cfg.quantity);
    lemma_words_moved_frame(s.holding, cfg.address as int, hi, cfg, state, i);
}

} // verus!
