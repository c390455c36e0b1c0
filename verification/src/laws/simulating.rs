//! Laws on the simulated server's values: simulation, edits and counting.
use crate::modbus::grid::{slave_window, PollData, SlaveView};
use crate::modbus::sim::{bits_moved, bumped, low16, moves, simulated, stepped, words_moved};
use crate::modbus::store::{DataStore, StoreView};
use crate::modbus::updater::{SlaveAction, SlaveMsg, SlaveUpdater};
use crate::modbus::{Area, SimCfg, SimMode};
use vstd::prelude::*;

verus! {

/// Counting up adds the step and starts over at the least value beyond the greatest; counting down
/// mirrors it; toggling goes between the two; a random value lies between them; without simulation
/// the value stays.
pub proof fn law_values_move_by_their_mode(
    cur: u16,
    mode: SimMode,
    step: u16,
    min: i64,
    max: i64,
    draw: u64,
)
    requires
        0 <= min <= max <= 0xFFFF,
    ensures
        ({
            let next = low16(stepped(cur, mode, step, min, max, draw));
            &&& mode == SimMode::Increment && cur + step <= max ==> next - cur == step
            &&& mode == SimMode::Increment && cur + step > max ==> next == min
            &&& mode == SimMode::Decrement && cur - step >= min ==> cur - next == step
            &&& mode == SimMode::Decrement && cur - step < min ==> next == max
            &&& mode == SimMode::Toggle && cur == min ==> next == max
            &&& mode == SimMode::Toggle && cur != min ==> next == min
            &&& mode == SimMode::Random ==> min <= next <= max && (draw - (next - min)) % (max - min
                + 1) == 0
            &&& mode == SimMode::Off ==> next == cur
            // The limits may be given in either order.
            &&& stepped(cur, mode, step, max, min, draw) == stepped(cur, mode, step, min, max, draw)
        }),
{
    let m = max - min + 1;
    let d = draw as int;
    vstd::arithmetic::div_mod::lemma_mod_bound(d, m);
    vstd::arithmetic::div_mod::lemma_fundamental_div_mod(d, m);
    assert((d - d % m) % m == 0) by {
        vstd::arithmetic::div_mod::lemma_mod_multiples_basic(d / m, m);
        assert(d - d % m == (d / m) * m) by (nonlinear_arith)
            requires
                d == m * (d / m) + d % m,
        ;
    }
}

proof fn lemma_words(mem: Seq<u16>, lo: int, k: int, cfg: SimCfg, state: u64, i: int)
    requires
        0 <= lo,
        k <= mem.len(),
        0 <= i < mem.len(),
        cfg.mode != SimMode::Random,
    ensures
        words_moved(mem, lo, k, cfg, state).0.len() == mem.len(),
        words_moved(mem, lo, k, cfg, state).0[i] == (if lo <= i < k && moves(cfg, i) {
            low16(stepped(mem[i], cfg.mode, cfg.step, cfg.min, cfg.max, 0))
        } else {
            mem[i]
        }),
    decreases k - lo,
{
    if k > lo {
        lemma_words(mem, lo, k - 1, cfg, state, i);
        lemma_words(mem, lo, k - 1, cfg, state, k - 1);
    }
}

proof fn lemma_bits(mem: Seq<bool>, lo: int, k: int, cfg: SimCfg, state: u64, i: int)
    requires
        0 <= lo,
        k <= mem.len(),
        0 <= i < mem.len(),
        cfg.mode != SimMode::Random,
    ensures
        bits_moved(mem, lo, k, cfg, state).0.len() == mem.len(),
        bits_moved(mem, lo, k, cfg, state).0[i] == (if lo <= i < k && moves(cfg, i) && cfg.mode
            != SimMode::Off {
            !mem[i]
        } else {
            mem[i]
        }),
    decreases k - lo,
{
    if k > lo {
        lemma_bits(mem, lo, k - 1, cfg, state, i);
        lemma_bits(mem, lo, k - 1, cfg, state, k - 1);
    }
}

/// Whether the simulation reaches an address: within its block, and the one address that it is
/// for, if it is for one.
pub open spec fn reached(cfg: SimCfg, i: int) -> bool {
    cfg.address <= i < cfg.address + cfg.quantity && (cfg.target < 0 || i == cfg.target)
}

/// The simulation moves every value that it is for once, in its own table, and nothing else: a
/// register by its mode, a bit to its opposite.
pub proof fn law_the_simulation_moves_its_values(s: StoreView, cfg: SimCfg, state: u64, i: int)
    requires
        s.complete(),
        cfg.mode != SimMode::Random,
        0 <= i < 65536,
    ensures
        ({
            let z = simulated(s, cfg, state).0;
            &&& z.complete()
            &&& cfg.area != Area::Coils ==> z.coils == s.coils
            &&& cfg.area != Area::DiscreteInputs ==> z.discrete_inputs == s.discrete_inputs
            &&& cfg.area != Area::HoldingRegisters ==> z.holding == s.holding
            &&& cfg.area != Area::InputRegisters ==> z.input == s.input
            &&& !reached(cfg, i) ==> z.coils[i] == s.coils[i] && z.discrete_inputs[i]
                == s.discrete_inputs[i] && z.holding[i] == s.holding[i] && z.input[i] == s.input[i]
            &&& reached(cfg, i) && cfg.area == Area::HoldingRegisters ==> z.holding[i] == low16(
                stepped(s.holding[i], cfg.mode, cfg.step, cfg.min, cfg.max, 0),
            )
            &&& reached(cfg, i) && cfg.area == Area::InputRegisters ==> z.input[i] == low16(
                stepped(s.input[i], cfg.mode, cfg.step, cfg.min, cfg.max, 0),
            )
            &&& reached(cfg, i) && cfg.area == Area::Coils && cfg.mode != SimMode::Off
                ==> z.coils[i] == !s.coils[i]
            &&& reached(cfg, i) && cfg.area == Area::DiscreteInputs && cfg.mode != SimMode::Off
                ==> z.discrete_inputs[i] == !s.discrete_inputs[i]
        }),
{
    let lo = cfg.address as int;
    let hi = if cfg.address + cfg.quantity < 65536 {
        cfg.address + cfg.quantity
    } else {
        65536int
    };
    lemma_words(s.holding, lo, hi, cfg, state, i);
    lemma_words(s.input, lo, hi, cfg, state, i);
    lemma_bits(s.coils, lo, hi, cfg, state, i);
    lemma_bits(s.discrete_inputs, lo, hi, cfg, state, i);
}

/// Counting one entry up adds one to a register, around after 65535, and flips a bit; nothing else
/// changes.
pub proof fn law_counting_changes_one_entry(s: StoreView, area: Area, addr: u16, i: int)
    requires
        s.complete(),
        0 <= i < 65536,
    ensures
        ({
            let z = bumped(s, area, addr);
            &&& z.complete()
            &&& z.coils[i] == (s.coils[i] != (area == Area::Coils && i == addr))
            &&& z.discrete_inputs[i] == (s.discrete_inputs[i] != (area == Area::DiscreteInputs && i
                == addr))
            &&& z.holding[i] == (if area == Area::HoldingRegisters && i == addr {
                if s.holding[i] == 65535 {
                    0int
                } else {
                    s.holding[i] + 1
                }
            } else {
                s.holding[i] as int
            })
            &&& z.input[i] == (if area == Area::InputRegisters && i == addr {
                if s.input[i] == 65535 {
                    0int
                } else {
                    s.input[i] + 1
                }
            } else {
                s.input[i] as int
            })
        }),
{
}

/// A view of the server shows the table of its area, from its address on, as many entries as asked
/// for or as there are.
pub proof fn law_views_show_their_area(store: DataStore, view: SlaveView, r: PollData, i: int)
    requires
        call_ensures(slave_window, (&store, &view), r),
        store@.complete(),
        0 <= i < view.quantity,
        view.address + i < 65536,
    ensures
        match view.area {
            Area::Coils => r matches PollData::Bits(v) && i < v@.len() <= view.quantity && v@[i]
                == store.coils@[view.address + i],
            Area::DiscreteInputs => r matches PollData::Bits(v) && i < v@.len() <= view.quantity
                && v@[i] == store.discrete_inputs@[view.address + i],
            Area::HoldingRegisters => r matches PollData::Regs(v) && i < v@.len() <= view.quantity
                && v@[i] == store.holding@[view.address + i],
            Area::InputRegisters => r matches PollData::Regs(v) && i < v@.len() <= view.quantity
                && v@[i] == store.input@[view.address + i],
        },
{
}

/// An edit writes one entry of the table that is shown, or of the one that it names; names, formats
/// and the simulation are kept apart.
pub proof fn law_edits_change_one_entry(
    before: SlaveUpdater,
    after: SlaveUpdater,
    s: StoreView,
    z: StoreView,
    area: Area,
    address: u16,
    bit: Option<bool>,
    word: Option<u16>,
    action: SlaveAction,
    i: int,
)
    requires
        after.obeys(&before, z, s, SlaveMsg::EditAt { area, address, bit, word }, action) || (after.obeys(
            &before,
            z,
            s,
            SlaveMsg::Edit { address, bit, word },
            action,
        ) && area == before.view.area),
        s.complete(),
        0 <= i < 65536,
    ensures
        after.sim == before.sim,
        after.names == before.names,
        z.coils[i] == (if area == Area::Coils && i == address && bit is Some {
            bit->0
        } else {
            s.coils[i]
        }),
        z.discrete_inputs[i] == (if area == Area::DiscreteInputs && i == address && bit is Some {
            bit->0
        } else {
            s.discrete_inputs[i]
        }),
        z.holding[i] == (if area == Area::HoldingRegisters && i == address && word is Some {
            word->0
        } else {
            s.holding[i]
        }),
        z.input[i] == (if area == Area::InputRegisters && i == address && word is Some {
            word->0
        } else {
            s.input[i]
        }),
{
}

/// A simulation that is started runs with its settings, every so many milliseconds but at most
/// twenty times a second, until it is stopped; neither touches the tables.
pub proof fn law_simulations_start_and_stop(
    before: SlaveUpdater,
    started: SlaveUpdater,
    stopped: SlaveUpdater,
    s: StoreView,
    z1: StoreView,
    z2: StoreView,
    cfg: SimCfg,
    a1: SlaveAction,
    a2: SlaveAction,
)
    requires
        started.obeys(&before, z1, s, SlaveMsg::SimStart(cfg), a1),
        stopped.obeys(&started, z2, z1, SlaveMsg::SimStop, a2),
    ensures
        started.sim == Some(cfg),
        a1 matches SlaveAction::SimulateEvery(ms) && ms >= 50 && (cfg.interval_ms >= 50 ==> ms
            == cfg.interval_ms),
        stopped.sim is None,
        z1 == s && z2 == s,
        stopped.view == before.view && stopped.auto_inc == before.auto_inc,
{
}

/// A name that is set is held for its address only, and a blank one is taken away; counting an
/// entry up is switched on and off for the shown table.
pub proof fn law_names_and_marks_are_held(
    before: SlaveUpdater,
    named: SlaveUpdater,
    marked: SlaveUpdater,
    s: StoreView,
    z1: StoreView,
    z2: StoreView,
    address: u16,
    name: String,
    a1: SlaveAction,
    a2: SlaveAction,
    other: u64,
)
    requires
        named.obeys(&before, z1, s, SlaveMsg::SetName { address, name }, a1),
        marked.obeys(&before, z2, s, SlaveMsg::ToggleAutoInc { address }, a2),
    ensures
        named.names.map().dom().contains(address as u64) == (crate::text::trim(name@).len() > 0),
        crate::text::trim(name@).len() > 0 ==> named.names.map()[address as u64] == name,
        other != address ==> named.names.map().dom().contains(other)
            == before.names.map().dom().contains(other) && named.names.map()[other]
            == before.names.map()[other],
        marked.auto_inc@.contains((before.view.area, address)) == !before.auto_inc@.contains(
            (before.view.area, address),
        ),
        marked.names == before.names,
        z1 == s && z2 == s,
{
}

} // verus!
