//! The material rules: one step of the cell under the cursor, given the
//! random draws that the step consumes.
use vstd::prelude::*;
use crate::api::{CellsApi, Scene, lemma_stepped_trans};
use crate::cells::{Cell, CellType, fresh_in};
use crate::rand::{coin, isize_in, u16_in, u8_in};

verus! {

/// The random draws that one step may consume. Each rule reads only the
/// fields it needs.
#[derive(Clone, Copy, Debug)]
pub struct Rolls {
    /// Horizontal offset for diagonal and sideways moves.
    pub side: isize,
    /// Offset of the neighbour that fire, gas, wood and oil act on.
    pub dx: isize,
    pub dy: isize,
    pub coin_a: bool,
    pub coin_b: bool,
    /// A small draw that gates ignition.
    pub chance: u8,
    /// The age past which fire burns out or gas dissipates.
    pub threshold: u16,
    /// The heat past which wood or oil catches fire.
    pub ignite: u16,
    /// Shade of a single cell that the step creates.
    pub shade: u8,
    /// Shades of the cells that the step creates in its 3x3 neighbourhood,
    /// one per position.
    pub ring_shades: [u8; 9],
}

/// The draws fall in the ranges that `m`'s rule draws them from.
pub open spec fn valid_rolls(r: Rolls, m: CellType) -> bool {
    &&& r.shade <= 100
    &&& forall|i: int| 0 <= i < 9 ==> #[trigger] r.ring_shades[i] <= 100
    &&& -1 <= r.dx <= 1
    &&& -2 <= r.dy <= 3
    &&& -5 <= r.side <= 5
    &&& match m {
        CellType::Sand => r.side == -1 || r.side == 1,
        CellType::Wood => -1 <= r.dy <= 1 && r.chance < 8,
        CellType::Fire => 16 <= r.threshold < 2048 && 1 <= r.ignite < 512,
        CellType::Oil => -1 <= r.dy <= 1 && r.chance < 8,
        CellType::Gas => 8 <= r.threshold < 1024 && -1 <= r.dy <= 3,
        CellType::Lava => -4 <= r.side <= 4 && r.chance < 16,
        _ => true,
    }
}

/// `h` raised by `n`, stopping at the largest `u16`.
pub open spec fn aged(h: u16, n: u16) -> u16 {
    if h + n > u16::MAX {
        u16::MAX
    } else {
        (h + n) as u16
    }
}

pub open spec fn sand_sinks_into(m: CellType) -> bool {
    m == CellType::Water || m == CellType::Oil
}

pub open spec fn water_flows_into(m: CellType) -> bool {
    m == CellType::Air || m == CellType::Oil || m == CellType::Gas || m == CellType::Fire
}

pub open spec fn oil_flows_into(m: CellType) -> bool {
    m == CellType::Air || m == CellType::Fire || m == CellType::Gas
}

/// Materials that a cloner never copies.
pub open spec fn clone_excluded(m: CellType) -> bool {
    m == CellType::Air || m == CellType::Cloner || m == CellType::Stone || m == CellType::Gas
        || m == CellType::Outside
}

/// Offset of the `k`-th cell of the 3x3 neighbourhood, columns outermost.
pub open spec fn ring_dx(k: int) -> int {
    k / 3 - 1
}

pub open spec fn ring_dy(k: int) -> int {
    k % 3 - 1
}

/// Writes a new cell of material `to` over every cell of material `from`
/// among the neighbourhood cells `k..9`, the one at position `i` with shade
/// `shades[i]`.
pub open spec fn fill_ring(s: Scene, k: int, from: CellType, to: CellType, shades: [u8; 9]) -> Scene
    decreases 9 - k,
{
    if k < 0 || k >= 9 {
        s
    } else {
        let s1 = if s.mat(ring_dx(k), ring_dy(k)) == from {
            s.set(ring_dx(k), ring_dy(k), fresh_in(s.palette, to, shades[k] as int))
        } else {
            s
        };
        fill_ring(s1, k + 1, from, to, shades)
    }
}

/// The first material among the neighbourhood cells `k..9` that a cloner
/// copies, or `Air` when there is none.
pub open spec fn clone_source(s: Scene, k: int) -> CellType
    decreases 9 - k,
{
    if k < 0 || k >= 9 {
        CellType::Air
    } else if !clone_excluded(s.mat(ring_dx(k), ring_dy(k))) {
        s.mat(ring_dx(k), ring_dy(k))
    } else {
        clone_source(s, k + 1)
    }
}

/// Sand falls into air, or sinks into water or oil on a coin flip; failing
/// that it tries one diagonal below.
pub open spec fn sand_rule(s: Scene, r: Rolls) -> Scene {
    let below = s.mat(0, -1);
    let diag = s.mat(r.side as int, -1);
    if below == CellType::Air || (sand_sinks_into(below) && r.coin_a) {
        s.swap(0, -1)
    } else if diag == CellType::Air || (sand_sinks_into(diag) && r.coin_b) {
        s.swap(r.side as int, -1)
    } else {
        s
    }
}

/// Water falls into air or gas, or into oil on a coin flip; else it moves
/// diagonally down, else sideways.
pub open spec fn water_rule(s: Scene, r: Rolls) -> Scene {
    let below = s.mat(0, -1);
    if below == CellType::Air || below == CellType::Gas || (below == CellType::Oil && r.coin_a) {
        s.swap(0, -1)
    } else if water_flows_into(s.mat(r.side as int, -1)) {
        s.swap(r.side as int, -1)
    } else if water_flows_into(s.mat(r.side as int, 0)) {
        s.swap(r.side as int, 0)
    } else {
        s
    }
}

/// A cloner copies the first copyable neighbour into every air neighbour.
pub open spec fn cloner_rule(s: Scene, r: Rolls) -> Scene {
    let m = clone_source(s, 0);
    if m == CellType::Air {
        s
    } else {
        fill_ring(s, 0, CellType::Air, m, r.ring_shades)
    }
}

/// Scorched wood now and then sets an air neighbour alight.
pub open spec fn wood_rule(s: Scene, r: Rolls) -> Scene {
    if s.here().discolored && r.chance < 3 && s.mat(r.dx as int, r.dy as int) == CellType::Air {
        s.set(r.dx as int, r.dy as int, fresh_in(s.palette, CellType::Fire, r.shade as int))
    } else {
        s
    }
}

/// Fire ages and burns out into gas; water puts it out; it heats wood and
/// oil until they catch, scorching them meanwhile; it moves into air.
pub open spec fn fire_rule(s: Scene, r: Rolls) -> Scene {
    let c = s.here();
    let s1 = s.poke(0, 0, Cell { health: aged(c.health, 1), ..c });
    let (dx, dy) = (r.dx as int, r.dy as int);
    let t = s1.mat(dx, dy);
    if aged(c.health, 1) > r.threshold {
        s1.set(0, 0, fresh_in(s.palette, CellType::Gas, r.shade as int))
    } else if t == CellType::Water {
        s1.set(0, 0, fresh_in(s.palette, CellType::Gas, r.shade as int))
    } else if t == CellType::Wood || t == CellType::Oil {
        let tc = s1.grid[s1.at(dx, dy)];
        if aged(tc.health, 5) > r.ignite {
            s1.set(dx, dy, fresh_in(s.palette, CellType::Fire, r.shade as int))
        } else {
            s1.poke(dx, dy, Cell { health: aged(tc.health, 5), discolored: true, ..tc })
        }
    } else if t == CellType::Air {
        s1.swap(dx, dy)
    } else {
        s1
    }
}

/// Scorched oil ages and now and then sets an air neighbour alight; then
/// it moves like water, into air, fire or gas.
pub open spec fn oil_rule(s: Scene, r: Rolls) -> Scene {
    let c = s.here();
    let s1 = if c.discolored {
        let s0 = s.poke(0, 0, Cell { health: aged(c.health, 1), ..c });
        if r.chance < 3 && s0.mat(r.dx as int, r.dy as int) == CellType::Air {
            s0.set(r.dx as int, r.dy as int, fresh_in(s.palette, CellType::Fire, r.shade as int))
        } else {
            s0
        }
    } else {
        s
    };
    if oil_flows_into(s1.mat(0, -1)) {
        s1.swap(0, -1)
    } else if oil_flows_into(s1.mat(r.side as int, -1)) {
        s1.swap(r.side as int, -1)
    } else if oil_flows_into(s1.mat(r.side as int, 0)) {
        s1.swap(r.side as int, 0)
    } else {
        s1
    }
}

/// Gas ages and dissipates into air; it drifts into air and vanishes on
/// touching fire.
pub open spec fn gas_rule(s: Scene, r: Rolls) -> Scene {
    let c = s.here();
    let s1 = s.poke(0, 0, Cell { health: aged(c.health, 1), ..c });
    let t = s1.mat(r.dx as int, r.dy as int);
    if aged(c.health, 1) > r.threshold {
        s1.set(0, 0, fresh_in(s.palette, CellType::Air, r.shade as int))
    } else if t == CellType::Air {
        s1.swap(r.dx as int, r.dy as int)
    } else if t == CellType::Fire {
        s1.set(0, 0, fresh_in(s.palette, CellType::Air, r.shade as int))
    } else {
        s1
    }
}

/// Lava flows into air; every water cell around it turns to stone; now and
/// then it lights the air directly below it.
pub open spec fn lava_rule(s: Scene, r: Rolls) -> Scene {
    let s1 = if s.mat(0, -1) == CellType::Air {
        s.swap(0, -1)
    } else if s.mat(r.side as int, -1) == CellType::Air {
        s.swap(r.side as int, -1)
    } else if s.mat(r.side as int, 0) == CellType::Air {
        s.swap(r.side as int, 0)
    } else {
        s
    };
    let s2 = fill_ring(s1, 0, CellType::Water, CellType::Stone, r.ring_shades);
    if s2.mat(0, -1) == CellType::Air && r.chance == 0 {
        s2.set(0, -1, Cell { health: 100, ..fresh_in(s.palette, CellType::Fire, r.shade as int) })
    } else {
        s2
    }
}

/// One step of the cell being advanced.
pub open spec fn rule(s: Scene, r: Rolls) -> Scene {
    match s.here().material {
        CellType::Sand => sand_rule(s, r),
        CellType::Water => water_rule(s, r),
        CellType::Cloner => cloner_rule(s, r),
        CellType::Wood => wood_rule(s, r),
        CellType::Fire => fire_rule(s, r),
        CellType::Oil => oil_rule(s, r),
        CellType::Gas => gas_rule(s, r),
        CellType::Lava => lava_rule(s, r),
        _ => s,
    }
}

fn aged_by(h: u16, n: u16) -> (r: u16)
    ensures
        r == aged(h, n),
{
    if h > u16::MAX - n {
        u16::MAX
    } else {
        h + n
    }
}

/// Writes a new cell of material `to` over every neighbour (and the cell
/// itself) of material `from`.
fn fill_ring_cells(api: &mut CellsApi, from: CellType, to: CellType, shades: &[u8; 9])
    requires
        old(api).wf(),
        forall|i: int| 0 <= i < 9 ==> #[trigger] shades[i] <= 100,
    ensures
        final(api).stepped_from(old(api)),
        final(api).scene() == fill_ring(old(api).scene(), 0, from, to, *shades),
{
    let ghost s0 = api.scene();
    let mut k: usize = 0;
    while k < 9
        invariant
            api.stepped_from(old(api)),
            k <= 9,
            forall|i: int| 0 <= i < 9 ==> #[trigger] shades[i] <= 100,
            fill_ring(api.scene(), k as int, from, to, *shades) == fill_ring(s0, 0, from, to, *shades),
        decreases 9 - k,
    {
        let dx = (k / 3) as isize - 1;
        let dy = (k % 3) as isize - 1;
        if api.cell_by_offset(dx, dy).material == from {
            let cell = Cell::with_palette(&api.world.palette, to, shades[k]);
            api.put_cell(dx, dy, cell);
        }
        k = k + 1;
    }
}

/// The first copyable material in the neighbourhood, or `Air`.
fn find_clone_source(api: &CellsApi) -> (m: CellType)
    requires
        api.wf(),
    ensures
        m == clone_source(api.scene(), 0),
{
    let mut k: usize = 0;
    while k < 9
        invariant
            api.wf(),
            k <= 9,
            clone_source(api.scene(), k as int) == clone_source(api.scene(), 0),
        decreases 9 - k,
    {
        let dx = (k / 3) as isize - 1;
        let dy = (k % 3) as isize - 1;
        let m = api.cell_by_offset(dx, dy).material;
        if !(m == CellType::Air || m == CellType::Cloner || m == CellType::Stone || m
            == CellType::Gas || m == CellType::Outside) {
            return m;
        }
        k = k + 1;
    }
    CellType::Air
}

fn sand_step(api: &mut CellsApi, r: &Rolls)
    requires
        old(api).wf(),
        valid_rolls(*r, CellType::Sand),
    ensures
        final(api).stepped_from(old(api)),
        final(api).scene() == sand_rule(old(api).scene(), *r),
{
    let below = api.cell_by_offset(0, -1).material;
    let diag = api.cell_by_offset(r.side, -1).material;
    if below == CellType::Air || ((below == CellType::Water || below == CellType::Oil)
        && r.coin_a) {
        api.swap_offset(0, -1);
    } else if diag == CellType::Air || ((diag == CellType::Water || diag == CellType::Oil)
        && r.coin_b) {
        api.swap_offset(r.side, -1);
    }
}

fn water_step(api: &mut CellsApi, r: &Rolls)
    requires
        old(api).wf(),
        valid_rolls(*r, CellType::Water),
    ensures
        final(api).stepped_from(old(api)),
        final(api).scene() == water_rule(old(api).scene(), *r),
{
    let below = api.cell_by_offset(0, -1).material;
    let diag = api.cell_by_offset(r.side, -1).material;
    let beside = api.cell_by_offset(r.side, 0).material;
    if below == CellType::Air || below == CellType::Gas || (below == CellType::Oil && r.coin_a) {
        api.swap_offset(0, -1);
    } else if diag == CellType::Air || diag == CellType::Oil || diag == CellType::Gas || diag
        == CellType::Fire {
        api.swap_offset(r.side, -1);
    } else if beside == CellType::Air || beside == CellType::Oil || beside == CellType::Gas
        || beside == CellType::Fire {
        api.swap_offset(r.side, 0);
    }
}

fn cloner_step(api: &mut CellsApi, r: &Rolls)
    requires
        old(api).wf(),
        valid_rolls(*r, CellType::Cloner),
    ensures
        final(api).stepped_from(old(api)),
        final(api).scene() == cloner_rule(old(api).scene(), *r),
{
    let m = find_clone_source(api);
    if m != CellType::Air {
        fill_ring_cells(api, CellType::Air, m, &r.ring_shades);
    }
}

fn wood_step(api: &mut CellsApi, r: &Rolls)
    requires
        old(api).wf(),
        valid_rolls(*r, CellType::Wood),
    ensures
        final(api).stepped_from(old(api)),
        final(api).scene() == wood_rule(old(api).scene(), *r),
{
    if api.current().discolored && r.chance < 3 && api.cell_by_offset(r.dx, r.dy).material
        == CellType::Air {
        api.put_cell(r.dx, r.dy, Cell::with_palette(&api.world.palette, CellType::Fire, r.shade));
    }
}

fn fire_step(api: &mut CellsApi, r: &Rolls)
    requires
        old(api).wf(),
        valid_rolls(*r, CellType::Fire),
    ensures
        final(api).stepped_from(old(api)),
        final(api).scene() == fire_rule(old(api).scene(), *r),
{
    let c = api.current();
    let health = aged_by(c.health, 1);
    api.replace_cell(0, 0, Cell { health, ..c });
    let ghost aged_api = *api;
    let target = api.cell_by_offset(r.dx, r.dy);
    if health > r.threshold {
        api.put_cell(0, 0, Cell::with_palette(&api.world.palette, CellType::Gas, r.shade));
    } else if target.material == CellType::Water {
        api.put_cell(0, 0, Cell::with_palette(&api.world.palette, CellType::Gas, r.shade));
    } else if target.material == CellType::Wood || target.material == CellType::Oil {
        let heat = aged_by(target.health, 5);
        if heat > r.ignite {
            api.put_cell(r.dx, r.dy, Cell::with_palette(&api.world.palette, CellType::Fire, r.shade));
        } else {
            api.replace_cell(r.dx, r.dy, Cell { health: heat, discolored: true, ..target });
        }
    } else if target.material == CellType::Air {
        api.swap_offset(r.dx, r.dy);
    }
    proof {
        lemma_stepped_trans(old(api), &aged_api, api);
    }
}

fn oil_step(api: &mut CellsApi, r: &Rolls)
    requires
        old(api).wf(),
        valid_rolls(*r, CellType::Oil),
    ensures
        final(api).stepped_from(old(api)),
        final(api).scene() == oil_rule(old(api).scene(), *r),
{
    let c = api.current();
    if c.discolored {
        api.replace_cell(0, 0, Cell { health: aged_by(c.health, 1), ..c });
        if r.chance < 3 && api.cell_by_offset(r.dx, r.dy).material == CellType::Air {
            let ghost mid = *api;
            api.put_cell(r.dx, r.dy, Cell::with_palette(&api.world.palette, CellType::Fire, r.shade));
            proof {
                lemma_stepped_trans(old(api), &mid, api);
            }
        }
    }
    let ghost mid = *api;
    let below = api.cell_by_offset(0, -1).material;
    let diag = api.cell_by_offset(r.side, -1).material;
    let beside = api.cell_by_offset(r.side, 0).material;
    if below == CellType::Air || below == CellType::Fire || below == CellType::Gas {
        api.swap_offset(0, -1);
    } else if diag == CellType::Air || diag == CellType::Fire || diag == CellType::Gas {
        api.swap_offset(r.side, -1);
    } else if beside == CellType::Air || beside == CellType::Fire || beside == CellType::Gas {
        api.swap_offset(r.side, 0);
    }
    proof {
        lemma_stepped_trans(old(api), &mid, api);
    }
}

fn gas_step(api: &mut CellsApi, r: &Rolls)
    requires
        old(api).wf(),
        valid_rolls(*r, CellType::Gas),
    ensures
        final(api).stepped_from(old(api)),
        final(api).scene() == gas_rule(old(api).scene(), *r),
{
    let c = api.current();
    let health = aged_by(c.health, 1);
    api.replace_cell(0, 0, Cell { health, ..c });
    let ghost aged_api = *api;
    let target = api.cell_by_offset(r.dx, r.dy).material;
    if health > r.threshold {
        api.put_cell(0, 0, Cell::with_palette(&api.world.palette, CellType::Air, r.shade));
    } else if target == CellType::Air {
        api.swap_offset(r.dx, r.dy);
    } else if target == CellType::Fire {
        api.put_cell(0, 0, Cell::with_palette(&api.world.palette, CellType::Air, r.shade));
    }
    proof {
        lemma_stepped_trans(old(api), &aged_api, api);
    }
}

fn lava_step(api: &mut CellsApi, r: &Rolls)
    requires
        old(api).wf(),
        valid_rolls(*r, CellType::Lava),
    ensures
        final(api).stepped_from(old(api)),
        final(api).scene() == lava_rule(old(api).scene(), *r),
{
    if api.cell_by_offset(0, -1).material == CellType::Air {
        api.swap_offset(0, -1);
    } else if api.cell_by_offset(r.side, -1).material == CellType::Air {
        api.swap_offset(r.side, -1);
    } else if api.cell_by_offset(r.side, 0).material == CellType::Air {
        api.swap_offset(r.side, 0);
    }
    let ghost moved = *api;
    fill_ring_cells(api, CellType::Water, CellType::Stone, &r.ring_shades);
    proof {
        lemma_stepped_trans(old(api), &moved, api);
    }
    let ghost petrified = *api;
    if api.cell_by_offset(0, -1).material == CellType::Air && r.chance == 0 {
        let fire = Cell::with_palette(&api.world.palette, CellType::Fire, r.shade);
        api.put_cell(0, -1, Cell { health: 100, ..fire });
        proof {
            lemma_stepped_trans(old(api), &petrified, api);
        }
    }
}

/// Advances the cell under the cursor by one step, using the draws in `r`.
pub fn step_with(api: &mut CellsApi, r: &Rolls)
    requires
        old(api).wf(),
        valid_rolls(*r, old(api).scene().here().material),
    ensures
        final(api).stepped_from(old(api)),
        final(api).scene() == rule(old(api).scene(), *r),
{
    match api.current().material {
        CellType::Sand => sand_step(api, r),
        CellType::Water => water_step(api, r),
        CellType::Cloner => cloner_step(api, r),
        CellType::Wood => wood_step(api, r),
        CellType::Fire => fire_step(api, r),
        CellType::Oil => oil_step(api, r),
        CellType::Gas => gas_step(api, r),
        CellType::Lava => lava_step(api, r),
        _ => {},
    }
}

/// `v / 8`, rounded toward zero.
fn eighth(v: isize) -> (r: isize)
    requires
        -64 <= v <= 64,
    ensures
        v >= 0 ==> r == v / 8,
        v < 0 ==> r == -((-v) / 8),
{
    if v >= 0 {
        v / 8
    } else {
        -((-v) / 8)
    }
}

/// Nine shades, each drawn on its own.
fn draw_shades() -> (r: [u8; 9])
    ensures
        forall|i: int| 0 <= i < 9 ==> #[trigger] r[i] <= 100,
{
    [
        u8_in(0, 100),
        u8_in(0, 100),
        u8_in(0, 100),
        u8_in(0, 100),
        u8_in(0, 100),
        u8_in(0, 100),
        u8_in(0, 100),
        u8_in(0, 100),
        u8_in(0, 100),
    ]
}

/// Draws what `m`'s rule consumes in one step; the other fields stay zero.
pub fn draw_rolls(m: CellType) -> (r: Rolls)
    ensures
        valid_rolls(r, m),
{
    let mut r = Rolls {
        side: 0,
        dx: 0,
        dy: 0,
        coin_a: false,
        coin_b: false,
        chance: 0,
        threshold: 0,
        ignite: 0,
        shade: u8_in(0, 100),
        ring_shades: [0u8; 9],
    };
    if m == CellType::Cloner || m == CellType::Lava {
        r.ring_shades = draw_shades();
    }
    match m {
        CellType::Sand => {
            r.side = isize_in(0, 1) * 2 - 1;
            r.coin_a = coin();
            r.coin_b = coin();
        },
        CellType::Water => {
            r.side = isize_in(-5, 5);
            r.coin_a = coin();
        },
        CellType::Wood => {
            r.dx = eighth(isize_in(-15, 14));
            r.dy = eighth(isize_in(-15, 14));
            r.chance = u8_in(0, 7);
        },
        CellType::Fire => {
            r.threshold = u16_in(16, 2047);
            r.dx = eighth(isize_in(-15, 15));
            r.dy = eighth(isize_in(-20, 25));
            r.ignite = u16_in(1, 511);
        },
        CellType::Oil => {
            r.side = isize_in(-5, 5);
            r.dx = eighth(isize_in(-15, 15));
            r.dy = eighth(isize_in(-15, 15));
            r.chance = u8_in(0, 7);
        },
        CellType::Gas => {
            r.threshold = u16_in(8, 1023);
            r.dx = eighth(isize_in(-9, 9));
            r.dy = eighth(isize_in(-8, 25));
        },
        CellType::Lava => {
            r.side = isize_in(-4, 4);
            r.chance = u8_in(0, 15);
        },
        _ => {},
    }
    r
}

/// Advances the cell under the cursor by one step of its material's rule,
/// with fresh random draws.
pub fn simulate_steps(api: &mut CellsApi)
    requires
        old(api).wf(),
    ensures
        final(api).stepped_from(old(api)),
        exists|r: Rolls|
            valid_rolls(r, old(api).scene().here().material) && final(api).scene() == #[trigger] rule(
                old(api).scene(),
                r,
            ),
{
    let r = draw_rolls(api.current().material);
    step_with(api, &r);
}


/// Two different neighbourhood positions that both lie on the grid are
/// different cells.
proof fn lemma_ring_distinct(s: Scene, j: int, k: int)
    requires
        s.wf(),
        0 <= j < 9,
        0 <= k < 9,
        j != k,
        s.inside(ring_dx(j), ring_dy(j)),
        s.inside(ring_dx(k), ring_dy(k)),
    ensures
        s.at(ring_dx(j), ring_dy(j)) != s.at(ring_dx(k), ring_dy(k)),
{
    if s.at(ring_dx(j), ring_dy(j)) == s.at(ring_dx(k), ring_dy(k)) {
        crate::world::lemma_flat_injective(
            s.width,
            s.x + ring_dx(j),
            s.y - ring_dy(j),
            s.x + ring_dx(k),
            s.y - ring_dy(k),
        );
    }
}

/// Filling from position `j` on leaves the cell at an earlier position `k`
/// as it was.
proof fn lemma_fill_ring_keeps(s: Scene, j: int, from: CellType, to: CellType, shades: [u8; 9], k: int)
    requires
        s.wf(),
        0 <= k < j <= 9,
        s.inside(ring_dx(k), ring_dy(k)),
    ensures
        fill_ring(s, j, from, to, shades).grid[s.at(ring_dx(k), ring_dy(k))] == s.grid[s.at(ring_dx(k), ring_dy(k))],
        fill_ring(s, j, from, to, shades).wf(),
        fill_ring(s, j, from, to, shades).x == s.x && fill_ring(s, j, from, to, shades).y == s.y,
        fill_ring(s, j, from, to, shades).width == s.width && fill_ring(s, j, from, to, shades).height == s.height,
    decreases 9 - j,
{
    if j < 9 {
        let s1 = if s.mat(ring_dx(j), ring_dy(j)) == from {
            s.set(ring_dx(j), ring_dy(j), fresh_in(s.palette, to, shades[j] as int))
        } else {
            s
        };
        crate::world::lemma_flat_bounds(s.width, s.height, s.x + ring_dx(k), s.y - ring_dy(k));
        if s.inside(ring_dx(j), ring_dy(j)) {
            lemma_ring_distinct(s, j, k);
            crate::world::lemma_flat_bounds(s.width, s.height, s.x + ring_dx(j), s.y - ring_dy(j));
        }
        assert(s1.grid[s.at(ring_dx(k), ring_dy(k))] == s.grid[s.at(ring_dx(k), ring_dy(k))]);
        lemma_fill_ring_keeps(s1, j + 1, from, to, shades, k);
    }
}

/// Filling from position `j` on turns a cell of material `from` at a later
/// position `k` into material `to`.
proof fn lemma_fill_ring_hits(s: Scene, j: int, from: CellType, to: CellType, shades: [u8; 9], k: int)
    requires
        s.wf(),
        0 <= j <= k < 9,
        from != CellType::Outside,
        s.mat(ring_dx(k), ring_dy(k)) == from,
    ensures
        fill_ring(s, j, from, to, shades).mat(ring_dx(k), ring_dy(k)) == to,
        fill_ring(s, j, from, to, shades).wf(),
        fill_ring(s, j, from, to, shades).x == s.x && fill_ring(s, j, from, to, shades).y == s.y,
        fill_ring(s, j, from, to, shades).width == s.width && fill_ring(s, j, from, to, shades).height == s.height,
    decreases 9 - j,
{
    let s1 = if s.mat(ring_dx(j), ring_dy(j)) == from {
        s.set(ring_dx(j), ring_dy(j), fresh_in(s.palette, to, shades[j] as int))
    } else {
        s
    };
    if s.inside(ring_dx(j), ring_dy(j)) {
        crate::world::lemma_flat_bounds(s.width, s.height, s.x + ring_dx(j), s.y - ring_dy(j));
    }
    crate::world::lemma_flat_bounds(s.width, s.height, s.x + ring_dx(k), s.y - ring_dy(k));
    if j == k {
        assert(s1 == s.set(ring_dx(k), ring_dy(k), fresh_in(s.palette, to, shades[k] as int)));
        assert(s1.grid[s1.at(ring_dx(k), ring_dy(k))] == fresh_in(s.palette, to, shades[k] as int));
        assert(s1.mat(ring_dx(k), ring_dy(k)) == to);
        lemma_fill_ring_keeps(s1, j + 1, from, to, shades, k);
        assert(fill_ring(s, j, from, to, shades) == fill_ring(s1, j + 1, from, to, shades));
    } else {
        if s.inside(ring_dx(j), ring_dy(j)) {
            lemma_ring_distinct(s, j, k);
        }
        assert(s1.grid[s.at(ring_dx(k), ring_dy(k))] == s.grid[s.at(ring_dx(k), ring_dy(k))]);
        lemma_fill_ring_hits(s1, j + 1, from, to, shades, k);
        assert(fill_ring(s, j, from, to, shades) == fill_ring(s1, j + 1, from, to, shades));
    }
}

/// Lava turns every water cell of its 3x3 neighbourhood into stone, whatever
/// its draws.
pub proof fn lemma_lava_petrifies(s: Scene, r: Rolls, k: int)
    requires
        s.wf(),
        s.here().material == CellType::Lava,
        valid_rolls(r, CellType::Lava),
        0 <= k < 9,
        s.mat(ring_dx(k), ring_dy(k)) == CellType::Water,
    ensures
        lava_rule(s, r).mat(ring_dx(k), ring_dy(k)) == CellType::Stone,
{
    crate::world::lemma_flat_bounds(s.width, s.height, s.x, s.y);
    let s1 = if s.mat(0, -1) == CellType::Air {
        s.swap(0, -1)
    } else if s.mat(r.side as int, -1) == CellType::Air {
        s.swap(r.side as int, -1)
    } else if s.mat(r.side as int, 0) == CellType::Air {
        s.swap(r.side as int, 0)
    } else {
        s
    };
    let wk = s.at(ring_dx(k), ring_dy(k));
    crate::world::lemma_flat_bounds(s.width, s.height, s.x + ring_dx(k), s.y - ring_dy(k));
    if s.inside(0, -1) {
        crate::world::lemma_flat_bounds(s.width, s.height, s.x, s.y + 1);
    }
    if s.inside(r.side as int, -1) {
        crate::world::lemma_flat_bounds(s.width, s.height, s.x + r.side, s.y + 1);
    }
    if s.inside(r.side as int, 0) {
        crate::world::lemma_flat_bounds(s.width, s.height, s.x + r.side, s.y);
    }
    assert(s1.grid[wk] == s.grid[wk]);
    assert(s1.mat(ring_dx(k), ring_dy(k)) == CellType::Water);
    lemma_fill_ring_hits(s1, 0, CellType::Water, CellType::Stone, r.ring_shades, k);
    let s2 = fill_ring(s1, 0, CellType::Water, CellType::Stone, r.ring_shades);
    crate::world::lemma_flat_bounds(s2.width, s2.height, s2.x + ring_dx(k), s2.y - ring_dy(k));
    if s2.inside(0, -1) {
        crate::world::lemma_flat_bounds(s2.width, s2.height, s2.x, s2.y + 1);
    }
}

/// A cloner that finds a copyable neighbour writes its material into every
/// air cell of its 3x3 neighbourhood, whatever its draws.
pub proof fn lemma_cloner_fills(s: Scene, r: Rolls, k: int)
    requires
        s.wf(),
        s.here().material == CellType::Cloner,
        clone_source(s, 0) != CellType::Air,
        0 <= k < 9,
        s.mat(ring_dx(k), ring_dy(k)) == CellType::Air,
    ensures
        cloner_rule(s, r).mat(ring_dx(k), ring_dy(k)) == clone_source(s, 0),
{
    lemma_fill_ring_hits(s, 0, CellType::Air, clone_source(s, 0), r.ring_shades, k);
}

} // verus!
