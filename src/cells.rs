//! Materials and the cells of the grid.
use vstd::prelude::*;
use crate::rand::isize_in;

verus! {

/// The closed set of materials. `Outside` is the sentinel that stands for a
/// position outside the grid; it is never written into the grid.
#[derive(Clone, Copy, Debug, PartialEq, Eq, Structural)]
pub enum CellType {
    Outside,
    Air,
    Sand,
    Water,
    Oil,
    Gas,
    Fire,
    Lava,
    Wood,
    Stone,
    Cloner,
}

/// First colour of a material's range, channel `c` (0 red, 1 green, 2 blue).
pub open spec fn color_start(m: CellType, c: int) -> u8 {
    match m {
        CellType::Outside => 0u8,
        CellType::Air => if c == 0 { 125u8 } else if c == 1 { 201u8 } else { 255u8 },
        CellType::Sand => if c == 0 { 220u8 } else if c == 1 { 180u8 } else { 116u8 },
        CellType::Water => if c == 0 { 76u8 } else if c == 1 { 153u8 } else { 243u8 },
        CellType::Oil => if c == 0 { 60u8 } else if c == 1 { 45u8 } else { 30u8 },
        CellType::Gas => if c == 0 { 190u8 } else if c == 1 { 190u8 } else { 190u8 },
        CellType::Fire => if c == 0 { 255u8 } else if c == 1 { 155u8 } else { 61u8 },
        CellType::Lava => if c == 0 { 255u8 } else if c == 1 { 90u8 } else { 20u8 },
        CellType::Wood => if c == 0 { 120u8 } else if c == 1 { 80u8 } else { 40u8 },
        CellType::Stone => if c == 0 { 131u8 } else if c == 1 { 143u8 } else { 134u8 },
        CellType::Cloner => if c == 0 { 200u8 } else if c == 1 { 200u8 } else { 60u8 },
    }
}

/// Last colour of a material's range, channel `c`.
pub open spec fn color_end(m: CellType, c: int) -> u8 {
    match m {
        CellType::Outside => 0u8,
        CellType::Air => if c == 0 { 125u8 } else if c == 1 { 201u8 } else { 255u8 },
        CellType::Sand => if c == 0 { 204u8 } else if c == 1 { 164u8 } else { 100u8 },
        CellType::Water => if c == 0 { 104u8 } else if c == 1 { 175u8 } else { 253u8 },
        CellType::Oil => if c == 0 { 80u8 } else if c == 1 { 60u8 } else { 40u8 },
        CellType::Gas => if c == 0 { 210u8 } else if c == 1 { 210u8 } else { 210u8 },
        CellType::Fire => if c == 0 { 117u8 } else if c == 1 { 36u8 } else { 81u8 },
        CellType::Lava => if c == 0 { 200u8 } else if c == 1 { 50u8 } else { 10u8 },
        CellType::Wood => if c == 0 { 100u8 } else if c == 1 { 65u8 } else { 30u8 },
        CellType::Stone => if c == 0 { 110u8 } else if c == 1 { 122u8 } else { 113u8 },
        CellType::Cloner => if c == 0 { 180u8 } else if c == 1 { 180u8 } else { 40u8 },
    }
}

/// The channel value `shade` percent of the way from `s` to `e`, rounded
/// toward `s`.
pub open spec fn mix(s: u8, e: u8, shade: int) -> u8 {
    if s <= e {
        (s + (e - s) * shade / 100) as u8
    } else {
        (s - (s - e) * shade / 100) as u8
    }
}

/// The display colour of a fresh cell of material `m` at shade `shade`.
pub open spec fn shaded(m: CellType, shade: int, c: int) -> u8 {
    mix(color_start(m, c), color_end(m, c), shade)
}

impl CellType {
    /// The start and end colours of this material's range.
    pub fn color(&self) -> (r: [[u8; 3]; 2])
        ensures
            forall|c: int| 0 <= c < 3 ==> r[0][c] == color_start(*self, c) && r[1][c]
                == color_end(*self, c),
    {
        match self {
            CellType::Outside => [[0, 0, 0], [0, 0, 0]],
            CellType::Air => [[125, 201, 255], [125, 201, 255]],
            CellType::Sand => [[220, 180, 116], [204, 164, 100]],
            CellType::Water => [[76, 153, 243], [104, 175, 253]],
            CellType::Oil => [[60, 45, 30], [80, 60, 40]],
            CellType::Gas => [[190, 190, 190], [210, 210, 210]],
            CellType::Fire => [[255, 155, 61], [117, 36, 81]],
            CellType::Lava => [[255, 90, 20], [200, 50, 10]],
            CellType::Wood => [[120, 80, 40], [100, 65, 30]],
            CellType::Stone => [[131, 143, 134], [110, 122, 113]],
            CellType::Cloner => [[200, 200, 60], [180, 180, 40]],
        }
    }
}

/// One unit of the grid.
#[derive(Clone, Copy, Debug)]
pub struct Cell {
    pub material: CellType,
    pub rgb: [u8; 3],
    pub selected: bool,
    /// The tick in which this cell last took part in a swap; a cell carrying
    /// the current tick is not moved again in it.
    pub updated: u8,
    /// Set on wood and oil that fire has touched.
    pub discolored: bool,
    pub health: u16,
    pub lifespan: u16,
}

/// Position of a material in a palette.
pub open spec fn slot(m: CellType) -> int {
    match m {
        CellType::Outside => 0,
        CellType::Air => 1,
        CellType::Sand => 2,
        CellType::Water => 3,
        CellType::Oil => 4,
        CellType::Gas => 5,
        CellType::Fire => 6,
        CellType::Lava => 7,
        CellType::Wood => 8,
        CellType::Stone => 9,
        CellType::Cloner => 10,
    }
}

pub fn slot_exec(m: CellType) -> (r: usize)
    ensures
        r == slot(m),
{
    match m {
        CellType::Outside => 0,
        CellType::Air => 1,
        CellType::Sand => 2,
        CellType::Water => 3,
        CellType::Oil => 4,
        CellType::Gas => 5,
        CellType::Fire => 6,
        CellType::Lava => 7,
        CellType::Wood => 8,
        CellType::Stone => 9,
        CellType::Cloner => 10,
    }
}

/// The colour range of each material, start then end, by `slot`.
#[derive(Clone, Copy, Debug)]
pub struct Palette {
    pub ranges: [[[u8; 3]; 2]; 11],
}

impl Palette {
    pub open spec fn start(self, m: CellType, c: int) -> u8 {
        self.ranges[slot(m)][0][c]
    }

    pub open spec fn end(self, m: CellType, c: int) -> u8 {
        self.ranges[slot(m)][1][c]
    }

    /// The built-in colours.
    pub fn standard() -> (r: Palette)
        ensures
            forall|m: CellType, c: int|
                0 <= c < 3 ==> #[trigger] r.start(m, c) == color_start(m, c) && r.end(m, c) == color_end(m, c),
    {
        Palette {
            ranges: [
                CellType::Outside.color(),
                CellType::Air.color(),
                CellType::Sand.color(),
                CellType::Water.color(),
                CellType::Oil.color(),
                CellType::Gas.color(),
                CellType::Fire.color(),
                CellType::Lava.color(),
                CellType::Wood.color(),
                CellType::Stone.color(),
                CellType::Cloner.color(),
            ],
        }
    }
}

/// The fresh cell of material `m` at `shade` percent of its range in `p`.
pub open spec fn fresh_in(p: Palette, m: CellType, shade: int) -> Cell {
    Cell {
        material: m,
        rgb: [
            mix(p.start(m, 0), p.end(m, 0), shade),
            mix(p.start(m, 1), p.end(m, 1), shade),
            mix(p.start(m, 2), p.end(m, 2), shade),
        ],
        selected: false,
        updated: 0,
        discolored: false,
        health: 0,
        lifespan: 0,
    }
}

/// `c` is a freshly made cell of material `m` whose colour sits at `shade`
/// percent of the material's range.
pub open spec fn is_fresh(c: Cell, m: CellType, shade: int) -> bool {
    &&& c.material == m
    &&& c.rgb[0] == shaded(m, shade, 0)
    &&& c.rgb[1] == shaded(m, shade, 1)
    &&& c.rgb[2] == shaded(m, shade, 2)
    &&& !c.selected
    &&& c.updated == 0
    &&& !c.discolored
    &&& c.health == 0
    &&& c.lifespan == 0
}

/// The fresh cell of material `m` at `shade` percent of its colour range.
pub open spec fn fresh(m: CellType, shade: int) -> Cell {
    Cell {
        material: m,
        rgb: [shaded(m, shade, 0), shaded(m, shade, 1), shaded(m, shade, 2)],
        selected: false,
        updated: 0,
        discolored: false,
        health: 0,
        lifespan: 0,
    }
}

/// `c` is a freshly made cell of material `m` at some shade of its range in
/// `p`.
pub open spec fn is_new_in(p: Palette, c: Cell, m: CellType) -> bool {
    exists|shade: int| 0 <= shade <= 100 && c == #[trigger] fresh_in(p, m, shade)
}

/// `c` is a freshly made cell of material `m` at some shade of its range.
pub open spec fn is_new_cell(c: Cell, m: CellType) -> bool {
    exists|shade: int| 0 <= shade <= 100 && #[trigger] is_fresh(c, m, shade)
}

/// The channel `shade` percent of the way from `s` to `e`.
fn mix_channel(s: u8, e: u8, shade: u8) -> (r: u8)
    requires
        shade <= 100,
    ensures
        r == mix(s, e, shade as int),
{
    if s <= e {
        let d: u16 = (e - s) as u16;
        assert(d * shade as u16 <= 255 * 100) by (nonlinear_arith)
            requires d <= 255, shade <= 100;
        let step: u16 = d * shade as u16 / 100;
        assert(step <= d) by (nonlinear_arith)
            requires step == d * shade as u16 / 100, shade <= 100, d <= 255;
        s + step as u8
    } else {
        let d: u16 = (s - e) as u16;
        assert(d * shade as u16 <= 255 * 100) by (nonlinear_arith)
            requires d <= 255, shade <= 100;
        let step: u16 = d * shade as u16 / 100;
        assert(step <= d) by (nonlinear_arith)
            requires step == d * shade as u16 / 100, shade <= 100, d <= 255;
        s - step as u8
    }
}

impl Cell {
    /// A fresh cell of `material` whose colour sits at `shade` percent of
    /// the material's range in `palette`.
    pub fn with_palette(palette: &Palette, material: CellType, shade: u8) -> (r: Cell)
        requires
            shade <= 100,
        ensures
            r == fresh_in(*palette, material, shade as int),
    {
        let range = palette.ranges[slot_exec(material)];
        let start = range[0];
        let end = range[1];
        let rgb = [
            mix_channel(start[0], end[0], shade),
            mix_channel(start[1], end[1], shade),
            mix_channel(start[2], end[2], shade),
        ];
        Cell { material, rgb, selected: false, updated: 0, discolored: false, health: 0, lifespan: 0 }
    }

    /// A fresh cell of `material` whose colour sits at `shade` percent of the
    /// material's range.
    pub fn with_shade(material: CellType, shade: u8) -> (r: Cell)
        requires
            shade <= 100,
        ensures
            is_fresh(r, material, shade as int),
            r == fresh(material, shade as int),
    {
        let table = material.color();
        let start = table[0];
        let end = table[1];
        let rgb = [
            mix_channel(start[0], end[0], shade),
            mix_channel(start[1], end[1], shade),
            mix_channel(start[2], end[2], shade),
        ];
        Cell {
            material,
            rgb,
            selected: false,
            updated: 0,
            discolored: false,
            health: 0,
            lifespan: 0,
        }
    }

    /// A fresh cell of `material` with a colour drawn at random from the
    /// material's range.
    pub fn new(material: CellType) -> (r: Cell)
        ensures
            is_new_cell(r, material),
    {
        let shade = isize_in(0, 100) as u8;
        let r = Cell::with_shade(material, shade);
        assert(is_fresh(r, material, shade as int));
        r
    }

    /// A display colour drawn at random from the material's range.
    pub fn rgb_ranges(material: CellType) -> (r: [u8; 3])
        ensures
            exists|shade: int|
                0 <= shade <= 100 && r[0] == #[trigger] shaded(material, shade, 0) && r[1]
                    == shaded(material, shade, 1) && r[2] == shaded(material, shade, 2),
    {
        let shade = isize_in(0, 100) as u8;
        let c = Cell::with_shade(material, shade);
        c.rgb
    }

    /// Resets the cell to fresh air.
    pub fn cfg_switch(&mut self, _enabled: bool)
        ensures
            is_new_cell(*final(self), CellType::Air),
    {
        *self = Cell::new(CellType::Air);
    }
}

} // verus!
