use vstd::prelude::*;

verus! {

/// The closed set of terrain kinds a cell can take.
#[derive(Clone, Copy, Debug, PartialEq, Eq, Structural)]
pub enum CellType {
    Empty,
    Grass,
    Sand,
    Water,
    Structure,
    Wood,
    Floor,
}

/// The intensity every new cell starts with.
pub const DEFAULT_VALUE: u32 = 100;

/// One grid element: its terrain kind and an intensity used for shading.
#[derive(Clone, Copy, Debug, PartialEq, Eq, Structural)]
pub struct Cell {
    pub cell_type: CellType,
    pub value: u32,
}

/// A color as red, green, blue and alpha channels.
#[derive(Clone, Copy, Debug, PartialEq, Eq, Structural)]
pub struct Rgba {
    pub r: u8,
    pub g: u8,
    pub b: u8,
    pub a: u8,
}

/// The cell of the given kind at the default intensity.
pub open spec fn fresh_cell(c: CellType) -> Cell {
    Cell { cell_type: c, value: DEFAULT_VALUE as u32 }
}

/// The shaded channel of grass and sand: 55 plus twice the intensity.
pub open spec fn shade(value: u32) -> u8 {
    (55 + 2 * value) as u8
}

/// The color a cell is drawn with.
pub open spec fn cell_color(c: Cell) -> Rgba {
    match c.cell_type {
        CellType::Empty => Rgba { r: 255, g: 255, b: 255, a: 255 },
        CellType::Grass => Rgba { r: 0, g: shade(c.value), b: 0, a: 255 },
        CellType::Sand => Rgba { r: shade(c.value), g: shade(c.value), b: 0, a: 255 },
        CellType::Water => Rgba { r: 0, g: 0, b: 255, a: 255 },
        CellType::Structure => Rgba { r: 64, g: 64, b: 64, a: 255 },
        CellType::Wood => Rgba { r: 165, g: 42, b: 42, a: 255 },
        CellType::Floor => Rgba { r: 188, g: 143, b: 143, a: 255 },
    }
}

impl Cell {
    pub fn new(c: CellType) -> (r: Cell)
        ensures
            r == fresh_cell(c),
    {
        Cell { cell_type: c, value: DEFAULT_VALUE }
    }

    /// The color of this cell. Grass and sand are shaded by the intensity,
    /// which for them must not exceed 100 so that the channel stays within a
    /// byte; the other kinds have a fixed color.
    pub fn get_cell_color(&self) -> (r: Rgba)
        requires
            (self.cell_type == CellType::Grass || self.cell_type == CellType::Sand) ==> self.value
                <= 100,
        ensures
            r == cell_color(*self),
    {
        match self.cell_type {
            CellType::Empty => Rgba { r: 255, g: 255, b: 255, a: 255 },
            CellType::Grass => {
                let green: u8 = (55 + 2 * self.value) as u8;
                Rgba { r: 0, g: green, b: 0, a: 255 }
            },
            CellType::Sand => {
                let component: u8 = (55 + 2 * self.value) as u8;
                Rgba { r: component, g: component, b: 0, a: 255 }
            },
            CellType::Water => Rgba { r: 0, g: 0, b: 255, a: 255 },
            CellType::Structure => Rgba { r: 64, g: 64, b: 64, a: 255 },
            CellType::Wood => Rgba { r: 165, g: 42, b: 42, a: 255 },
            CellType::Floor => Rgba { r: 188, g: 143, b: 143, a: 255 },
        }
    }
}

impl Default for Cell {
    fn default() -> (r: Cell)
        ensures
            r == fresh_cell(CellType::Empty),
    {
        Cell { cell_type: CellType::Empty, value: DEFAULT_VALUE }
    }
}

} // verus!
