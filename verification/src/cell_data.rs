//! The catalog of cell types: for each type id its name, help text, rotational
//! symmetry and texture key.

use vstd::prelude::*;

verus! {

/// The id of a cell type: its index in the catalog.
pub type CellType = u16;

pub const WALL: CellType = 0;

pub const MOVER: CellType = 1;

pub const PULLER: CellType = 2;

pub const PULLSHER: CellType = 3;

pub const GENERATOR: CellType = 4;

pub const ROTATOR_CW: CellType = 5;

pub const ROTATOR_CCW: CellType = 6;

pub const ORIENTATOR: CellType = 7;

pub const PUSH: CellType = 8;

pub const SLIDE: CellType = 9;

pub const TRASH: CellType = 10;

pub const ENEMY: CellType = 11;

pub const MIRROR: CellType = 12;

pub const CROSSMIRROR: CellType = 13;

pub const TRASHMOVER: CellType = 14;

pub const SPEED: CellType = 15;

pub const MOVLER: CellType = 16;

pub const ONE_DIR: CellType = 17;

pub const SLIDE_WALL: CellType = 18;

pub const GENERATOR_CW: CellType = 19;

pub const GENERATOR_CCW: CellType = 20;

pub const TRASHPULLER: CellType = 21;

pub const GHOST: CellType = 22;

pub const STONE: CellType = 23;

pub const REPLICATOR: CellType = 24;

pub const SUCKER: CellType = 25;

pub const GENERATOR_CROSS: CellType = 26;

pub const MAILBOX: CellType = 27;

pub const POSTOFFICE: CellType = 28;

pub const PHYSICAL_GENERATOR: CellType = 29;

pub const ROTATOR_180: CellType = 30;

pub const TUNNEL: CellType = 31;

pub const FIXED_PULLSHER: CellType = 32;

/// The number of cell types in the catalog; the ids are `0..CELL_TYPE_COUNT`.
pub const CELL_TYPE_COUNT: CellType = 33;

/// What the catalog records of one cell type.
#[derive(Debug, Clone, Copy)]
pub struct CellData {
    pub id: CellType,
    pub name: &'static str,
    pub description: &'static str,
    /// The rotational symmetry class: after how many quarter turns the cell
    /// looks the same again (1, 2 or 4).
    pub sides: usize,
    pub texture_name: &'static str,
}

/// Whether `id` names a type of the catalog.
pub open spec fn in_catalog(id: CellType) -> bool {
    id < CELL_TYPE_COUNT
}

/// The catalog as a table: the entry of each id, `None` for an id outside it.
pub open spec fn catalog(id: CellType) -> Option<CellData> {
    if id == WALL {
        Some(
            CellData {
                id: WALL,
                name: "Wall",
                description: "A solid wall that can't be moved by anything.",
                sides: 1,
                texture_name: "wall",
            },
        )
    } else if id == MOVER {
        Some(
            CellData {
                id: MOVER,
                name: "Mover",
                description: "Pushes the cells in front of it.",
                sides: 4,
                texture_name: "mover",
            },
        )
    } else if id == PULLER {
        Some(
            CellData {
                id: PULLER,
                name: "Puller",
                description: "Pulls the cells behind it.",
                sides: 4,
                texture_name: "puller",
            },
        )
    } else if id == PULLSHER {
        Some(
            CellData {
                id: PULLSHER,
                name: "Pullsher",
                description: "Pulls the cells behind it and pushes the cells in front of it.",
                sides: 4,
                texture_name: "pullsher",
            },
        )
    } else if id == GENERATOR {
        Some(
            CellData {
                id: GENERATOR,
                name: "Generator",
                description: "Generates the cell behind to its front.",
                sides: 4,
                texture_name: "generator",
            },
        )
    } else if id == ROTATOR_CW {
        Some(
            CellData {
                id: ROTATOR_CW,
                name: "Rotator CW",
                description: "Rotates all touching cells clockwise.",
                sides: 1,
                texture_name: "rotator_cw",
            },
        )
    } else if id == ROTATOR_CCW {
        Some(
            CellData {
                id: ROTATOR_CCW,
                name: "Rotator CCW",
                description: "Rotates all touching cells counter-clockwise.",
                sides: 1,
                texture_name: "rotator_ccw",
            },
        )
    } else if id == ORIENTATOR {
        Some(
            CellData {
                id: ORIENTATOR,
                name: "Orientator",
                description: "Rotates all touching cells in its own direction.",
                sides: 4,
                texture_name: "orientator",
            },
        )
    } else if id == PUSH {
        Some(
            CellData {
                id: PUSH,
                name: "Push",
                description: "A normal cell that does nothing.",
                sides: 1,
                texture_name: "push",
            },
        )
    } else if id == SLIDE {
        Some(
            CellData {
                id: SLIDE,
                name: "Slide",
                description: "Like push cell but can only be moved in two directions.",
                sides: 2,
                texture_name: "slide",
            },
        )
    } else if id == TRASH {
        Some(
            CellData {
                id: TRASH,
                name: "Trash",
                description: "Trashes all cells that get moved into it.",
                sides: 1,
                texture_name: "trash",
            },
        )
    } else if id == ENEMY {
        Some(
            CellData {
                id: ENEMY,
                name: "Enemy",
                description: "Destroys the cell that gets moved into it, and itself with it.",
                sides: 1,
                texture_name: "enemy",
            },
        )
    } else if id == MIRROR {
        Some(
            CellData {
                id: MIRROR,
                name: "Mirror",
                description: "Flips the cell in front and behind.",
                sides: 2,
                texture_name: "mirror",
            },
        )
    } else if id == CROSSMIRROR {
        Some(
            CellData {
                id: CROSSMIRROR,
                name: "Cross-Mirror",
                description: "Like mirror but stacked 90 degrees.",
                sides: 1,
                texture_name: "crossmirror",
            },
        )
    } else if id == TRASHMOVER {
        Some(
            CellData {
                id: TRASHMOVER,
                name: "Trash Mover",
                description: "Like a mover but deletes all cells in front of it.",
                sides: 4,
                texture_name: "trashmover",
            },
        )
    } else if id == SPEED {
        Some(
            CellData {
                id: SPEED,
                name: "Speed",
                description: "Fast mover but can't push.",
                sides: 4,
                texture_name: "speed",
            },
        )
    } else if id == MOVLER {
        Some(
            CellData {
                id: MOVLER,
                name: "Movler",
                description: "Very weird combination of mover and puller. Doesn't push or pull but increases force when being pushed or pulled.",
                sides: 4,
                texture_name: "movler",
            },
        )
    } else if id == ONE_DIR {
        Some(
            CellData {
                id: ONE_DIR,
                name: "One Dir",
                description: "A cell that can only be moved in one direction.",
                sides: 4,
                texture_name: "one_dir",
            },
        )
    } else if id == SLIDE_WALL {
        Some(
            CellData {
                id: SLIDE_WALL,
                name: "Slide Wall",
                description: "Like slide but can't be rotated from unmovable sides.",
                sides: 2,
                texture_name: "slide_wall",
            },
        )
    } else if id == GENERATOR_CW {
        Some(
            CellData {
                id: GENERATOR_CW,
                name: "Generator CW",
                description: "Like generator but rotates to it's right side.",
                sides: 4,
                texture_name: "generator_cw",
            },
        )
    } else if id == GENERATOR_CCW {
        Some(
            CellData {
                id: GENERATOR_CCW,
                name: "Generator CCW",
                description: "Like generator but rotates to it's left side.",
                sides: 4,
                texture_name: "generator_ccw",
            },
        )
    } else if id == TRASHPULLER {
        Some(
            CellData {
                id: TRASHPULLER,
                name: "Trash Puller",
                description: "Tries to trash the cell behind it, then moves.",
                sides: 4,
                texture_name: "trashpuller",
            },
        )
    } else if id == GHOST {
        Some(
            CellData {
                id: GHOST,
                name: "Ghost",
                description: "A wall that can't be generated.",
                sides: 1,
                texture_name: "ghost",
            },
        )
    } else if id == STONE {
        Some(
            CellData {
                id: STONE,
                name: "Stone",
                description: "A cell with gravity. Will try to form hills.",
                sides: 4,
                texture_name: "stone",
            },
        )
    } else if id == REPLICATOR {
        Some(
            CellData {
                id: REPLICATOR,
                name: "Replicator",
                description: "A generator that generates the cell in front of it.",
                sides: 4,
                texture_name: "replicator",
            },
        )
    } else if id == SUCKER {
        Some(
            CellData {
                id: SUCKER,
                name: "Sucker",
                description: "Trashes the cell in front of it.",
                sides: 4,
                texture_name: "sucker",
            },
        )
    } else if id == GENERATOR_CROSS {
        Some(
            CellData {
                id: GENERATOR_CROSS,
                name: "Generator Cross",
                description: "Like a generator but stacked 90 degrees.",
                sides: 4,
                texture_name: "generator_cross",
            },
        )
    } else if id == MAILBOX {
        Some(
            CellData {
                id: MAILBOX,
                name: "Mailbox",
                description: "Can be filled with a cell and then moves with it. If it hits a wall it deletes itself and pops out the stored cell.",
                sides: 4,
                texture_name: "mailbox",
            },
        )
    } else if id == POSTOFFICE {
        Some(
            CellData {
                id: POSTOFFICE,
                name: "Post Office",
                description: "Used to fill a mailbox. If there is a mailbox in front of it and a movable cell behind it, the \"mail\" will be deleted and put into the mailbox.",
                sides: 4,
                texture_name: "postoffice",
            },
        )
    } else if id == PHYSICAL_GENERATOR {
        Some(
            CellData {
                id: PHYSICAL_GENERATOR,
                name: "Physical Generator",
                description: "Generates the cell behind to its front. If it hits a wall it pushes itself back.",
                sides: 4,
                texture_name: "physical_generator",
            },
        )
    } else if id == ROTATOR_180 {
        Some(
            CellData {
                id: ROTATOR_180,
                name: "Rotator 180",
                description: "Rotates all touching cells 180 degrees.",
                sides: 1,
                texture_name: "rotator_180",
            },
        )
    } else if id == TUNNEL {
        Some(
            CellData {
                id: TUNNEL,
                name: "Tunnel",
                description: "Moves the cell behind it to its front without moving itself.",
                sides: 4,
                texture_name: "tunnel",
            },
        )
    } else if id == FIXED_PULLSHER {
        Some(
            CellData {
                id: FIXED_PULLSHER,
                name: "Fixed Pullsher",
                description: "Like a tunnel but also pulls the cells behind it.",
                sides: 4,
                texture_name: "fixed_pullsher",
            },
        )
    } else {
        None
    }
}

/// The rotational symmetry class of a type: 1, 2 or 4. A type outside the
/// catalog has no symmetry, which is class 4.
pub open spec fn sides_of(id: CellType) -> int {
    match catalog(id) {
        Some(data) => data.sides as int,
        None => 4,
    }
}

/// Looks a cell type up in the catalog.
pub fn cell_data(id: CellType) -> (r: Option<CellData>)
    ensures
        r == catalog(id),
{
    if id == WALL {
        Some(
            CellData {
                id: WALL,
                name: "Wall",
                description: "A solid wall that can't be moved by anything.",
                sides: 1,
                texture_name: "wall",
            },
        )
    } else if id == MOVER {
        Some(
            CellData {
                id: MOVER,
                name: "Mover",
                description: "Pushes the cells in front of it.",
                sides: 4,
                texture_name: "mover",
            },
        )
    } else if id == PULLER {
        Some(
            CellData {
                id: PULLER,
                name: "Puller",
                description: "Pulls the cells behind it.",
                sides: 4,
                texture_name: "puller",
            },
        )
    } else if id == PULLSHER {
        Some(
            CellData {
                id: PULLSHER,
                name: "Pullsher",
                description: "Pulls the cells behind it and pushes the cells in front of it.",
                sides: 4,
                texture_name: "pullsher",
            },
        )
    } else if id == GENERATOR {
        Some(
            CellData {
                id: GENERATOR,
                name: "Generator",
                description: "Generates the cell behind to its front.",
                sides: 4,
                texture_name: "generator",
            },
        )
    } else if id == ROTATOR_CW {
        Some(
            CellData {
                id: ROTATOR_CW,
                name: "Rotator CW",
                description: "Rotates all touching cells clockwise.",
                sides: 1,
                texture_name: "rotator_cw",
            },
        )
    } else if id == ROTATOR_CCW {
        Some(
            CellData {
                id: ROTATOR_CCW,
                name: "Rotator CCW",
                description: "Rotates all touching cells counter-clockwise.",
                sides: 1,
                texture_name: "rotator_ccw",
            },
        )
    } else if id == ORIENTATOR {
        Some(
            CellData {
                id: ORIENTATOR,
                name: "Orientator",
                description: "Rotates all touching cells in its own direction.",
                sides: 4,
                texture_name: "orientator",
            },
        )
    } else if id == PUSH {
        Some(
            CellData {
                id: PUSH,
                name: "Push",
                description: "A normal cell that does nothing.",
                sides: 1,
                texture_name: "push",
            },
        )
    } else if id == SLIDE {
        Some(
            CellData {
                id: SLIDE,
                name: "Slide",
                description: "Like push cell but can only be moved in two directions.",
                sides: 2,
                texture_name: "slide",
            },
        )
    } else if id == TRASH {
        Some(
            CellData {
                id: TRASH,
                name: "Trash",
                description: "Trashes all cells that get moved into it.",
                sides: 1,
                texture_name: "trash",
            },
        )
    } else if id == ENEMY {
        Some(
            CellData {
                id: ENEMY,
                name: "Enemy",
                description: "Destroys the cell that gets moved into it, and itself with it.",
                sides: 1,
                texture_name: "enemy",
            },
        )
    } else if id == MIRROR {
        Some(
            CellData {
                id: MIRROR,
                name: "Mirror",
                description: "Flips the cell in front and behind.",
                sides: 2,
                texture_name: "mirror",
            },
        )
    } else if id == CROSSMIRROR {
        Some(
            CellData {
                id: CROSSMIRROR,
                name: "Cross-Mirror",
                description: "Like mirror but stacked 90 degrees.",
                sides: 1,
                texture_name: "crossmirror",
            },
        )
    } else if id == TRASHMOVER {
        Some(
            CellData {
                id: TRASHMOVER,
                name: "Trash Mover",
                description: "Like a mover but deletes all cells in front of it.",
                sides: 4,
                texture_name: "trashmover",
            },
        )
    } else if id == SPEED {
        Some(
            CellData {
                id: SPEED,
                name: "Speed",
                description: "Fast mover but can't push.",
                sides: 4,
                texture_name: "speed",
            },
        )
    } else if id == MOVLER {
        Some(
            CellData {
                id: MOVLER,
                name: "Movler",
                description: "Very weird combination of mover and puller. Doesn't push or pull but increases force when being pushed or pulled.",
                sides: 4,
                texture_name: "movler",
            },
        )
    } else if id == ONE_DIR {
        Some(
            CellData {
                id: ONE_DIR,
                name: "One Dir",
                description: "A cell that can only be moved in one direction.",
                sides: 4,
                texture_name: "one_dir",
            },
        )
    } else if id == SLIDE_WALL {
        Some(
            CellData {
                id: SLIDE_WALL,
                name: "Slide Wall",
                description: "Like slide but can't be rotated from unmovable sides.",
                sides: 2,
                texture_name: "slide_wall",
            },
        )
    } else if id == GENERATOR_CW {
        Some(
            CellData {
                id: GENERATOR_CW,
                name: "Generator CW",
                description: "Like generator but rotates to it's right side.",
                sides: 4,
                texture_name: "generator_cw",
            },
        )
    } else if id == GENERATOR_CCW {
        Some(
            CellData {
                id: GENERATOR_CCW,
                name: "Generator CCW",
                description: "Like generator but rotates to it's left side.",
                sides: 4,
                texture_name: "generator_ccw",
            },
        )
    } else if id == TRASHPULLER {
        Some(
            CellData {
                id: TRASHPULLER,
                name: "Trash Puller",
                description: "Tries to trash the cell behind it, then moves.",
                sides: 4,
                texture_name: "trashpuller",
            },
        )
    } else if id == GHOST {
        Some(
            CellData {
                id: GHOST,
                name: "Ghost",
                description: "A wall that can't be generated.",
                sides: 1,
                texture_name: "ghost",
            },
        )
    } else if id == STONE {
        Some(
            CellData {
                id: STONE,
                name: "Stone",
                description: "A cell with gravity. Will try to form hills.",
                sides: 4,
                texture_name: "stone",
            },
        )
    } else if id == REPLICATOR {
        Some(
            CellData {
                id: REPLICATOR,
                name: "Replicator",
                description: "A generator that generates the cell in front of it.",
                sides: 4,
                texture_name: "replicator",
            },
        )
    } else if id == SUCKER {
        Some(
            CellData {
                id: SUCKER,
                name: "Sucker",
                description: "Trashes the cell in front of it.",
                sides: 4,
                texture_name: "sucker",
            },
        )
    } else if id == GENERATOR_CROSS {
        Some(
            CellData {
                id: GENERATOR_CROSS,
                name: "Generator Cross",
                description: "Like a generator but stacked 90 degrees.",
                sides: 4,
                texture_name: "generator_cross",
            },
        )
    } else if id == MAILBOX {
        Some(
            CellData {
                id: MAILBOX,
                name: "Mailbox",
                description: "Can be filled with a cell and then moves with it. If it hits a wall it deletes itself and pops out the stored cell.",
                sides: 4,
                texture_name: "mailbox",
            },
        )
    } else if id == POSTOFFICE {
        Some(
            CellData {
                id: POSTOFFICE,
                name: "Post Office",
                description: "Used to fill a mailbox. If there is a mailbox in front of it and a movable cell behind it, the \"mail\" will be deleted and put into the mailbox.",
                sides: 4,
                texture_name: "postoffice",
            },
        )
    } else if id == PHYSICAL_GENERATOR {
        Some(
            CellData {
                id: PHYSICAL_GENERATOR,
                name: "Physical Generator",
                description: "Generates the cell behind to its front. If it hits a wall it pushes itself back.",
                sides: 4,
                texture_name: "physical_generator",
            },
        )
    } else if id == ROTATOR_180 {
        Some(
            CellData {
                id: ROTATOR_180,
                name: "Rotator 180",
                description: "Rotates all touching cells 180 degrees.",
                sides: 1,
                texture_name: "rotator_180",
            },
        )
    } else if id == TUNNEL {
        Some(
            CellData {
                id: TUNNEL,
                name: "Tunnel",
                description: "Moves the cell behind it to its front without moving itself.",
                sides: 4,
                texture_name: "tunnel",
            },
        )
    } else if id == FIXED_PULLSHER {
        Some(
            CellData {
                id: FIXED_PULLSHER,
                name: "Fixed Pullsher",
                description: "Like a tunnel but also pulls the cells behind it.",
                sides: 4,
                texture_name: "fixed_pullsher",
            },
        )
    } else {
        None
    }
}

/// The rotational symmetry class of a cell type, see [`sides_of`].
pub fn sides(id: CellType) -> (r: u8)
    ensures
        r == sides_of(id),
        r == 1 || r == 2 || r == 4,
{
    match cell_data(id) {
        Some(data) => {
            if data.sides == 1 {
                1
            } else if data.sides == 2 {
                2
            } else {
                4
            }
        },
        None => 4,
    }
}

/// Every entry of the catalog carries the id under which it is found, and
/// a symmetry class of 1, 2 or 4; the ids of the catalog are exactly those
/// below `CELL_TYPE_COUNT`.
pub proof fn lemma_catalog(id: CellType)
    ensures
        catalog(id) is Some <==> in_catalog(id),
        catalog(id) is Some ==> catalog(id)->0.id == id,
        sides_of(id) == 1 || sides_of(id) == 2 || sides_of(id) == 4,
{
}

} // verus!
