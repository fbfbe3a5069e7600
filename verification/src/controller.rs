//! Gamepad button state: the direction, action and menu button groups,
//! their packed bit masks, button-event bookkeeping, and the
//! vendor/product table that names a pad's family.

use vstd::prelude::*;

verus! {

pub const CNTR_MASK_UP: u16 = 0b10000000_00000000;

pub const CNTR_MASK_DOWN: u16 = 0b01000000_00000000;

pub const CNTR_MASK_LEFT: u16 = 0b00100000_00000000;

pub const CNTR_MASK_RIGHT: u16 = 0b00010000_00000000;

pub const CNTR_MASK_START: u16 = 0b00000001_00000000;

pub const CNTR_MASK_NORTH: u16 = 0b00000000_00001000;

pub const CNTR_MASK_SOUTH: u16 = 0b00000000_00000100;

pub const CNTR_MASK_EAST: u16 = 0b00000000_00000010;

pub const CNTR_MASK_WEST: u16 = 0b00000000_00000001;

/// A recognised gamepad family.
#[derive(Debug, Copy, Clone, Eq, PartialEq, Hash, Structural)]
pub enum Controller {
    Playstation,
    Xbox,
    Switch,
}

/// The four directional pad buttons.
#[derive(Debug, Default, Clone, Copy, Eq, PartialEq, Hash, Structural)]
pub struct DirectionState {
    pub up: bool,
    pub down: bool,
    pub left: bool,
    pub right: bool,
}

/// The menu buttons.
#[derive(Debug, Default, Clone, Copy, Eq, PartialEq, Hash, Structural)]
pub struct MenuState {
    pub start: bool,
}

/// The four face buttons.
#[derive(Debug, Default, Clone, Copy, Eq, PartialEq, Hash, Structural)]
pub struct ActionState {
    pub north: bool,
    pub south: bool,
    pub west: bool,
    pub east: bool,
}

/// The button identities the state tracker reacts to; every other
/// button maps to `Other`.
#[derive(Debug, Copy, Clone, Eq, PartialEq, Structural)]
pub enum PadButton {
    South,
    East,
    North,
    West,
    Start,
    DPadUp,
    DPadDown,
    DPadLeft,
    DPadRight,
    Other,
}

impl DirectionState {
    /// Packs the pressed direction buttons into their mask bits.
    pub fn to_mask(&self) -> (r: u16)
        ensures
            r == (if self.up {
                CNTR_MASK_UP
            } else {
                0u16
            } | if self.down {
                CNTR_MASK_DOWN
            } else {
                0u16
            } | if self.left {
                CNTR_MASK_LEFT
            } else {
                0u16
            } | if self.right {
                CNTR_MASK_RIGHT
            } else {
                0u16
            }),
    {
        (if self.up {
            CNTR_MASK_UP
        } else {
            0
        }) | (if self.down {
            CNTR_MASK_DOWN
        } else {
            0
        }) | (if self.left {
            CNTR_MASK_LEFT
        } else {
            0
        }) | (if self.right {
            CNTR_MASK_RIGHT
        } else {
            0
        })
    }
}

impl MenuState {
    /// Packs the pressed menu buttons into their mask bits.
    pub fn to_mask(&self) -> (r: u16)
        ensures
            r == (if self.start {
                CNTR_MASK_START
            } else {
                0u16
            }),
    {
        if self.start {
            CNTR_MASK_START
        } else {
            0
        }
    }
}

impl ActionState {
    /// Packs the pressed face buttons into their mask bits.
    pub fn to_mask(&self) -> (r: u16)
        ensures
            r == (if self.north {
                CNTR_MASK_NORTH
            } else {
                0u16
            } | if self.south {
                CNTR_MASK_SOUTH
            } else {
                0u16
            } | if self.west {
                CNTR_MASK_WEST
            } else {
                0u16
            } | if self.east {
                CNTR_MASK_EAST
            } else {
                0u16
            }),
    {
        (if self.north {
            CNTR_MASK_NORTH
        } else {
            0
        }) | (if self.south {
            CNTR_MASK_SOUTH
        } else {
            0
        }) | (if self.west {
            CNTR_MASK_WEST
        } else {
            0
        }) | (if self.east {
            CNTR_MASK_EAST
        } else {
            0
        })
    }
}

/// Applies one button transition to the three button groups: the
/// matching field takes `pressed`, everything else keeps its value.
pub fn apply_button(
    direction: &mut DirectionState,
    action: &mut ActionState,
    menu: &mut MenuState,
    button: PadButton,
    pressed: bool,
)
    ensures
        *final(direction) == (match button {
            PadButton::DPadUp => DirectionState { up: pressed, ..*old(direction) },
            PadButton::DPadDown => DirectionState { down: pressed, ..*old(direction) },
            PadButton::DPadLeft => DirectionState { left: pressed, ..*old(direction) },
            PadButton::DPadRight => DirectionState { right: pressed, ..*old(direction) },
            _ => *old(direction),
        }),
        *final(action) == (match button {
            PadButton::South => ActionState { south: pressed, ..*old(action) },
            PadButton::East => ActionState { east: pressed, ..*old(action) },
            PadButton::North => ActionState { north: pressed, ..*old(action) },
            PadButton::West => ActionState { west: pressed, ..*old(action) },
            _ => *old(action),
        }),
        *final(menu) == (match button {
            PadButton::Start => MenuState { start: pressed },
            _ => *old(menu),
        }),
{
    match button {
        PadButton::South => {
            action.south = pressed;
        },
        PadButton::East => {
            action.east = pressed;
        },
        PadButton::North => {
            action.north = pressed;
        },
        PadButton::West => {
            action.west = pressed;
        },
        PadButton::Start => {
            menu.start = pressed;
        },
        PadButton::DPadUp => {
            direction.up = pressed;
        },
        PadButton::DPadDown => {
            direction.down = pressed;
        },
        PadButton::DPadLeft => {
            direction.left = pressed;
        },
        PadButton::DPadRight => {
            direction.right = pressed;
        },
        PadButton::Other => {},
    }
}

/// The controller family for a USB vendor and product id pair.
pub open spec fn spec_controller_type(vendor: u16, product: u16) -> Option<Controller> {
    if vendor == 0x54c && (product == 0xdf2 || product == 0xce6 || product == 0xcda || product
        == 0x9cc || product == 0x5c4 || product == 0x268) {
        Some(Controller::Playstation)
    } else if vendor == 0x45e && (product == 0x202 || product == 0x285 || product == 0x289
        || product == 0x28e || product == 0x28f || product == 0x2d1 || product == 0x2dd || product
        == 0x2e0 || product == 0x2e3 || product == 0x2ea || product == 0x2fd || product == 0xb12
        || product == 0xb00) {
        Some(Controller::Xbox)
    } else if vendor == 0x57e && product == 0x2009 {
        Some(Controller::Switch)
    } else {
        None
    }
}

/// Names the controller family behind a USB vendor/product id pair,
/// as listed in the public USB id registry.
pub fn controller_type_for_ids(vendor: u16, product: u16) -> (r: Option<Controller>)
    ensures
        r == spec_controller_type(vendor, product),
{
    match (vendor, product) {
        (0x54c, 0xdf2 | 0xce6 | 0xcda | 0x9cc | 0x5c4 | 0x268) => Some(Controller::Playstation),
        (
            0x45e,
            0x202 | 0x285 | 0x289 | 0x28e | 0x28f | 0x2d1 | 0x2dd | 0x2e0 | 0x2e3 | 0x2ea | 0x2fd
            | 0xb12 | 0xb00,
        ) => Some(Controller::Xbox),
        (0x57e, 0x2009) => Some(Controller::Switch),
        _ => None,
    }
}

} // verus!
