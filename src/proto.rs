use vstd::prelude::*;

verus! {

/// Fixed-point steps per pixel; the sine and cosine of a heading use the same scale.
pub const UNIT: i64 = 1000;

/// Largest magnitude of a coordinate in a valid position.
pub const MAX_COORD: i64 = 1_125_899_906_842_624;

/// Largest magnitude of an angle, in degrees, in a valid position.
pub const MAX_ANGLE: i64 = 1_000_000_000;

/// World coordinates in `UNIT`s of a pixel, angle in degrees (0 is up, clockwise).
#[derive(Clone, Copy, Debug, PartialEq, Eq, Structural)]
pub struct Position {
    pub x: i64,
    pub y: i64,
    pub angle: i64,
}

impl Position {
    pub open spec fn valid(self) -> bool {
        &&& -MAX_COORD <= self.x <= MAX_COORD
        &&& -MAX_COORD <= self.y <= MAX_COORD
        &&& -MAX_ANGLE <= self.angle <= MAX_ANGLE
    }

    /// Whether the position is within the range that the simulation accepts.
    pub fn is_valid(&self) -> (r: bool)
        ensures
            r == self.valid(),
    {
        -MAX_COORD <= self.x && self.x <= MAX_COORD && -MAX_COORD <= self.y && self.y <= MAX_COORD
            && -MAX_ANGLE <= self.angle && self.angle <= MAX_ANGLE
    }
}

/// Messages from the server to a client.
#[derive(Clone, Copy, Debug, PartialEq, Eq, Structural)]
pub enum ServerMessage {
    Init { id: u32, width: u32, height: u32 },
    Move { id: u32, position: Position },
    Leave { id: u32 },
    Shoot { id: u32 },
}

/// Messages from a client to the server.
#[derive(Clone, Copy, Debug, PartialEq, Eq, Structural)]
pub enum ClientMessage {
    Move { position: Position },
    Shoot,
    Die,
}

} // verus!
