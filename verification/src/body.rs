use vstd::prelude::*;

verus! {

/// The end of the track that the wall closes.
#[derive(Clone, Copy, Debug, PartialEq, Eq, Structural)]
pub enum WallSide {
    /// The wall bounds the track from below: bodies live at larger positions.
    Low,
    /// The wall bounds the track from above: bodies live at smaller positions.
    High,
}

/// The mathematical state of one body, in unbounded integers.
pub struct BodyState {
    /// Inertial mass; positive in a valid body.
    pub mass: int,
    /// Signed distance of the centre along the track.
    pub position: int,
    /// Half the length of the footprint; positive in a valid body.
    pub half_extent: int,
    /// Signed position units per time unit.
    pub velocity: int,
}

impl BodyState {
    /// A body has positive mass and positive half-extent.
    pub open spec fn valid(self) -> bool {
        self.mass > 0 && self.half_extent > 0
    }

    /// The lower end of the footprint.
    pub open spec fn low_edge(self) -> int {
        self.position - self.half_extent
    }

    /// The upper end of the footprint.
    pub open spec fn high_edge(self) -> int {
        self.position + self.half_extent
    }

    /// The footprints of the two bodies intersect; touching edges count.
    pub open spec fn touches(self, other: BodyState) -> bool {
        self.low_edge() <= other.high_edge() && other.low_edge() <= self.high_edge()
    }

    /// The edge that faces the wall.
    pub open spec fn leading_edge(self, side: WallSide) -> int {
        match side {
            WallSide::Low => self.low_edge(),
            WallSide::High => self.high_edge(),
        }
    }

    /// The leading edge has reached or crossed the wall.
    pub open spec fn at_wall(self, wall: int, side: WallSide) -> bool {
        match side {
            WallSide::Low => self.low_edge() <= wall,
            WallSide::High => self.high_edge() >= wall,
        }
    }

    /// The leading edge lies strictly beyond the wall.
    pub open spec fn past_wall(self, wall: int, side: WallSide) -> bool {
        match side {
            WallSide::Low => self.low_edge() < wall,
            WallSide::High => self.high_edge() > wall,
        }
    }

    /// The position at which the leading edge sits exactly on the wall.
    pub open spec fn rest_position(self, wall: int, side: WallSide) -> int {
        match side {
            WallSide::Low => wall + self.half_extent,
            WallSide::High => wall - self.half_extent,
        }
    }

    /// The body after coasting for `dt` time units.
    pub open spec fn moved(self, dt: int) -> BodyState {
        BodyState { position: self.position + self.velocity * dt, ..self }
    }

    /// The body after an ideal reflection off the wall.
    pub open spec fn bounced(self, wall: int, side: WallSide) -> BodyState {
        BodyState { position: self.rest_position(wall, side), velocity: -self.velocity, ..self }
    }

    /// The same body with another velocity.
    pub open spec fn with_velocity(self, velocity: int) -> BodyState {
        BodyState { velocity, ..self }
    }

    /// Twice the kinetic energy: mass times velocity squared.
    pub open spec fn doubled_energy(self) -> int {
        self.mass * (self.velocity * self.velocity)
    }
}

/// One rigid body on the track.
#[derive(Clone, Copy, Debug, PartialEq, Eq, Structural)]
pub struct Body {
    /// Inertial mass; positive in a valid body.
    pub mass: i64,
    /// Signed distance of the centre along the track.
    pub position: i64,
    /// Half the length of the footprint; positive in a valid body.
    pub half_extent: i64,
    /// Signed position units per time unit.
    pub velocity: i64,
}

impl View for Body {
    type V = BodyState;

    /// The same four quantities as unbounded integers.
    open spec fn view(&self) -> BodyState {
        BodyState {
            mass: self.mass as int,
            position: self.position as int,
            half_extent: self.half_extent as int,
            velocity: self.velocity as int,
        }
    }
}

impl Body {
    /// A body with the given mass, position, half-extent and velocity.
    pub fn new(mass: i64, position: i64, half_extent: i64, velocity: i64) -> (body: Body)
        ensures
            body.mass == mass,
            body.position == position,
            body.half_extent == half_extent,
            body.velocity == velocity,
    {
        Body { mass, position, half_extent, velocity }
    }

    /// Mass and half-extent are positive.
    pub fn is_valid(&self) -> (ok: bool)
        ensures
            ok == self@.valid(),
    {
        self.mass > 0 && self.half_extent > 0
    }

    /// Interval overlap test between two bodies, boundaries included.
    pub fn touches(&self, other: &Body) -> (hit: bool)
        ensures
            hit == self@.touches(other@),
    {
        let a_low: i128 = self.position as i128 - self.half_extent as i128;
        let a_high: i128 = self.position as i128 + self.half_extent as i128;
        let b_low: i128 = other.position as i128 - other.half_extent as i128;
        let b_high: i128 = other.position as i128 + other.half_extent as i128;
        a_low <= b_high && b_low <= a_high
    }

    /// Overlap test between a body and the wall, boundary included.
    pub fn at_wall(&self, wall: i64, side: WallSide) -> (hit: bool)
        ensures
            hit == self@.at_wall(wall as int, side),
    {
        match side {
            WallSide::Low => self.position as i128 - self.half_extent as i128 <= wall as i128,
            WallSide::High => self.position as i128 + self.half_extent as i128 >= wall as i128,
        }
    }
}

/// The mathematical states of a sequence of bodies.
pub open spec fn states_of(bodies: Seq<Body>) -> Seq<BodyState> {
    Seq::new(bodies.len(), |i: int| bodies[i]@)
}

} // verus!
