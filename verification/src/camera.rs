//! An orbit camera, in cells.

use crate::dispersion::{pi, pi_of};
use crate::numerics::Elementary;
use crate::scalar::{
    arithmetic, below, greater, greater_of, half, minus, negative, number, one_half, over, plus,
    times, Scalar,
};
use vstd::prelude::*;

verus! {

/// Orbits the centre of the domain.
#[derive(Clone, Copy, Debug, PartialEq)]
pub struct Camera<V> {
    pub yaw: V,
    pub pitch: V,
    /// Distance from the centre, as a multiple of the domain's longest side.
    pub distance: V,
    /// Vertical field of view, radians.
    pub fov: V,
}

/// Where the camera stands and the three directions a ray is put together from,
/// already scaled by the field of view and the aspect ratio.
#[derive(Clone, Copy, Debug, PartialEq)]
pub struct CameraBasis<V> {
    pub position: [V; 3],
    pub right: [V; 3],
    pub up: [V; 3],
    pub forward: [V; 3],
}

/// `value`, moved to the nearer bound where it lies outside.
pub open spec fn clamped<V: Scalar>(value: V, low: V, high: V) -> V {
    if below(value, low) {
        low
    } else if below(high, value) {
        high
    } else {
        value
    }
}

fn clamp<V: Scalar>(value: V, low: V, high: V) -> (r: V)
    requires
        arithmetic::<V>(),
    ensures
        r == clamped(value, low, high),
{
    if value < low {
        low
    } else if high < value {
        high
    } else {
        value
    }
}

/// The vector product.
pub open spec fn crossed<V: Scalar>(a: Seq<V>, b: Seq<V>) -> Seq<V> {
    seq![
        minus(times(a[1], b[2]), times(a[2], b[1])),
        minus(times(a[2], b[0]), times(a[0], b[2])),
        minus(times(a[0], b[1]), times(a[1], b[0])),
    ]
}

fn cross<V: Scalar>(a: [V; 3], b: [V; 3]) -> (r: [V; 3])
    requires
        arithmetic::<V>(),
    ensures
        r@ == crossed(a@, b@),
{
    [
        a[1] * b[2] - a[2] * b[1],
        a[2] * b[0] - a[0] * b[2],
        a[0] * b[1] - a[1] * b[0],
    ]
}

/// A vector times a number.
pub open spec fn stretched<V: Scalar>(v: Seq<V>, factor: V) -> Seq<V> {
    seq![times(v[0], factor), times(v[1], factor), times(v[2], factor)]
}

fn stretch<V: Scalar>(v: [V; 3], factor: V) -> (r: [V; 3])
    requires
        arithmetic::<V>(),
    ensures
        r@ == stretched(v@, factor),
{
    [v[0] * factor, v[1] * factor, v[2] * factor]
}

/// A vector of the same direction and unit length.
pub open spec fn unit<V: Scalar, N: Elementary<V>>(math: &N, v: Seq<V>) -> Seq<V> {
    let norm = math.sqrt_of(
        plus(plus(times(v[0], v[0]), times(v[1], v[1])), times(v[2], v[2])),
    );
    seq![over(v[0], norm), over(v[1], norm), over(v[2], norm)]
}

fn normalize<V: Scalar, N: Elementary<V>>(math: &N, v: [V; 3]) -> (r: [V; 3])
    requires
        arithmetic::<V>(),
    ensures
        r@ == unit(math, v@),
{
    let norm = math.sqrt(v[0] * v[0] + v[1] * v[1] + v[2] * v[2]);
    [v[0] / norm, v[1] / norm, v[2] / norm]
}

impl<V: Scalar> Camera<V> {
    /// Just short of the poles, where the up vector degenerates.
    pub open spec fn steepest<N: Elementary<V>>(math: &N) -> V {
        minus(times(half::<V>(), pi_of::<V, N>(math)), math.decimal_of(1, 2))
    }

    /// Closest and furthest the camera goes.
    pub open spec fn reach<N: Elementary<V>>(math: &N) -> (V, V) {
        (math.decimal_of(6, 1), number(8))
    }

    /// Looking down at a corner, far enough back to see the whole domain.
    pub open spec fn usual<N: Elementary<V>>(math: &N) -> Camera<V> {
        Camera {
            yaw: math.decimal_of(9, 1),
            pitch: math.decimal_of(45, 2),
            distance: math.decimal_of(19, 1),
            fov: math.decimal_of(8, 1),
        }
    }

    pub fn new<N: Elementary<V>>(math: &N) -> (r: Self)
        ensures
            r == Self::usual(math),
    {
        Camera {
            yaw: math.decimal(9, 1),
            pitch: math.decimal(45, 2),
            distance: math.decimal(19, 1),
            fov: math.decimal(8, 1),
        }
    }

    /// The camera turned by two angles, short of the poles.
    pub open spec fn orbited<N: Elementary<V>>(
        self,
        math: &N,
        delta_yaw: V,
        delta_pitch: V,
    ) -> Camera<V> {
        Camera {
            yaw: plus(self.yaw, delta_yaw),
            pitch: clamped(
                plus(self.pitch, delta_pitch),
                negative(Self::steepest(math)),
                Self::steepest(math),
            ),
            ..self
        }
    }

    pub fn orbit<N: Elementary<V>>(&mut self, math: &N, delta_yaw: V, delta_pitch: V)
        requires
            arithmetic::<V>(),
        ensures
            *final(self) == old(self).orbited(math, delta_yaw, delta_pitch),
    {
        let half_turn: V = pi(math);
        let margin: V = math.decimal(1, 2);
        let limit: V = one_half::<V>() * half_turn - margin;
        self.yaw = self.yaw + delta_yaw;
        self.pitch = clamp(self.pitch + delta_pitch, V::from(0u8) - limit, limit);
    }

    /// Turns the camera as the pointer drags the domain along.
    pub fn drag<N: Elementary<V>>(&mut self, math: &N, right: V, down: V)
        requires
            arithmetic::<V>(),
        ensures
            *final(self) == old(self).orbited(
                math,
                times(negative(right), math.decimal_of(6, 3)),
                times(down, math.decimal_of(6, 3)),
            ),
    {
        let rate: V = math.decimal(6, 3);
        self.orbit(math, (V::from(0u8) - right) * rate, down * rate);
    }

    /// The camera moved out by a factor, within its reach.
    pub open spec fn zoomed<N: Elementary<V>>(self, math: &N, factor: V) -> Camera<V> {
        Camera {
            distance: clamped(
                times(self.distance, factor),
                Self::reach(math).0,
                Self::reach(math).1,
            ),
            ..self
        }
    }

    pub fn zoom<N: Elementary<V>>(&mut self, math: &N, factor: V)
        requires
            arithmetic::<V>(),
        ensures
            *final(self) == old(self).zoomed(math, factor),
    {
        let closest: V = math.decimal(6, 1);
        self.distance = clamp(self.distance * factor, closest, V::from(8u8));
    }

    /// Moves the camera by a turn of the wheel, in lines.
    pub fn scroll<N: Elementary<V>>(&mut self, math: &N, lines: V)
        requires
            arithmetic::<V>(),
        ensures
            *final(self) == old(self).zoomed(
                math,
                math.exp_of(times(negative(lines), math.decimal_of(1, 1))),
            ),
    {
        let rate: V = math.decimal(1, 1);
        let factor: V = math.exp((V::from(0u8) - lines) * rate);
        self.zoom(math, factor);
    }

    /// Direction from the centre of the domain to the camera.
    pub open spec fn away<N: Elementary<V>>(self, math: &N) -> Seq<V> {
        seq![
            times(math.cos_of(self.pitch), math.sin_of(self.yaw)),
            math.sin_of(self.pitch),
            times(math.cos_of(self.pitch), math.cos_of(self.yaw)),
        ]
    }

    /// The direction the camera looks in.
    pub open spec fn ahead<N: Elementary<V>>(self, math: &N) -> Seq<V> {
        let away = self.away(math);
        seq![negative(away[0]), negative(away[1]), negative(away[2])]
    }

    /// The direction to the right of the image.
    pub open spec fn rightward<N: Elementary<V>>(self, math: &N) -> Seq<V> {
        unit(math, crossed(self.ahead(math), seq![number::<V>(0), number::<V>(1), number::<V>(0)]))
    }

    /// Whether a basis is the one the camera has in front of a domain of a given
    /// size, in an image of a given aspect ratio.
    pub open spec fn frames<N: Elementary<V>>(
        self,
        math: &N,
        size: Seq<V>,
        aspect: V,
        basis: CameraBasis<V>,
    ) -> bool {
        let radius = greater_of(greater_of(size[0], size[1]), size[2]);
        let tangent = math.tan_of(times(half::<V>(), self.fov));
        let up = crossed(self.rightward(math), self.ahead(math));
        &&& forall|a: int|
            0 <= a < 3 ==> #[trigger] basis.position@[a] == plus(
                times(half::<V>(), size[a]),
                times(times(self.away(math)[a], self.distance), radius),
            )
        &&& basis.right@ == stretched(stretched(self.rightward(math), tangent), aspect)
        &&& basis.up@ == stretched(up, tangent)
        &&& basis.forward@ == self.ahead(math)
    }

    /// Position and the three directions a ray-march wants.
    pub fn basis<N: Elementary<V>>(&self, math: &N, size: [V; 3], aspect: V) -> (r: CameraBasis<V>)
        requires
            arithmetic::<V>(),
        ensures
            self.frames(math, size@, aspect, r),
    {
        let zero = V::from(0u8);
        let middle: V = one_half();
        let radius = greater(greater(size[0], size[1]), size[2]);
        let (sin_pitch, cos_pitch) = (math.sin(self.pitch), math.cos(self.pitch));
        let (sin_yaw, cos_yaw) = (math.sin(self.yaw), math.cos(self.yaw));
        let away = [cos_pitch * sin_yaw, sin_pitch, cos_pitch * cos_yaw];
        let position = [
            middle * size[0] + away[0] * self.distance * radius,
            middle * size[1] + away[1] * self.distance * radius,
            middle * size[2] + away[2] * self.distance * radius,
        ];
        let forward = [zero - away[0], zero - away[1], zero - away[2]];
        let world_up = [zero, V::from(1u8), zero];
        proof {
            assert(away@ =~= self.away(math));
            assert(forward@ =~= self.ahead(math));
            assert(world_up@ =~= seq![number::<V>(0), number::<V>(1), number::<V>(0)]);
        }
        let right = normalize(math, cross(forward, world_up));
        let up = cross(right, forward);
        let tangent = math.tan(middle * self.fov);
        CameraBasis {
            position,
            right: stretch(stretch(right, tangent), aspect),
            up: stretch(up, tangent),
            forward,
        }
    }
}

/// Where numbers are ordered, the camera never reaches a pole, however it is
/// turned.
pub proof fn pitch_stays_off_the_poles<V: Scalar, N: Elementary<V>>(
    math: &N,
    camera: Camera<V>,
    delta_yaw: V,
    delta_pitch: V,
)
    requires
        forall|a: V| !#[trigger] below(a, a),
        !below(Camera::<V>::steepest(math), negative(Camera::<V>::steepest(math))),
    ensures
        !below(
            camera.orbited(math, delta_yaw, delta_pitch).pitch,
            negative(Camera::<V>::steepest(math)),
        ),
        !below(
            Camera::<V>::steepest(math),
            camera.orbited(math, delta_yaw, delta_pitch).pitch,
        ),
{
}

/// Where numbers are ordered, the camera stays within reach, however it is
/// zoomed.
pub proof fn zoom_stays_in_reach<V: Scalar, N: Elementary<V>>(
    math: &N,
    camera: Camera<V>,
    factor: V,
)
    requires
        forall|a: V| !#[trigger] below(a, a),
        !below(Camera::<V>::reach(math).1, Camera::<V>::reach(math).0),
    ensures
        !below(camera.zoomed(math, factor).distance, Camera::<V>::reach(math).0),
        !below(Camera::<V>::reach(math).1, camera.zoomed(math, factor).distance),
{
}

} // verus!
