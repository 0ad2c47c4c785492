//! What a run is made of, and what one step does to the fields.
//!
//! The state of a simulation is a pure function of its scene and the number of
//! steps taken: fixed initial conditions, sources that are analytic functions of
//! time, no randomness anywhere. [`Setup`] is the scene's half of that, everything
//! a run reads and never writes, and [`State`] the other half.

use crate::grid::{Axis, Grid};
use crate::lattice::{
    cell_at, cell_of_slot, slot_in_range, slot_of_cell, slots_distinct, Cell,
};
use crate::material::MaterialTable;
use crate::numerics::Numerics;
use crate::scalar::{arithmetic, negative, number, plus, same, times, Scalar};
use crate::source::{Injection, Source};
use crate::stencil::{passed, Direction, Half, Medium};
use vstd::prelude::*;

verus! {

/// Everything a run reads and never writes.
#[derive(Debug)]
pub struct Setup<V, W, N> {
    /// The elementary functions the run is evaluated with.
    pub math: N,
    pub grid: Grid<V, W>,
    pub medium: Medium<V>,
    pub materials: MaterialTable<V>,
    /// Centre of each cell along each axis, in metres.
    pub centers: [Vec<V>; 3],
    pub sources: Vec<Source<V>>,
}

/// The fields, and the number of steps they stand at.
#[verifier::ext_equal]
pub struct State<V> {
    pub electric: Seq<Seq<V>>,
    pub magnetic: Seq<Seq<V>>,
    pub step: int,
}

impl<V> State<V> {
    /// Three components of either field, each with a value for every cell.
    pub open spec fn shaped(self, cells: int) -> bool {
        &&& self.electric.len() == 3
        &&& self.magnetic.len() == 3
        &&& forall|t: int| 0 <= t < 3 ==> (#[trigger] self.electric[t]).len() == cells
        &&& forall|t: int| 0 <= t < 3 ==> (#[trigger] self.magnetic[t]).len() == cells
    }
}

/// The sign a source enters with: added going forward, taken out going back.
pub open spec fn sign_of<V: Scalar>(direction: Direction) -> V {
    match direction {
        Direction::Forward => number(1),
        Direction::Backward => negative(number::<V>(1)),
    }
}

impl<V: Scalar, W: Scalar, N: Numerics<V, W>> Setup<V, W, N> {
    /// The medium fits the grid, every list has an entry per cell, and every
    /// source can act.
    pub open spec fn valid(self) -> bool {
        &&& arithmetic::<V>()
        &&& arithmetic::<W>()
        &&& self.grid.valid()
        &&& self.medium.valid()
        &&& self.medium.extent == self.grid.extent
        &&& self.medium.coefficients@.len() == self.materials.materials@.len()
        &&& forall|axis: Axis|
            #![trigger self.centers@[axis.position()]]
            self.centers@[axis.position()]@.len() == self.grid.extent.along(axis)
        &&& forall|k: int|
            0 <= k < self.sources@.len() ==> (#[trigger] self.sources@[k]).coherent()
    }

    /// Number of cells.
    pub open spec fn cells(self) -> int {
        self.grid.extent.cells()
    }

    /// Simulated time after a number of steps, in seconds.
    pub open spec fn time_after(self, step: int) -> V {
        times(self.math.count_of(step as u64), self.grid.step_time(&self.math))
    }

    /// How strongly an injection acts on a cell.
    pub open spec fn weight(self, injection: Injection<V>, cell: Cell) -> V {
        injection.weight_at(
            &self.math,
            self.centers@[0]@[cell.x],
            self.centers@[1]@[cell.y],
            self.centers@[2]@[cell.z],
        )
    }

    /// A component with an injection added into the cells it covers.
    pub open spec fn deposited(
        self,
        field: Seq<V>,
        injection: Injection<V>,
        direction: Direction,
    ) -> Seq<V> {
        Seq::new(
            self.cells() as nat,
            |i: int|
                {
                    let cell = self.grid.extent.cell(i);
                    if injection.covers(cell) {
                        plus(
                            field[i],
                            times(
                                times(sign_of::<V>(direction), injection.value),
                                self.weight(injection, cell),
                            ),
                        )
                    } else {
                        field[i]
                    }
                },
        )
    }

    /// Whether an injection acts on one of the two fields at all.
    pub open spec fn acts(self, injection: Injection<V>, half: Half) -> bool {
        &&& !same(injection.value, number::<V>(0))
        &&& injection.magnetic == (half == Half::Magnetic)
    }

    /// A field with an injection added, if it acts on that field.
    pub open spec fn driven(
        self,
        field: Seq<Seq<V>>,
        injection: Injection<V>,
        half: Half,
        direction: Direction,
    ) -> Seq<Seq<V>> {
        if self.acts(injection, half) {
            field.update(
                injection.component as int,
                self.deposited(field[injection.component as int], injection, direction),
            )
        } else {
            field
        }
    }

    /// A field with the first `n` sources added, `E` standing at `time`.
    pub open spec fn injected(
        self,
        field: Seq<Seq<V>>,
        half: Half,
        direction: Direction,
        time: V,
        n: int,
    ) -> Seq<Seq<V>>
        decreases n,
    {
        if n <= 0 {
            field
        } else {
            let before = self.injected(field, half, direction, time, n - 1);
            let source = self.sources@[n - 1];
            self.driven(
                self.driven(
                    before,
                    source.electric_injection(&self.math, self.grid, time),
                    half,
                    direction,
                ),
                source.magnetic_injection(&self.math, self.grid, time),
                half,
                direction,
            )
        }
    }

    /// A field after its half-update, reading the other one.
    pub open spec fn swept(
        self,
        half: Half,
        direction: Direction,
        field: Seq<Seq<V>>,
        other: Seq<Seq<V>>,
    ) -> Seq<Seq<V>> {
        seq![
            self.medium.swept(half, direction, Axis::X, field[0], other[1], other[2]),
            self.medium.swept(half, direction, Axis::Y, field[1], other[2], other[0]),
            self.medium.swept(half, direction, Axis::Z, field[2], other[0], other[1]),
        ]
    }

    /// The state one step later.
    ///
    /// ```text
    /// H^{n−½} → H^{n+½}, reading E^n;     then what the sources add to H
    /// E^n     → E^{n+1}, reading H^{n+½}; then what the sources add to E
    /// ```
    ///
    /// Magnetic injections land *between* the half-updates: a plane wave's
    /// scattered-side correction has to be in place before the electric update
    /// reads the row it repairs.
    pub open spec fn advanced(self, state: State<V>) -> State<V> {
        let time = self.time_after(state.step + 1);
        let all = self.sources@.len() as int;
        let magnetic = self.injected(
            self.swept(Half::Magnetic, Direction::Forward, state.magnetic, state.electric),
            Half::Magnetic,
            Direction::Forward,
            time,
            all,
        );
        let electric = self.injected(
            self.swept(Half::Electric, Direction::Forward, state.electric, magnetic),
            Half::Electric,
            Direction::Forward,
            time,
            all,
        );
        State { electric, magnetic, step: state.step + 1 }
    }

    /// The state one step earlier: each part of a step undone, last part first.
    pub open spec fn reversed(self, state: State<V>) -> State<V> {
        let time = self.time_after(state.step);
        let all = self.sources@.len() as int;
        let electric = self.swept(
            Half::Electric,
            Direction::Backward,
            self.injected(state.electric, Half::Electric, Direction::Backward, time, all),
            state.magnetic,
        );
        let magnetic = self.swept(
            Half::Magnetic,
            Direction::Backward,
            self.injected(state.magnetic, Half::Magnetic, Direction::Backward, time, all),
            electric,
        );
        State { electric, magnetic, step: state.step - 1 }
    }

    /// The state after `n` more steps.
    pub open spec fn run(self, state: State<V>, n: nat) -> State<V>
        decreases n,
    {
        if n == 0 {
            state
        } else {
            self.advanced(self.run(state, (n - 1) as nat))
        }
    }

    /// The state after `n` steps back.
    pub open spec fn rewound(self, state: State<V>, n: nat) -> State<V>
        decreases n,
    {
        if n == 0 {
            state
        } else {
            self.reversed(self.rewound(state, (n - 1) as nat))
        }
    }

    /// Empty fields at the start of time.
    pub open spec fn at_rest(self) -> State<V> {
        let empty = Seq::new(self.cells() as nat, |i: int| number::<V>(0));
        State { electric: seq![empty, empty, empty], magnetic: seq![empty, empty, empty], step: 0 }
    }

    /// The state a run reaches after `step` steps from empty fields.
    pub open spec fn state_at(self, step: nat) -> State<V> {
        self.run(self.at_rest(), step)
    }

    /// Adds an injection into one component, in place.
    pub fn deposit(&self, target: &mut Vec<V>, injection: &Injection<V>, direction: Direction)
        requires
            self.valid(),
            injection.inside(self.grid.extent),
            old(target)@.len() == self.cells(),
        ensures
            final(target)@ == self.deposited(old(target)@, *injection, direction),
    {
        let ghost before = target@;
        let ghost extent = self.grid.extent;
        let ghost after = self.deposited(before, *injection, direction);
        let sign = match direction {
            Direction::Forward => V::from(1u8),
            Direction::Backward => V::from(0u8) - V::from(1u8),
        };
        let value = sign * injection.value;
        let origin = injection.origin;
        let limit: [usize; 3] = [
            origin[0] + injection.extent[0],
            origin[1] + injection.extent[1],
            origin[2] + injection.extent[2],
        ];
        proof {
            assert(self.centers@[Axis::X.position()]@.len() == extent.x);
            assert(self.centers@[Axis::Y.position()]@.len() == extent.y);
            assert(self.centers@[Axis::Z.position()]@.len() == extent.z);
            assert forall|cell: Cell| extent.has(cell) && !injection.covers(cell) implies after[
                #[trigger] extent.slot(cell)
            ] == before[extent.slot(cell)] by {
                slot_in_range(extent, cell);
                cell_of_slot(extent, cell);
            }
        }
        let mut z: usize = origin[2];
        while z < limit[2]
            invariant
                self.valid(),
                extent == self.grid.extent,
                origin == injection.origin,
                injection.inside(extent),
                limit@[0] == origin@[0] + injection.extent@[0],
                limit@[1] == origin@[1] + injection.extent@[1],
                limit@[2] == origin@[2] + injection.extent@[2],
                target@.len() == extent.cells(),
                before.len() == extent.cells(),
                after == self.deposited(before, *injection, direction),
                value == times(sign_of::<V>(direction), injection.value),
                self.centers@[0]@.len() == extent.x,
                self.centers@[1]@.len() == extent.y,
                self.centers@[2]@.len() == extent.z,
                origin@[2] <= z <= limit@[2],
                forall|cell: Cell|
                    extent.has(cell) ==> target@[#[trigger] extent.slot(cell)] == (if passed(
                        cell,
                        origin@[0] as int,
                        origin@[1] as int,
                        z as int,
                    ) {
                        after[extent.slot(cell)]
                    } else {
                        before[extent.slot(cell)]
                    }),
            decreases limit@[2] - z,
        {
            let mut y: usize = origin[1];
            while y < limit[1]
                invariant
                    self.valid(),
                    extent == self.grid.extent,
                    origin == injection.origin,
                    injection.inside(extent),
                    limit@[0] == origin@[0] + injection.extent@[0],
                    limit@[1] == origin@[1] + injection.extent@[1],
                    limit@[2] == origin@[2] + injection.extent@[2],
                    target@.len() == extent.cells(),
                    before.len() == extent.cells(),
                    after == self.deposited(before, *injection, direction),
                    value == times(sign_of::<V>(direction), injection.value),
                    self.centers@[0]@.len() == extent.x,
                    self.centers@[1]@.len() == extent.y,
                    self.centers@[2]@.len() == extent.z,
                    origin@[2] <= z < limit@[2],
                    origin@[1] <= y <= limit@[1],
                    forall|cell: Cell|
                        extent.has(cell) ==> target@[#[trigger] extent.slot(cell)] == (if passed(
                            cell,
                            origin@[0] as int,
                            y as int,
                            z as int,
                        ) {
                            after[extent.slot(cell)]
                        } else {
                            before[extent.slot(cell)]
                        }),
                decreases limit@[1] - y,
            {
                let mut x: usize = origin[0];
                while x < limit[0]
                    invariant
                        self.valid(),
                        extent == self.grid.extent,
                        origin == injection.origin,
                        injection.inside(extent),
                        limit@[0] == origin@[0] + injection.extent@[0],
                        limit@[1] == origin@[1] + injection.extent@[1],
                        limit@[2] == origin@[2] + injection.extent@[2],
                        target@.len() == extent.cells(),
                        before.len() == extent.cells(),
                        after == self.deposited(before, *injection, direction),
                        value == times(sign_of::<V>(direction), injection.value),
                        self.centers@[0]@.len() == extent.x,
                        self.centers@[1]@.len() == extent.y,
                        self.centers@[2]@.len() == extent.z,
                        origin@[2] <= z < limit@[2],
                        origin@[1] <= y < limit@[1],
                        origin@[0] <= x <= limit@[0],
                        forall|cell: Cell|
                            extent.has(cell) ==> target@[#[trigger] extent.slot(cell)] == (
                            if passed(cell, x as int, y as int, z as int) {
                                after[extent.slot(cell)]
                            } else {
                                before[extent.slot(cell)]
                            }),
                    decreases limit@[0] - x,
                {
                    let ghost here = Cell { x: x as int, y: y as int, z: z as int };
                    let coord: [usize; 3] = [x, y, z];
                    proof {
                        slot_in_range(extent, here);
                        cell_of_slot(extent, here);
                        assert(cell_at(coord) == here);
                    }
                    let index: usize = self.grid.extent.index(coord);
                    let weight = injection.weight(
                        &self.math,
                        [self.centers[0][x], self.centers[1][y], self.centers[2][z]],
                    );
                    let sum = target[index] + value * weight;
                    assert(sum == after[index as int]);
                    let ghost earlier = target@;
                    target.set(index, sum);
                    proof {
                        assert forall|cell: Cell| extent.has(cell) implies target@[
                            #[trigger] extent.slot(cell)
                        ] == (if passed(cell, x + 1, y as int, z as int) {
                            after[extent.slot(cell)]
                        } else {
                            before[extent.slot(cell)]
                        }) by {
                            slot_in_range(extent, cell);
                            if cell != here {
                                if extent.slot(cell) == extent.slot(here) {
                                    slots_distinct(extent, cell, here);
                                }
                                assert(target@[extent.slot(cell)] == earlier[extent.slot(cell)]);
                            }
                        }
                    }
                    x = x + 1;
                }
                proof {
                    assert forall|cell: Cell| extent.has(cell) implies target@[
                        #[trigger] extent.slot(cell)
                    ] == (if passed(cell, origin@[0] as int, y + 1, z as int) {
                        after[extent.slot(cell)]
                    } else {
                        before[extent.slot(cell)]
                    }) by {
                        slot_in_range(extent, cell);
                        cell_of_slot(extent, cell);
                    }
                }
                y = y + 1;
            }
            proof {
                assert forall|cell: Cell| extent.has(cell) implies target@[
                    #[trigger] extent.slot(cell)
                ] == (if passed(cell, origin@[0] as int, origin@[1] as int, z + 1) {
                    after[extent.slot(cell)]
                } else {
                    before[extent.slot(cell)]
                }) by {
                    slot_in_range(extent, cell);
                    cell_of_slot(extent, cell);
                }
            }
            z = z + 1;
        }
        proof {
            assert forall|i: int| 0 <= i < extent.cells() implies target@[i] == after[i] by {
                let cell = extent.cell(i);
                slot_of_cell(extent, i);
                assert(extent.slot(cell) == i);
            }
            assert(target@ =~= after);
        }
    }
}

} // verus!
