//! Everything constant for a run, packed into one upload.
//!
//! One staging buffer and one transfer pass carry the material indices, the
//! coefficient table, the absorber profile, the axis geometry and the position
//! lookup to the device. Each section starts on an offset a storage buffer may be
//! bound at.

use vstd::prelude::*;

verus! {

/// Byte `k` of a word, least significant first.
pub open spec fn byte_of(word: u32, k: int) -> u8 {
    if k == 0 {
        (word % 0x100) as u8
    } else if k == 1 {
        ((word / 0x100) % 0x100) as u8
    } else if k == 2 {
        ((word / 0x1_0000) % 0x100) as u8
    } else {
        (word / 0x100_0000) as u8
    }
}

/// Words as a machine of one byte order or the other stores them.
pub open spec fn stored(words: Seq<u32>, little: bool) -> Seq<u8> {
    Seq::new(
        4 * words.len(),
        |i: int|
            byte_of(
                words[i / 4],
                if little {
                    i % 4
                } else {
                    3 - i % 4
                },
            ),
    )
}

/// Calls [`bytemuck::cast_slice`] from `u32` to `u8`: the same memory seen as
/// bytes, four to a word, in the byte order of the machine. Which order that is
/// is left open. The cast cannot fail, since bytes need no alignment and four of
/// them fill a word.
#[verifier::external_body]
fn as_bytes(words: &[u32]) -> (r: Vec<u8>)
    ensures
        exists|little: bool| r@ == #[trigger] stored(words@, little),
{
    bytemuck::cast_slice::<u32, u8>(words).to_vec()
}

/// Reads [`blade_graphics::limits::STORAGE_BUFFER_ALIGNMENT`], the offset a
/// storage buffer binding has to be a multiple of: 16 bytes.
#[verifier::external_body]
fn storage_alignment() -> (r: usize)
    ensures
        r == 16,
{
    blade_graphics::limits::STORAGE_BUFFER_ALIGNMENT as usize
}

/// Bytes between the end of a section and the next aligned offset.
pub open spec fn padding(len: int) -> int {
    if len % 16 == 0 {
        0
    } else {
        16 - len % 16
    }
}

/// Memory a list occupies, in bytes.
pub fn byte_size<T>(values: &[T]) -> (r: u64)
    requires
        values@.len() * vstd::layout::size_of::<T>() <= usize::MAX,
    ensures
        r == values@.len() * vstd::layout::size_of::<T>(),
{
    (values.len() * core::mem::size_of::<T>()) as u64
}

/// Appends `values` to a staging blob, padded so the next section starts on a
/// storage-buffer-aligned offset, and returns the offset it was written at.
pub fn append(blob: &mut Vec<u8>, values: &[u32]) -> (r: u64)
    requires
        old(blob)@.len() + 4 * values@.len() + 16 <= usize::MAX,
    ensures
        r == old(blob)@.len(),
        exists|little: bool|
            final(blob)@ == old(blob)@ + #[trigger] stored(values@, little) + Seq::new(
                padding((old(blob)@.len() + 4 * values@.len()) as int) as nat,
                |i: int| 0u8,
            ),
        final(blob)@.len() % 16 == 0,
{
    let ghost before = blob@;
    let alignment: usize = storage_alignment();
    let offset: usize = blob.len();
    let mut bytes: Vec<u8> = as_bytes(values);
    let ghost little = choose|little: bool| bytes@ == #[trigger] stored(values@, little);
    blob.append(&mut bytes);
    let ghost filled = blob@;
    assert(filled == before + stored(values@, little));
    let over: usize = blob.len() % alignment;
    let missing: usize = if over == 0 {
        0
    } else {
        alignment - over
    };
    let mut added: usize = 0;
    while added < missing
        invariant
            added <= missing,
            missing == padding(filled.len() as int),
            blob@ == filled + Seq::new(added as nat, |i: int| 0u8),
        decreases missing - added,
    {
        blob.push(0);
        added = added + 1;
        assert(blob@ =~= filled + Seq::new(added as nat, |i: int| 0u8));
    }
    offset as u64
}

/// A buffer of the run.
#[derive(Clone, Copy, Debug, Eq, PartialEq, Structural)]
pub enum Resource {
    Electric,
    Magnetic,
    MaterialIndex,
    Coefficients,
    Absorber,
    Geometry,
    /// World-to-cell lookup, for a renderer marching a graded grid.
    Lookup,
    /// Running `Σ|E|²` per cell.
    Intensity,
    /// Host-visible destination of every readback.
    Readback,
}

/// One section of the upload: where it starts in the blob, which buffer it goes
/// to, and how many bytes there are.
#[derive(Clone, Copy, Debug, Eq, PartialEq, Structural)]
pub struct Section {
    pub offset: u64,
    pub resource: Resource,
    pub bytes: u64,
}

/// The blob and the copies out of it.
#[derive(Debug)]
pub struct Upload {
    pub blob: Vec<u8>,
    pub sections: Vec<Section>,
}

impl Upload {
    /// Every section starts on an aligned offset, lies inside the blob, and
    /// ends before the next one starts.
    pub open spec fn valid(self) -> bool {
        &&& self.blob@.len() % 16 == 0
        &&& forall|k: int|
            0 <= k < self.sections@.len() ==> {
                &&& (#[trigger] self.sections@[k]).offset % 16 == 0
                &&& self.sections@[k].offset + self.sections@[k].bytes <= self.blob@.len()
            }
        &&& forall|j: int, k: int|
            0 <= j < k < self.sections@.len() ==> (#[trigger] self.sections@[j]).offset
                + self.sections@[j].bytes <= (#[trigger] self.sections@[k]).offset
    }

    /// The bytes of one section.
    pub open spec fn contents(self, k: int) -> Seq<u8> {
        self.blob@.subrange(
            self.sections@[k].offset as int,
            self.sections@[k].offset + self.sections@[k].bytes,
        )
    }

    pub fn new() -> (r: Self)
        ensures
            r.valid(),
            r.blob@.len() == 0,
            r.sections@.len() == 0,
    {
        Upload { blob: Vec::new(), sections: Vec::new() }
    }

    /// Adds a section, leaving the ones before it as they are.
    pub fn add(&mut self, resource: Resource, values: &[u32])
        requires
            old(self).valid(),
            old(self).blob@.len() + 4 * values@.len() + 16 <= usize::MAX,
        ensures
            final(self).valid(),
            final(self).sections@ == old(self).sections@.push(
                (Section {
                    offset: old(self).blob@.len() as u64,
                    resource,
                    bytes: (4 * values@.len()) as u64,
                }),
            ),
            final(self).blob@.len() == old(self).blob@.len() + 4 * values@.len() + padding(
                (old(self).blob@.len() + 4 * values@.len()) as int,
            ),
            forall|k: int|
                0 <= k < old(self).sections@.len() ==> #[trigger] final(self).contents(k)
                    == old(self).contents(k),
            exists|little: bool|
                final(self).contents(old(self).sections@.len() as int) == #[trigger] stored(
                    values@,
                    little,
                ),
    {
        let ghost before = *self;
        let offset: u64 = append(&mut self.blob, values);
        let ghost little = choose|little: bool|
            self.blob@ == before.blob@ + #[trigger] stored(values@, little) + Seq::new(
                padding((before.blob@.len() + 4 * values@.len()) as int) as nat,
                |i: int| 0u8,
            );
        let section = Section { offset, resource, bytes: (4 * values.len()) as u64 };
        self.sections.push(section);
        proof {
            let n = before.sections@.len() as int;
            assert(self.contents(n) =~= stored(values@, little));
            assert forall|k: int| 0 <= k < n implies #[trigger] self.contents(k)
                == before.contents(k) by {
                assert(self.sections@[k] == before.sections@[k]);
                assert(before.sections@[k].offset + before.sections@[k].bytes
                    <= before.blob@.len());
                assert(self.contents(k) =~= before.contents(k));
            }
            assert forall|j: int, k: int| 0 <= j < k < self.sections@.len() implies (
            #[trigger] self.sections@[j]).offset + self.sections@[j].bytes <= (
            #[trigger] self.sections@[k]).offset by {
                assert(self.sections@[j] == before.sections@[j]);
                if k < n {
                    assert(self.sections@[k] == before.sections@[k]);
                }
            }
            assert forall|k: int| 0 <= k < self.sections@.len() implies {
                &&& (#[trigger] self.sections@[k]).offset % 16 == 0
                &&& self.sections@[k].offset + self.sections@[k].bytes <= self.blob@.len()
            } by {
                if k < n {
                    assert(self.sections@[k] == before.sections@[k]);
                }
            }
        }
    }

    /// The whole upload of a scene, section by section.
    pub fn of_scene(
        indices: &[u32],
        coefficients: &[u32],
        absorption: &[u32],
        geometry: &[u32],
        lookup: &[u32],
    ) -> (r: Self)
        requires
            4 * (indices@.len() + coefficients@.len() + absorption@.len() + geometry@.len()
                + lookup@.len()) + 80 <= usize::MAX,
        ensures
            r.valid(),
            r.sections@.len() == 5,
            r.sections@[0].resource == Resource::MaterialIndex,
            r.sections@[0].bytes == 4 * indices@.len(),
            r.sections@[1].resource == Resource::Coefficients,
            r.sections@[1].bytes == 4 * coefficients@.len(),
            r.sections@[2].resource == Resource::Absorber,
            r.sections@[2].bytes == 4 * absorption@.len(),
            r.sections@[3].resource == Resource::Geometry,
            r.sections@[3].bytes == 4 * geometry@.len(),
            r.sections@[4].resource == Resource::Lookup,
            r.sections@[4].bytes == 4 * lookup@.len(),
            exists|little: bool| r.contents(0) == #[trigger] stored(indices@, little),
            exists|little: bool| r.contents(1) == #[trigger] stored(coefficients@, little),
            exists|little: bool| r.contents(2) == #[trigger] stored(absorption@, little),
            exists|little: bool| r.contents(3) == #[trigger] stored(geometry@, little),
            exists|little: bool| r.contents(4) == #[trigger] stored(lookup@, little),
    {
        let mut upload = Upload::new();
        upload.add(Resource::MaterialIndex, indices);
        let ghost first = upload;
        upload.add(Resource::Coefficients, coefficients);
        let ghost second = upload;
        assert(second.contents(0) == first.contents(0));
        upload.add(Resource::Absorber, absorption);
        let ghost third = upload;
        assert(third.contents(0) == second.contents(0));
        assert(third.contents(1) == second.contents(1));
        upload.add(Resource::Geometry, geometry);
        let ghost fourth = upload;
        assert(fourth.contents(0) == third.contents(0));
        assert(fourth.contents(1) == third.contents(1));
        assert(fourth.contents(2) == third.contents(2));
        upload.add(Resource::Lookup, lookup);
        assert(upload.contents(0) == fourth.contents(0));
        assert(upload.contents(1) == fourth.contents(1));
        assert(upload.contents(2) == fourth.contents(2));
        assert(upload.contents(3) == fourth.contents(3));
        upload
    }
}

} // verus!
