//! Typed positional access to a monitor's shared-memory region, validated
//! against the resolved layout.

use vstd::prelude::*;

verus! {

use vstd::string::StringSliceAdditionalSpecFns;
use crate::layout::{Field, ShmScalar, Struct, Type};
use crate::ports::{ShmError, ShmPort};
use crate::text;

/// The first field of the layout carrying `name`, searched in declaration
/// order.
pub open spec fn spec_find_field(fields: Seq<Field>, name: Seq<u8>) -> Option<Field>
    decreases fields.len(),
{
    if fields.len() == 0 {
        None
    } else if fields[0].name@ == name {
        Some(fields[0])
    } else {
        spec_find_field(fields.drop_first(), name)
    }
}

proof fn lemma_find_field_is(fields: Seq<Field>, name: Seq<u8>, i: int)
    requires
        0 <= i <= fields.len(),
        forall|j: int| 0 <= j < i ==> (#[trigger] fields[j]).name@ != name,
        i < fields.len() ==> fields[i].name@ == name,
    ensures
        spec_find_field(fields, name) == if i < fields.len() {
            Some(fields[i])
        } else {
            None::<Field>
        },
    decreases fields.len(),
{
    if fields.len() == 0 {
    } else if fields[0].name@ == name {
        assert(i == 0);
    } else {
        let t = fields.drop_first();
        assert forall|j: int| 0 <= j < i - 1 implies (#[trigger] t[j]).name@ != name by {
            assert(t[j] == fields[j + 1]);
        }
        if i - 1 < t.len() {
            assert(t[i - 1] == fields[i]);
        }
        lemma_find_field_is(t, name, i - 1);
    }
}

/// Index of the first field carrying `name`, if any.
pub fn find_field_index(layout: &Struct, name: &[u8]) -> (r: Option<usize>)
    ensures
        match r {
            Some(i) => i < layout.fields@.len() && spec_find_field(layout.fields@, name@)
                == Some(layout.fields@[i as int]),
            None => spec_find_field(layout.fields@, name@) is None,
        },
{
    let mut i: usize = 0;
    while i < layout.fields.len()
        invariant
            i <= layout.fields@.len(),
            forall|j: int| 0 <= j < i ==> (#[trigger] layout.fields@[j]).name@ != name@,
        decreases layout.fields@.len() - i,
    {
        if text::bytes_eq(layout.fields[i].name.as_slice(), name) {
            proof {
                lemma_find_field_is(layout.fields@, name@, i as int);
            }
            return Some(i);
        }
        i = i + 1;
    }
    proof {
        lemma_find_field_is(layout.fields@, name@, layout.fields@.len() as int);
    }
    None
}

/// Whether the layout's declared type for a field is exactly scalar `T`:
/// same size and same alignment. Typed access fails precisely when this
/// does not hold.
pub open spec fn spec_type_matches<T: ShmScalar>(t: Type) -> bool {
    t.size == T::spec_size() && t.alignment == T::spec_align()
}

/// A named field exists and its declared type is exactly scalar `T`.
pub open spec fn spec_field_is<T: ShmScalar>(layout: Struct, name: Seq<u8>) -> bool {
    spec_find_field(layout.fields@, name) is Some && spec_type_matches::<T>(
        spec_find_field(layout.fields@, name)->Some_0.typ,
    )
}

/// The resolved offset of a named field.
pub open spec fn spec_field_offset_of(layout: Struct, name: Seq<u8>) -> usize {
    spec_find_field(layout.fields@, name)->Some_0.offset
}

/// The declared size of a named field.
pub open spec fn spec_field_size_of(layout: Struct, name: Seq<u8>) -> usize {
    spec_find_field(layout.fields@, name)->Some_0.typ.size
}

/// `n` zero bytes.
pub open spec fn spec_zeros(n: int) -> Seq<u8> {
    Seq::new(n as nat, |i: int| 0u8)
}

/// A string payload as it is written into a byte-array field: truncated to
/// the field's capacity less one, with a single zero terminator.
pub open spec fn spec_cstr(s: Seq<u8>, cap: int) -> Seq<u8> {
    if s.len() + 1 <= cap {
        s.push(0)
    } else {
        s.take(cap - 1).push(0)
    }
}

/// The typed window onto one monitor's shared region: every access is
/// validated against the resolved layout before it touches the port.
pub struct MonitorShm<P: ShmPort> {
    pub port: P,
    pub layout: Struct,
    /// The host's own size of its video-store struct, read from the region.
    pub videostore_size: u32,
}

impl<P: ShmPort> MonitorShm<P> {
    /// The positional writes this window has issued.
    pub open spec fn writes(&self) -> Seq<(usize, Seq<u8>)> {
        self.port.writes()
    }

    /// Layout and the cached video-store size never change after
    /// construction.
    pub open spec fn same_frame(&self, other: &Self) -> bool {
        self.layout == other.layout && self.videostore_size == other.videostore_size
    }

    /// Open the window and read the host's video-store struct size, which
    /// the descriptor does not declare but the region holds.
    pub fn new(port: P, layout: Struct) -> (r: Result<MonitorShm<P>, ShmError>)
        requires
            spec_field_is::<u32>(layout, "VideoStoreData::size".spec_bytes()),
        ensures
            r is Ok ==> r->Ok_0.layout == layout && r->Ok_0.port.writes() == port.writes(),
    {
        let mut shm = MonitorShm { port, layout, videostore_size: 0 };
        let vss = match shm.read_field::<u32>("VideoStoreData::size") {
            Ok(v) => v,
            Err(e) => {
                return Err(e);
            },
        };
        shm.videostore_size = vss;
        Ok(shm)
    }

    /// Locate a field by name. The layout is resolved once at start, so a
    /// missing field is a programming error: callers name only fields the
    /// well-formedness check has seen.
    pub fn lookup_field<'a>(&'a self, name: &str) -> (r: &'a Field)
        requires
            spec_find_field(self.layout.fields@, name.spec_bytes()) is Some,
        ensures
            Some(*r) == spec_find_field(self.layout.fields@, name.spec_bytes()),
    {
        let i = find_field_index(&self.layout, name.as_bytes()).unwrap();
        &self.layout.fields[i]
    }

    /// Whether the layout's declared `(size, alignment)` for this field is
    /// exactly that of scalar `T`.
    pub fn typecheck<T: ShmScalar>(&self, field: &Field) -> (r: bool)
        ensures
            r == spec_type_matches::<T>(field.typ),
    {
        field.typ.size == T::exec_size() && field.typ.alignment == T::exec_align()
    }

    /// Read one scalar field. The publisher races the read, so nothing can
    /// be promised of the value; the access itself is at the resolved
    /// offset with the checked size, and the value returned for whatever
    /// bytes came back is fixed by `ShmScalar::from_le_bytes` — the exact
    /// little-endian decoding, unique by `lemma_le_bytes_injective`.
    pub fn read_field<T: ShmScalar>(&mut self, name: &str) -> (r: Result<T, ShmError>)
        requires
            spec_field_is::<T>(old(self).layout, name.spec_bytes()),
        ensures
            final(self).same_frame(old(self)),
            final(self).writes() == old(self).writes(),
    {
        let field = find_field_index(&self.layout, name.as_bytes()).unwrap();
        let offset = self.layout.fields[field].offset;
        let bytes = match self.port.read_at(offset, T::exec_size()) {
            Ok(b) => b,
            Err(e) => {
                return Err(e);
            },
        };
        Ok(T::from_le_bytes(bytes.as_slice()))
    }

    /// Write one scalar field at its resolved offset.
    pub fn write_field<T: ShmScalar>(&mut self, name: &str, value: &T) -> (r: Result<
        (),
        ShmError,
    >)
        requires
            spec_field_is::<T>(old(self).layout, name.spec_bytes()),
        ensures
            final(self).same_frame(old(self)),
            r is Ok ==> final(self).writes() == old(self).writes().push(
                (
                    spec_field_offset_of(old(self).layout, name.spec_bytes()),
                    value.as_le_bytes(),
                ),
            ),
            r is Err ==> final(self).writes() == old(self).writes(),
    {
        let field = find_field_index(&self.layout, name.as_bytes()).unwrap();
        let offset = self.layout.fields[field].offset;
        let bytes = value.to_le_bytes();
        self.port.write_at(offset, bytes.as_slice())
    }

    /// Write `payload` into a byte-array field followed by one zero
    /// terminator; bytes past the terminator are left untouched.
    pub fn write_cstr(&mut self, name: &str, payload: &[u8]) -> (r: Result<(), ShmError>)
        requires
            spec_find_field(old(self).layout.fields@, name.spec_bytes()) is Some,
            payload@.len() + 1 <= spec_field_size_of(old(self).layout, name.spec_bytes()),
        ensures
            final(self).same_frame(old(self)),
            r is Ok ==> final(self).writes() == old(self).writes().push(
                (
                    spec_field_offset_of(old(self).layout, name.spec_bytes()),
                    payload@.push(0),
                ),
            ),
            r is Err ==> final(self).writes() == old(self).writes(),
    {
        let field = find_field_index(&self.layout, name.as_bytes()).unwrap();
        let offset = self.layout.fields[field].offset;
        let mut buf = vstd::slice::slice_to_vec(payload);
        buf.push(0);
        self.port.write_at(offset, buf.as_slice())
    }

    /// Write a string value as §`write_cstr` does. The field must have room
    /// for the string and its terminator.
    pub fn write_string(&mut self, name: &str, value: &str) -> (r: Result<(), ShmError>)
        requires
            spec_find_field(old(self).layout.fields@, name.spec_bytes()) is Some,
            value.spec_bytes().len() + 1 <= spec_field_size_of(
                old(self).layout,
                name.spec_bytes(),
            ),
        ensures
            final(self).same_frame(old(self)),
            r is Ok ==> final(self).writes() == old(self).writes().push(
                (
                    spec_field_offset_of(old(self).layout, name.spec_bytes()),
                    value.spec_bytes().push(0),
                ),
            ),
            r is Err ==> final(self).writes() == old(self).writes(),
    {
        self.write_cstr(name, value.as_bytes())
    }

    /// Overwrite a whole field with zeros.
    pub fn write_zeros(&mut self, name: &str) -> (r: Result<(), ShmError>)
        requires
            spec_find_field(old(self).layout.fields@, name.spec_bytes()) is Some,
        ensures
            final(self).same_frame(old(self)),
            r is Ok ==> final(self).writes() == old(self).writes().push(
                (
                    spec_field_offset_of(old(self).layout, name.spec_bytes()),
                    spec_zeros(spec_field_size_of(old(self).layout, name.spec_bytes()) as int),
                ),
            ),
            r is Err ==> final(self).writes() == old(self).writes(),
    {
        let field = find_field_index(&self.layout, name.as_bytes()).unwrap();
        let offset = self.layout.fields[field].offset;
        let size = self.layout.fields[field].typ.size;
        let mut buf: Vec<u8> = Vec::new();
        while buf.len() < size
            invariant
                buf@.len() <= size,
                buf@ == spec_zeros(buf@.len() as int),
        decreases size - buf@.len(),
        {
            buf.push(0);
            proof {
                assert(buf@ =~= spec_zeros(buf@.len() as int));
            }
        }
        self.port.write_at(offset, buf.as_slice())
    }
}

} // verus!
