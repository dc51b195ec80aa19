//! The host's shared-memory layout: scalar types, field offsets, and the
//! parser for the host-shipped layout descriptor.

use vstd::prelude::*;

verus! {

use crate::text;
use vstd::string::StringSliceAdditionalSpecFns;

/// A scalar that can live in the shared region: it has a fixed size and
/// alignment and a little-endian byte image.
pub trait ShmScalar: Sized {
    spec fn spec_size() -> nat;

    spec fn spec_align() -> nat;

    /// The little-endian bytes of the value; always `spec_size()` long.
    spec fn as_le_bytes(&self) -> Seq<u8>;

    proof fn lemma_le_bytes_len(&self)
        ensures
            self.as_le_bytes().len() == Self::spec_size(),
    ;

    proof fn lemma_le_bytes_injective(a: Self, b: Self)
        requires
            a.as_le_bytes() == b.as_le_bytes(),
        ensures
            a == b,
    ;

    fn exec_size() -> (r: usize)
        ensures
            r == Self::spec_size(),
    ;

    fn exec_align() -> (r: usize)
        ensures
            r == Self::spec_align(),
    ;

    fn to_le_bytes(&self) -> (r: Vec<u8>)
        ensures
            r@ == self.as_le_bytes(),
    ;

    fn from_le_bytes(b: &[u8]) -> (r: Self)
        requires
            b@.len() == Self::spec_size(),
        ensures
            r.as_le_bytes() == b@,
    ;
}

impl ShmScalar for u8 {
    open spec fn spec_size() -> nat {
        1
    }

    open spec fn spec_align() -> nat {
        1
    }

    open spec fn as_le_bytes(&self) -> Seq<u8> {
        seq![*self]
    }

    proof fn lemma_le_bytes_len(&self) {
    }

    proof fn lemma_le_bytes_injective(a: Self, b: Self) {
        assert(a.as_le_bytes()[0] == a);
        assert(b.as_le_bytes()[0] == b);
    }

    fn exec_size() -> usize {
        1
    }

    fn exec_align() -> usize {
        1
    }

    fn to_le_bytes(&self) -> (r: Vec<u8>) {
        let mut r: Vec<u8> = Vec::new();
        r.push(*self);
        proof {
            assert(r@ =~= self.as_le_bytes());
        }
        r
    }

    fn from_le_bytes(b: &[u8]) -> (r: Self) {
        let r = b[0];
        proof {
            assert(r.as_le_bytes() =~= b@);
        }
        r
    }
}

impl ShmScalar for u32 {
    open spec fn spec_size() -> nat {
        4
    }

    open spec fn spec_align() -> nat {
        4
    }

    open spec fn as_le_bytes(&self) -> Seq<u8> {
        seq![
            (*self & 0xff) as u8,
            ((*self >> 8) & 0xff) as u8,
            ((*self >> 16) & 0xff) as u8,
            ((*self >> 24) & 0xff) as u8,
        ]
    }

    proof fn lemma_le_bytes_len(&self) {
    }

    proof fn lemma_le_bytes_injective(a: Self, b: Self) {
        assert(a.as_le_bytes()[0] == b.as_le_bytes()[0]);
        assert(a.as_le_bytes()[1] == b.as_le_bytes()[1]);
        assert(a.as_le_bytes()[2] == b.as_le_bytes()[2]);
        assert(a.as_le_bytes()[3] == b.as_le_bytes()[3]);
        assert(a == b) by (bit_vector)
            requires
                (a & 0xff) as u8 == (b & 0xff) as u8,
                ((a >> 8) & 0xff) as u8 == ((b >> 8) & 0xff) as u8,
                ((a >> 16) & 0xff) as u8 == ((b >> 16) & 0xff) as u8,
                ((a >> 24) & 0xff) as u8 == ((b >> 24) & 0xff) as u8,
        ;
    }

    fn exec_size() -> usize {
        4
    }

    fn exec_align() -> usize {
        4
    }

    fn to_le_bytes(&self) -> (r: Vec<u8>) {
        let v = *self;
        let mut r: Vec<u8> = Vec::new();
        r.push((v & 0xff) as u8);
        r.push(((v >> 8) & 0xff) as u8);
        r.push(((v >> 16) & 0xff) as u8);
        r.push(((v >> 24) & 0xff) as u8);
        proof {
            assert(r@ =~= v.as_le_bytes());
        }
        r
    }

    fn from_le_bytes(b: &[u8]) -> (r: Self) {
        let r: u32 = (b[0] as u32) | ((b[1] as u32) << 8) | ((b[2] as u32) << 16) | ((b[3]
            as u32) << 24);
        proof {
            let b0 = b@[0];
            let b1 = b@[1];
            let b2 = b@[2];
            let b3 = b@[3];
            assert((r & 0xff) as u8 == b0 && ((r >> 8) & 0xff) as u8 == b1 && ((r >> 16)
                & 0xff) as u8 == b2 && ((r >> 24) & 0xff) as u8 == b3) by (bit_vector)
                requires
                    r == (b0 as u32) | ((b1 as u32) << 8) | ((b2 as u32) << 16) | ((b3
                        as u32) << 24),
            ;
            assert(r.as_le_bytes() =~= b@);
        }
        r
    }
}

impl ShmScalar for i32 {
    open spec fn spec_size() -> nat {
        4
    }

    open spec fn spec_align() -> nat {
        4
    }

    open spec fn as_le_bytes(&self) -> Seq<u8> {
        (*self as u32).as_le_bytes()
    }

    proof fn lemma_le_bytes_len(&self) {
    }

    proof fn lemma_le_bytes_injective(a: Self, b: Self) {
        u32::lemma_le_bytes_injective(a as u32, b as u32);
        assert(a as u32 == b as u32 ==> a == b) by (bit_vector);
    }

    fn exec_size() -> usize {
        4
    }

    fn exec_align() -> usize {
        4
    }

    fn to_le_bytes(&self) -> (r: Vec<u8>) {
        ShmScalar::to_le_bytes(&(*self as u32))
    }

    fn from_le_bytes(b: &[u8]) -> (r: Self) {
        let u = <u32 as ShmScalar>::from_le_bytes(b);
        let r = #[verifier::truncate] (u as i32);
        proof {
            assert(u as i32 as u32 == u) by (bit_vector);
        }
        r
    }
}

impl ShmScalar for u64 {
    open spec fn spec_size() -> nat {
        8
    }

    open spec fn spec_align() -> nat {
        8
    }

    open spec fn as_le_bytes(&self) -> Seq<u8> {
        seq![
            (*self & 0xff) as u8,
            ((*self >> 8) & 0xff) as u8,
            ((*self >> 16) & 0xff) as u8,
            ((*self >> 24) & 0xff) as u8,
            ((*self >> 32) & 0xff) as u8,
            ((*self >> 40) & 0xff) as u8,
            ((*self >> 48) & 0xff) as u8,
            ((*self >> 56) & 0xff) as u8,
        ]
    }

    proof fn lemma_le_bytes_len(&self) {
    }

    proof fn lemma_le_bytes_injective(a: Self, b: Self) {
        assert forall|i: int| 0 <= i < 8 implies a.as_le_bytes()[i] == b.as_le_bytes()[i] by {
        }
        assert(a == b) by (bit_vector)
            requires
                (a & 0xff) as u8 == (b & 0xff) as u8,
                ((a >> 8) & 0xff) as u8 == ((b >> 8) & 0xff) as u8,
                ((a >> 16) & 0xff) as u8 == ((b >> 16) & 0xff) as u8,
                ((a >> 24) & 0xff) as u8 == ((b >> 24) & 0xff) as u8,
                ((a >> 32) & 0xff) as u8 == ((b >> 32) & 0xff) as u8,
                ((a >> 40) & 0xff) as u8 == ((b >> 40) & 0xff) as u8,
                ((a >> 48) & 0xff) as u8 == ((b >> 48) & 0xff) as u8,
                ((a >> 56) & 0xff) as u8 == ((b >> 56) & 0xff) as u8,
        ;
    }

    fn exec_size() -> usize {
        8
    }

    fn exec_align() -> usize {
        8
    }

    fn to_le_bytes(&self) -> (r: Vec<u8>) {
        let v = *self;
        let mut r: Vec<u8> = Vec::new();
        r.push((v & 0xff) as u8);
        r.push(((v >> 8) & 0xff) as u8);
        r.push(((v >> 16) & 0xff) as u8);
        r.push(((v >> 24) & 0xff) as u8);
        r.push(((v >> 32) & 0xff) as u8);
        r.push(((v >> 40) & 0xff) as u8);
        r.push(((v >> 48) & 0xff) as u8);
        r.push(((v >> 56) & 0xff) as u8);
        proof {
            assert(r@ =~= v.as_le_bytes());
        }
        r
    }

    fn from_le_bytes(b: &[u8]) -> (r: Self) {
        let r: u64 = (b[0] as u64) | ((b[1] as u64) << 8) | ((b[2] as u64) << 16) | ((b[3]
            as u64) << 24) | ((b[4] as u64) << 32) | ((b[5] as u64) << 40) | ((b[6] as u64)
            << 48) | ((b[7] as u64) << 56);
        proof {
            let b0 = b@[0];
            let b1 = b@[1];
            let b2 = b@[2];
            let b3 = b@[3];
            let b4 = b@[4];
            let b5 = b@[5];
            let b6 = b@[6];
            let b7 = b@[7];
            assert((r & 0xff) as u8 == b0 && ((r >> 8) & 0xff) as u8 == b1 && ((r >> 16)
                & 0xff) as u8 == b2 && ((r >> 24) & 0xff) as u8 == b3 && ((r >> 32) & 0xff)
                as u8 == b4 && ((r >> 40) & 0xff) as u8 == b5 && ((r >> 48) & 0xff) as u8
                == b6 && ((r >> 56) & 0xff) as u8 == b7) by (bit_vector)
                requires
                    r == (b0 as u64) | ((b1 as u64) << 8) | ((b2 as u64) << 16) | ((b3
                        as u64) << 24) | ((b4 as u64) << 32) | ((b5 as u64) << 40) | ((b6
                        as u64) << 48) | ((b7 as u64) << 56),
            ;
            assert(r.as_le_bytes() =~= b@);
        }
        r
    }
}

impl ShmScalar for i64 {
    open spec fn spec_size() -> nat {
        8
    }

    open spec fn spec_align() -> nat {
        8
    }

    open spec fn as_le_bytes(&self) -> Seq<u8> {
        (*self as u64).as_le_bytes()
    }

    proof fn lemma_le_bytes_len(&self) {
    }

    proof fn lemma_le_bytes_injective(a: Self, b: Self) {
        u64::lemma_le_bytes_injective(a as u64, b as u64);
        assert(a as u64 == b as u64 ==> a == b) by (bit_vector);
    }

    fn exec_size() -> usize {
        8
    }

    fn exec_align() -> usize {
        8
    }

    fn to_le_bytes(&self) -> (r: Vec<u8>) {
        ShmScalar::to_le_bytes(&(*self as u64))
    }

    fn from_le_bytes(b: &[u8]) -> (r: Self) {
        let u = <u64 as ShmScalar>::from_le_bytes(b);
        let r = #[verifier::truncate] (u as i64);
        proof {
            assert(u as i64 as u64 == u) by (bit_vector);
        }
        r
    }
}

impl ShmScalar for i8 {
    open spec fn spec_size() -> nat {
        1
    }

    open spec fn spec_align() -> nat {
        1
    }

    open spec fn as_le_bytes(&self) -> Seq<u8> {
        seq![*self as u8]
    }

    proof fn lemma_le_bytes_len(&self) {
    }

    proof fn lemma_le_bytes_injective(a: Self, b: Self) {
        assert(a.as_le_bytes()[0] == a as u8);
        assert(b.as_le_bytes()[0] == b as u8);
        assert(a as u8 == b as u8 ==> a == b) by (bit_vector);
    }

    fn exec_size() -> usize {
        1
    }

    fn exec_align() -> usize {
        1
    }

    fn to_le_bytes(&self) -> (r: Vec<u8>) {
        let mut r: Vec<u8> = Vec::new();
        r.push(*self as u8);
        proof {
            assert(r@ =~= self.as_le_bytes());
        }
        r
    }

    fn from_le_bytes(b: &[u8]) -> (r: Self) {
        let r = #[verifier::truncate] (b[0] as i8);
        proof {
            let b0 = b@[0];
            assert(b0 as i8 as u8 == b0) by (bit_vector);
            assert(r.as_le_bytes() =~= b@);
        }
        r
    }
}

/// `offset` rounded up to the next multiple of `alignment`.
pub open spec fn spec_align_to(offset: int, alignment: int) -> int
    recommends
        alignment >= 1,
{
    if offset % alignment == 0 {
        offset
    } else {
        offset + alignment - offset % alignment
    }
}

/// Round `offset` up to the next multiple of `alignment`.
pub fn align_to(offset: usize, alignment: usize) -> (r: usize)
    requires
        alignment >= 1,
        offset + alignment <= usize::MAX,
    ensures
        r == spec_align_to(offset as int, alignment as int),
{
    if offset % alignment == 0 {
        offset
    } else {
        offset + (alignment - offset % alignment)
    }
}

/// Alignment facts callers need: the rounded offset is aligned, does not
/// shrink, and grows by less than one alignment unit.
pub proof fn lemma_align_to_properties(offset: int, alignment: int)
    requires
        alignment >= 1,
        offset >= 0,
    ensures
        spec_align_to(offset, alignment) % alignment == 0,
        spec_align_to(offset, alignment) >= offset,
        spec_align_to(offset, alignment) < offset + alignment,
{
    if offset % alignment != 0 {
        let r = offset + alignment - offset % alignment;
        vstd::arithmetic::div_mod::lemma_fundamental_div_mod(offset, alignment);
        assert(r == (offset / alignment + 1) * alignment) by (nonlinear_arith)
            requires
                offset == alignment * (offset / alignment) + offset % alignment,
                r == offset + alignment - offset % alignment,
        ;
        vstd::arithmetic::div_mod::lemma_mod_multiples_basic(
            offset / alignment + 1,
            alignment,
        );
        assert(offset % alignment < alignment) by {
            vstd::arithmetic::div_mod::lemma_mod_bound(offset, alignment);
        };
    }
}

/// Failures of the descriptor parser and the offset calculator.
#[derive(Clone, Copy, Debug, PartialEq, Eq, Structural)]
pub enum LayoutError {
    /// A scalar token the reader does not know; a code update is required.
    UnknownScalar,
    /// An array suffix that is not `[<decimal>]`, or a size that overflows.
    BadArraySize,
    /// A line that does not parse as a field definition.
    BadFieldLine,
    /// A line that does not parse as a struct definition.
    BadStructLine,
    /// The descriptor holds no layout block.
    MissingBlock,
    /// The layout block ended inside a struct definition.
    UnexpectedEnd,
    /// A field offset does not fit the address space.
    Overflow,
}

/// Size and alignment of one field as the descriptor declares it.
#[derive(Clone, Copy, Debug, PartialEq, Eq, Structural)]
pub struct Type {
    pub size: usize,
    pub alignment: usize,
}

impl Type {
    /// The layout type of one scalar `T`.
    pub fn new<T: ShmScalar>() -> (r: Type)
        ensures
            r.size == T::spec_size(),
            r.alignment == T::spec_align(),
    {
        Type { size: T::exec_size(), alignment: T::exec_align() }
    }

    /// The layout type of an array of `num_elements` copies of `self`.
    pub fn array_of(&self, num_elements: usize) -> (r: Type)
        requires
            self.size * num_elements <= usize::MAX,
        ensures
            r.size == self.size * num_elements,
            r.alignment == self.alignment,
    {
        Type { size: self.size * num_elements, alignment: self.alignment }
    }
}

/// The size and alignment a scalar token of the descriptor denotes. The
/// host's `time_t64` token pins the 64-bit time layout.
pub open spec fn spec_scalar_type(s: Seq<u8>) -> Option<Type> {
    if s == "uint8".spec_bytes() || s == "int8".spec_bytes() {
        Some(Type { size: 1, alignment: 1 })
    } else if s == "uint32".spec_bytes() || s == "int32".spec_bytes()
        || s == "float".spec_bytes() {
        Some(Type { size: 4, alignment: 4 })
    } else if s == "uint64".spec_bytes() || s == "int64".spec_bytes()
        || s == "double".spec_bytes() || s == "time_t64".spec_bytes() {
        Some(Type { size: 8, alignment: 8 })
    } else {
        None
    }
}

fn parse_basic_typename(b: &[u8]) -> (r: Result<Type, LayoutError>)
    ensures
        match spec_scalar_type(b@) {
            Some(ty) => r == Ok::<Type, LayoutError>(ty),
            None => r == Err::<Type, LayoutError>(LayoutError::UnknownScalar),
        },
{
    if text::bytes_eq(b, "uint8".as_bytes()) || text::bytes_eq(b, "int8".as_bytes()) {
        Ok(Type { size: 1, alignment: 1 })
    } else if text::bytes_eq(b, "uint32".as_bytes()) || text::bytes_eq(
        b,
        "int32".as_bytes(),
    ) || text::bytes_eq(b, "float".as_bytes()) {
        Ok(Type { size: 4, alignment: 4 })
    } else if text::bytes_eq(b, "uint64".as_bytes()) || text::bytes_eq(
        b,
        "int64".as_bytes(),
    ) || text::bytes_eq(b, "double".as_bytes()) || text::bytes_eq(
        b,
        "time_t64".as_bytes(),
    ) {
        Ok(Type { size: 8, alignment: 8 })
    } else {
        Err(LayoutError::UnknownScalar)
    }
}

/// The type a full token denotes: a scalar, or `scalar[count]`.
pub open spec fn spec_parse_typename(s: Seq<u8>) -> Option<Type> {
    match text::spec_split_once(s, 91) {
        None => spec_scalar_type(s),
        Some((base, rest)) => match spec_scalar_type(base) {
            None => None,
            Some(elem) => if rest.len() >= 1 && rest.last() == 93 {
                match text::spec_parse_u64(rest.drop_last()) {
                    Some(n) => if n <= usize::MAX && elem.size * n <= usize::MAX {
                        Some(
                            Type {
                                size: (elem.size * n) as usize,
                                alignment: elem.alignment,
                            },
                        )
                    } else {
                        None
                    },
                    None => None,
                }
            } else {
                None
            },
        },
    }
}

/// Every type the descriptor can denote has a positive, small alignment.
pub proof fn lemma_parse_typename_wf(s: Seq<u8>)
    ensures
        spec_parse_typename(s) is Some ==> 1 <= spec_parse_typename(s)->Some_0.alignment
            <= 8,
{
}

fn parse_typename_bytes(b: &[u8]) -> (r: Result<Type, LayoutError>)
    ensures
        match spec_parse_typename(b@) {
            Some(ty) => r == Ok::<Type, LayoutError>(ty),
            None => r is Err,
        },
{
    match text::split_once(b, 91) {
        None => parse_basic_typename(b),
        Some((base, rest)) => {
            let elem = match parse_basic_typename(base) {
                Ok(t) => t,
                Err(e) => {
                    return Err(e);
                },
            };
            if rest.len() == 0 || rest[rest.len() - 1] != 93 {
                return Err(LayoutError::BadArraySize);
            }
            let digits = vstd::slice::slice_subrange(rest, 0, rest.len() - 1);
            proof {
                assert(digits@ =~= rest@.drop_last());
            }
            let n64 = match text::parse_u64(digits) {
                Some(n) => n,
                None => {
                    return Err(LayoutError::BadArraySize);
                },
            };
            if n64 > usize::MAX as u64 {
                return Err(LayoutError::BadArraySize);
            }
            let n = n64 as usize;
            match elem.size.checked_mul(n) {
                Some(sz) => Ok(Type { size: sz, alignment: elem.alignment }),
                None => Err(LayoutError::BadArraySize),
            }
        },
    }
}

/// Parse a type token such as `uint32` or `int8[32]`.
pub fn parse_typename(typename: &str) -> (r: Result<Type, LayoutError>)
    ensures
        match spec_parse_typename(typename.spec_bytes()) {
            Some(ty) => r == Ok::<Type, LayoutError>(ty),
            None => r is Err,
        },
{
    parse_typename_bytes(typename.as_bytes())
}

/// A field as declared: name and type, no offset yet.
#[derive(Debug, Clone, PartialEq, Eq)]
pub struct ParsedField {
    pub name: Vec<u8>,
    pub typ: Type,
}

/// A field-definition line: leading word, whitespace, `=> { type=>'`, then
/// the type token.
pub open spec fn spec_parse_field_line(line: Seq<u8>) -> Option<(Seq<u8>, Seq<u8>)> {
    let t = text::spec_trim_start(line);
    let k1 = text::run_len(text::ByteClass::Word, t);
    if k1 < 1 {
        None
    } else {
        let r1 = t.skip(k1);
        let k2 = text::run_len(text::ByteClass::Space, r1);
        if k2 < 1 {
            None
        } else {
            let r2 = r1.skip(k2);
            let intro = "=> { type=>'".spec_bytes();
            if r2.len() >= intro.len() && r2.take(intro.len() as int) == intro {
                let r3 = r2.skip(intro.len() as int);
                let k3 = text::run_len(text::ByteClass::LowerToken, r3);
                if k3 < 1 {
                    None
                } else {
                    Some((t.take(k1), r3.take(k3)))
                }
            } else {
                None
            }
        }
    }
}

/// Parse one field-definition line of the descriptor.
pub fn parse_field_definition(line: &str) -> (r: Result<ParsedField, LayoutError>)
    ensures
        match spec_parse_field_line(line.spec_bytes()) {
            None => r == Err::<ParsedField, LayoutError>(LayoutError::BadFieldLine),
            Some((n, tok)) => match spec_parse_typename(tok) {
                Some(ty) => r is Ok && r->Ok_0.name@ == n && r->Ok_0.typ == ty,
                None => r is Err,
            },
        },
{
    parse_field_def_bytes(line.as_bytes())
}

fn parse_field_def_bytes(lineb: &[u8]) -> (r: Result<ParsedField, LayoutError>)
    ensures
        match spec_parse_field_line(lineb@) {
            None => r == Err::<ParsedField, LayoutError>(LayoutError::BadFieldLine),
            Some((n, tok)) => match spec_parse_typename(tok) {
                Some(ty) => r is Ok && r->Ok_0.name@ == n && r->Ok_0.typ == ty,
                None => r is Err,
            },
        },
{
    let tb = text::trim_start(lineb);
    let tb_len: usize = tb.len();
    proof {
        assert(tb@.skip(0) =~= tb@);
    }
    let k1 = text::take_run(text::ByteClass::Word, tb, 0);
    if k1 == 0 {
        return Err(LayoutError::BadFieldLine);
    }
    let k2 = text::take_run(text::ByteClass::Space, tb, k1);
    if k2 == 0 {
        return Err(LayoutError::BadFieldLine);
    }
    let pos = k1 + k2;
    proof {
        assert(tb@.skip(k1 as int).skip(k2 as int) =~= tb@.skip(pos as int));
    }
    let intro = "=> { type=>'".as_bytes();
    let after = vstd::slice::slice_subrange(tb, pos, tb.len());
    proof {
        assert(after@ =~= tb@.skip(pos as int));
    }
    if !text::starts_with_bytes(after, intro) {
        return Err(LayoutError::BadFieldLine);
    }
    let pos2 = pos + intro.len();
    proof {
        assert(after@.skip(intro@.len() as int) =~= tb@.skip(pos2 as int));
    }
    let k3 = text::take_run(text::ByteClass::LowerToken, tb, pos2);
    if k3 == 0 {
        return Err(LayoutError::BadFieldLine);
    }
    let name = vstd::slice::slice_to_vec(vstd::slice::slice_subrange(tb, 0, k1));
    let token = vstd::slice::slice_subrange(tb, pos2, pos2 + k3);
    proof {
        assert(name@ =~= tb@.take(k1 as int));
        assert(token@ =~= tb@.skip(pos2 as int).take(k3 as int));
    }
    let typ = match parse_typename_bytes(token) {
        Ok(t) => t,
        Err(e) => {
            return Err(e);
        },
    };
    Ok(ParsedField { name, typ })
}

/// A struct-definition line: word, whitespace, `=> { type=>'`, the struct
/// name, `', seq=>$mem_seq++, `, then `contents`, possibly quoted. Yields
/// the struct name.
pub open spec fn spec_parse_struct_line(line: Seq<u8>) -> Option<Seq<u8>> {
    let t = text::spec_trim_start(line);
    let k1 = text::run_len(text::ByteClass::Word, t);
    if k1 < 1 {
        None
    } else {
        let r1 = t.skip(k1);
        let k2 = text::run_len(text::ByteClass::Space, r1);
        if k2 < 1 {
            None
        } else {
            let r2 = r1.skip(k2);
            let intro = "=> { type=>'".spec_bytes();
            if r2.len() >= intro.len() && r2.take(intro.len() as int) == intro {
                let r3 = r2.skip(intro.len() as int);
                let k3 = text::run_len(text::ByteClass::Word, r3);
                if k3 < 1 {
                    None
                } else {
                    let name = r3.take(k3);
                    let r4 = r3.skip(k3);
                    let mid = "', seq=>$mem_seq++, ".spec_bytes();
                    if r4.len() >= mid.len() && r4.take(mid.len() as int) == mid {
                        let r5 = r4.skip(mid.len() as int);
                        let r6 = if r5.len() >= 1 && r5[0] == 39 {
                            r5.skip(1)
                        } else {
                            r5
                        };
                        let c = "contents".spec_bytes();
                        if r6.len() >= c.len() && r6.take(c.len() as int) == c {
                            Some(name)
                        } else {
                            None
                        }
                    } else {
                        None
                    }
                }
            } else {
                None
            }
        }
    }
}

/// Whether the line is the `end =>` marker closing the layout block.
pub open spec fn spec_line_is_end(line: Seq<u8>) -> bool {
    let t = text::spec_trim_start(line);
    let p = "end =>".spec_bytes();
    t.len() >= p.len() && t.take(p.len() as int) == p
}

fn parse_struct_line(line: &[u8]) -> (r: Option<Vec<u8>>)
    ensures
        match r {
            Some(n) => spec_parse_struct_line(line@) == Some(n@),
            None => spec_parse_struct_line(line@) is None,
        },
{
    let tb = text::trim_start(line);
    let tb_len: usize = tb.len();
    proof {
        assert(tb@.skip(0) =~= tb@);
    }
    let k1 = text::take_run(text::ByteClass::Word, tb, 0);
    if k1 == 0 {
        return None;
    }
    let k2 = text::take_run(text::ByteClass::Space, tb, k1);
    if k2 == 0 {
        return None;
    }
    let pos = k1 + k2;
    proof {
        assert(tb@.skip(k1 as int).skip(k2 as int) =~= tb@.skip(pos as int));
    }
    let intro = "=> { type=>'".as_bytes();
    let after = vstd::slice::slice_subrange(tb, pos, tb_len);
    proof {
        assert(after@ =~= tb@.skip(pos as int));
    }
    if !text::starts_with_bytes(after, intro) {
        return None;
    }
    let pos2 = pos + intro.len();
    proof {
        assert(after@.skip(intro@.len() as int) =~= tb@.skip(pos2 as int));
    }
    let k3 = text::take_run(text::ByteClass::Word, tb, pos2);
    if k3 == 0 {
        return None;
    }
    let pos3 = pos2 + k3;
    proof {
        assert(tb@.skip(pos2 as int).skip(k3 as int) =~= tb@.skip(pos3 as int));
    }
    let mid = "', seq=>$mem_seq++, ".as_bytes();
    let after3 = vstd::slice::slice_subrange(tb, pos3, tb_len);
    proof {
        assert(after3@ =~= tb@.skip(pos3 as int));
    }
    if !text::starts_with_bytes(after3, mid) {
        return None;
    }
    let mut pos4 = pos3 + mid.len();
    proof {
        assert(after3@.skip(mid@.len() as int) =~= tb@.skip(pos4 as int));
    }
    if pos4 < tb_len && tb[pos4] == 39 {
        proof {
            assert(tb@.skip(pos4 as int).skip(1) =~= tb@.skip(pos4 as int + 1));
        }
        pos4 = pos4 + 1;
    }
    let after4 = vstd::slice::slice_subrange(tb, pos4, tb_len);
    proof {
        assert(after4@ =~= tb@.skip(pos4 as int));
    }
    if !text::starts_with_bytes(after4, "contents".as_bytes()) {
        return None;
    }
    let name = vstd::slice::slice_to_vec(vstd::slice::slice_subrange(tb, pos2, pos2 + k3));
    proof {
        assert(name@ =~= tb@.skip(pos2 as int).take(k3 as int));
    }
    Some(name)
}

fn line_is_end(line: &[u8]) -> (r: bool)
    ensures
        r == spec_line_is_end(line@),
{
    let tb = text::trim_start(line);
    let r = text::starts_with_bytes(tb, "end =>".as_bytes());
    proof {
        if r {
            assert(tb@.take("end =>".spec_bytes().len() as int) == "end =>".spec_bytes());
        }
    }
    r
}

/// The name and type of one declared field.
pub open spec fn pf_model(fs: Seq<ParsedField>) -> Seq<(Seq<u8>, Type)> {
    fs.map_values(|f: ParsedField| (f.name@, f.typ))
}

/// Field lines from `pos` up to the closing `},` line; `}` lines are
/// skipped. Yields the declarations and the index after the terminator.
pub open spec fn spec_fields_from(ls: Seq<Seq<u8>>, pos: int) -> Option<
    (Seq<(Seq<u8>, Type)>, int),
>
    decreases ls.len() - pos,
{
    if pos < 0 || pos >= ls.len() {
        None
    } else {
        let t = text::spec_trim_start(ls[pos]);
        if t == "}".spec_bytes() {
            spec_fields_from(ls, pos + 1)
        } else if t == "},".spec_bytes() {
            Some((Seq::empty(), pos + 1))
        } else {
            match spec_parse_field_line(ls[pos]) {
                None => None,
                Some((n, tok)) => match spec_parse_typename(tok) {
                    None => None,
                    Some(ty) => match spec_fields_from(ls, pos + 1) {
                        None => None,
                        Some((fs, p2)) => Some((seq![(n, ty)] + fs, p2)),
                    },
                },
            }
        }
    }
}

pub proof fn lemma_fields_from_advances(ls: Seq<Seq<u8>>, pos: int)
    ensures
        spec_fields_from(ls, pos) is Some ==> pos < spec_fields_from(ls, pos)->Some_0.1
            <= ls.len(),
    decreases ls.len() - pos,
{
    if 0 <= pos < ls.len() {
        lemma_fields_from_advances(ls, pos + 1);
    }
}

/// The flattened, `Struct::field`-qualified declarations of all structs
/// from line `pos` up to the `end =>` marker.
pub open spec fn spec_structs_from(ls: Seq<Seq<u8>>, pos: int) -> Option<
    Seq<(Seq<u8>, Type)>,
>
    decreases ls.len() - pos,
    via spec_structs_from_dec
{
    if pos < 0 || pos >= ls.len() {
        None
    } else if spec_line_is_end(ls[pos]) {
        Some(Seq::empty())
    } else {
        match spec_parse_struct_line(ls[pos]) {
            None => None,
            Some(sname) => match spec_fields_from(ls, pos + 1) {
                None => None,
                Some((fs, p2)) => match spec_structs_from(ls, p2) {
                    None => None,
                    Some(rest) => Some(spec_qualify(sname, fs) + rest),
                },
            },
        }
    }
}

#[via_fn]
proof fn spec_structs_from_dec(ls: Seq<Seq<u8>>, pos: int) {
    lemma_fields_from_advances(ls, pos + 1);
}

/// Prefix each declaration's name with `sname::`.
pub open spec fn spec_qualify(sname: Seq<u8>, fs: Seq<(Seq<u8>, Type)>) -> Seq<
    (Seq<u8>, Type),
> {
    fs.map_values(|f: (Seq<u8>, Type)| (sname + "::".spec_bytes() + f.0, f.1))
}

/// A struct as declared: name and ordered fields, offsets not yet laid out.
#[derive(Debug, Clone, PartialEq, Eq)]
pub struct ParsedStruct {
    pub name: Vec<u8>,
    pub fields: Vec<ParsedField>,
}

/// A field with its resolved offset.
#[derive(Debug, Clone, PartialEq, Eq)]
pub struct Field {
    pub name: Vec<u8>,
    pub offset: usize,
    pub typ: Type,
}

/// A struct with resolved field offsets and total size.
#[derive(Debug, Clone, PartialEq, Eq)]
pub struct Struct {
    pub name: Vec<u8>,
    pub size: usize,
    pub fields: Vec<Field>,
}

/// Prepend already-collected declarations to a pending fields-parse result.
pub open spec fn fields_prepend(
    a: Seq<(Seq<u8>, Type)>,
    o: Option<(Seq<(Seq<u8>, Type)>, int)>,
) -> Option<(Seq<(Seq<u8>, Type)>, int)> {
    match o {
        None => None,
        Some((fs, p)) => Some((a + fs, p)),
    }
}

fn parse_fields_at(lines: &Vec<Vec<u8>>, pos: usize, out: &mut Vec<ParsedField>) -> (r:
    Result<usize, LayoutError>)
    requires
        pos <= lines@.len(),
    ensures
        ({
            let lm = lines@.map_values(|v: Vec<u8>| v@);
            match spec_fields_from(lm, pos as int) {
                Some((fs, p2)) => r == Ok::<usize, LayoutError>(p2 as usize) && p2
                    <= lm.len() && pf_model(final(out)@) == pf_model(old(out)@) + fs,
                None => r is Err,
            }
        }),
{
    let ghost lm = lines@.map_values(|v: Vec<u8>| v@);
    let ghost base = pf_model(out@);
    let mut p: usize = pos;
    loop
        invariant
            pos <= p <= lines@.len(),
            lm == lines@.map_values(|v: Vec<u8>| v@),
            base == pf_model(old(out)@),
            fields_prepend(base, spec_fields_from(lm, pos as int)) == fields_prepend(
                pf_model(out@),
                spec_fields_from(lm, p as int),
            ),
        decreases lines@.len() - p,
    {
        if p == lines.len() {
            return Err(LayoutError::UnexpectedEnd);
        }
        let line: &Vec<u8> = &lines[p];
        proof {
            assert(lm[p as int] == line@);
        }
        let t = text::trim_start(line.as_slice());
        if text::bytes_eq(t, "}".as_bytes()) {
            p = p + 1;
        } else if text::bytes_eq(t, "},".as_bytes()) {
            proof {
                let fr = spec_fields_from(lm, p as int);
                assert(fr == Some((Seq::<(Seq<u8>, Type)>::empty(), p + 1 as int)));
                assert(pf_model(out@) + Seq::<(Seq<u8>, Type)>::empty() =~= pf_model(
                    out@,
                ));
                lemma_fields_from_advances(lm, pos as int);
            }
            return Ok(p + 1);
        } else {
            let f = match parse_field_def_bytes(line.as_slice()) {
                Ok(f) => f,
                Err(e) => {
                    return Err(e);
                },
            };
            let ghost before = pf_model(out@);
            out.push(f);
            proof {
                assert(pf_model(out@) =~= before.push((f.name@, f.typ)));
                let fr_next = spec_fields_from(lm, p + 1 as int);
                match fr_next {
                    Some((fs, p2)) => {
                        assert(spec_fields_from(lm, p as int) == Some(
                            (seq![(f.name@, f.typ)] + fs, p2),
                        ));
                        assert(before + (seq![(f.name@, f.typ)] + fs) =~= before.push(
                            (f.name@, f.typ),
                        ) + fs);
                    },
                    None => {
                        assert(spec_fields_from(lm, p as int) is None);
                    },
                }
            }
            p = p + 1;
        }
    }
}

fn parse_struct_at(lines: &Vec<Vec<u8>>, pos: usize) -> (r: Result<
    Option<(ParsedStruct, usize)>,
    LayoutError,
>)
    requires
        pos <= lines@.len(),
    ensures
        ({
            let lm = lines@.map_values(|v: Vec<u8>| v@);
            match r {
                Ok(None) => pos < lm.len() && spec_line_is_end(lm[pos as int]),
                Ok(Some((ps, p2))) => pos < lm.len() && !spec_line_is_end(lm[pos as int])
                    && spec_parse_struct_line(lm[pos as int]) == Some(ps.name@)
                    && spec_fields_from(lm, pos + 1) == Some(
                    (pf_model(ps.fields@), p2 as int),
                ) && pos < p2 <= lm.len(),
                Err(_) => pos >= lm.len() || (!spec_line_is_end(lm[pos as int]) && (
                spec_parse_struct_line(lm[pos as int]) is None || spec_fields_from(
                    lm,
                    pos + 1,
                ) is None)),
            }
        }),
{
    let ghost lm = lines@.map_values(|v: Vec<u8>| v@);
    if pos == lines.len() {
        return Err(LayoutError::UnexpectedEnd);
    }
    let line: &Vec<u8> = &lines[pos];
    proof {
        assert(lm[pos as int] == line@);
    }
    if line_is_end(line.as_slice()) {
        return Ok(None);
    }
    let name = match parse_struct_line(line.as_slice()) {
        Some(n) => n,
        None => {
            return Err(LayoutError::BadStructLine);
        },
    };
    let mut fields: Vec<ParsedField> = Vec::new();
    proof {
        assert(pf_model(fields@) =~= Seq::<(Seq<u8>, Type)>::empty());
    }
    let p2 = match parse_fields_at(lines, pos + 1, &mut fields) {
        Ok(p2) => p2,
        Err(e) => {
            return Err(e);
        },
    };
    proof {
        match spec_fields_from(lm, pos + 1) {
            Some((fs, _)) => {
                assert(Seq::<(Seq<u8>, Type)>::empty() + fs =~= fs);
            },
            None => {},
        }
        lemma_fields_from_advances(lm, pos + 1);
    }
    Ok(Some((ParsedStruct { name, fields }, p2)))
}

/// Parse the first struct definition of `input`, or `None` at the block's
/// `end =>` marker.
pub fn parse_struct_definition(input: &str) -> (r: Result<Option<ParsedStruct>, LayoutError>)
    ensures
        ({
            let lm = text::spec_lines(input.spec_bytes());
            match r {
                Ok(None) => 0 < lm.len() && spec_line_is_end(lm[0]),
                Ok(Some(ps)) => 0 < lm.len() && spec_parse_struct_line(lm[0]) == Some(
                    ps.name@,
                ) && (spec_fields_from(lm, 1) matches Some((fs, _)) && pf_model(
                    ps.fields@,
                ) == fs),
                Err(_) => lm.len() == 0 || (!spec_line_is_end(lm[0]) && (
                spec_parse_struct_line(lm[0]) is None || spec_fields_from(lm, 1) is None)),
            }
        }),
{
    let ls = text::lines(input.as_bytes());
    proof {
        assert(ls@.map_values(|v: Vec<u8>| v@) =~= text::spec_lines(input.spec_bytes()));
    }
    match parse_struct_at(&ls, 0) {
        Ok(None) => Ok(None),
        Ok(Some((ps, _))) => Ok(Some(ps)),
        Err(e) => Err(e),
    }
}

/// The text between `our $mem_data = {` and the first following `};`.
pub open spec fn spec_mem_block(b: Seq<u8>) -> Option<Seq<u8>> {
    let pat1 = "our $mem_data = {\n".spec_bytes();
    let i = text::find_sub_spec(b, pat1);
    if i + pat1.len() <= b.len() {
        let rest = b.skip(i + pat1.len());
        let j = text::find_sub_spec(rest, "};".spec_bytes());
        if j + "};".spec_bytes().len() <= rest.len() {
            Some(rest.take(j))
        } else {
            None
        }
    } else {
        None
    }
}

/// The field declarations the whole descriptor denotes: every struct's
/// fields qualified `Struct::field`, and the one synthetic declaration the
/// descriptor omits, `VideoStoreData::size`, which the reader must know to
/// find the image ring.
pub open spec fn spec_parse_memory(b: Seq<u8>) -> Option<Seq<(Seq<u8>, Type)>> {
    match spec_mem_block(b) {
        None => None,
        Some(block) => match spec_structs_from(text::spec_lines(block), 0) {
            None => None,
            Some(fs) => Some(
                fs + seq![
                    ("VideoStoreData::size".spec_bytes(), Type { size: 4, alignment: 4 }),
                ],
            ),
        },
    }
}

/// Parse the host's whole layout descriptor into one flat declaration list
/// named `memory`.
pub fn parse_memory_pm(input: &str) -> (r: Result<ParsedStruct, LayoutError>)
    ensures
        ({
            match spec_parse_memory(input.spec_bytes()) {
                Some(fs) => r is Ok && r->Ok_0.name@ == "memory".spec_bytes() && pf_model(
                    r->Ok_0.fields@,
                ) == fs,
                None => r is Err,
            }
        }),
{
    let b = input.as_bytes();
    let bn: usize = b.len();
    let pat1 = "our $mem_data = {\n".as_bytes();
    proof {
        reveal_strlit("our $mem_data = {\n");
        text::lemma_encode_utf8_len_ge("our $mem_data = {\n"@);
        reveal_strlit("};");
        text::lemma_encode_utf8_len_ge("};"@);
    }
    let i = match text::find_sub(b, 0, pat1) {
        Some(i) => i,
        None => {
            proof {
                text::lemma_find_sub_spec_is(b@, pat1@, b@.len() as int);
            }
            return Err(LayoutError::MissingBlock);
        },
    };
    proof {
        text::lemma_find_sub_spec_is(b@, pat1@, i as int);
    }
    let start = i + pat1.len();
    let rest = vstd::slice::slice_subrange(b, start, b.len());
    proof {
        assert(rest@ =~= b@.skip(start as int));
    }
    let j = match text::find_sub(rest, 0, "};".as_bytes()) {
        Some(j) => j,
        None => {
            proof {
                text::lemma_find_sub_spec_is(rest@, "};".spec_bytes(), rest@.len() as int);
            }
            return Err(LayoutError::MissingBlock);
        },
    };
    proof {
        text::lemma_find_sub_spec_is(rest@, "};".spec_bytes(), j as int);
    }
    let blockb = vstd::slice::slice_subrange(rest, 0, j);
    proof {
        assert(blockb@ =~= rest@.take(j as int));
        assert(spec_mem_block(b@) == Some(blockb@));
    }
    let ls = text::lines(blockb);
    let ghost lm = text::spec_lines(blockb@);
    proof {
        assert(ls@.map_values(|v: Vec<u8>| v@) =~= lm);
    }
    let mut fields: Vec<ParsedField> = Vec::new();
    let mut pos: usize = 0;
    proof {
        assert(pf_model(fields@) =~= Seq::<(Seq<u8>, Type)>::empty());
        match spec_structs_from(lm, 0) {
            Some(rest0) => {
                assert(Seq::<(Seq<u8>, Type)>::empty() + rest0 =~= rest0);
            },
            None => {},
        }
    }
    loop
        invariant_except_break
            pos <= ls@.len(),
            lm == ls@.map_values(|v: Vec<u8>| v@),
            lm == text::spec_lines(blockb@),
            spec_mem_block(input.spec_bytes()) == Some(blockb@),
            match spec_structs_from(lm, pos as int) {
                Some(rest_d) => spec_structs_from(lm, 0) == Some(
                    pf_model(fields@) + rest_d,
                ),
                None => spec_structs_from(lm, 0) is None,
            },
        ensures
            spec_structs_from(lm, 0) == Some(pf_model(fields@)),
        decreases ls@.len() - pos,
    {
        match parse_struct_at(&ls, pos) {
            Err(e) => {
                proof {
                    assert(spec_structs_from(lm, pos as int) is None);
                }
                return Err(e);
            },
            Ok(None) => {
                proof {
                    assert(spec_structs_from(lm, pos as int) == Some(
                        Seq::<(Seq<u8>, Type)>::empty(),
                    ));
                    assert(pf_model(fields@) + Seq::<(Seq<u8>, Type)>::empty()
                        =~= pf_model(fields@));
                }
                break;
            },
            Ok(Some((ps, p2))) => {
                let ghost fs = pf_model(ps.fields@);
                let ghost sname = ps.name@;
                let ghost before = pf_model(fields@);
                let mut fi: usize = 0;
                let psf = ps.fields;
                let psn = ps.name;
                while fi < psf.len()
                    invariant
                        fi <= psf@.len(),
                        fs == pf_model(psf@),
                        sname == psn@,
                        pf_model(fields@) == before + spec_qualify(
                            sname,
                            fs.take(fi as int),
                        ),
                    decreases psf@.len() - fi,
                {
                    let mut qn: Vec<u8> = Vec::new();
                    text::append_bytes(&mut qn, psn.as_slice());
                    text::append_bytes(&mut qn, "::".as_bytes());
                    text::append_bytes(&mut qn, psf[fi].name.as_slice());
                    let ghost prev = pf_model(fields@);
                    fields.push(ParsedField { name: qn, typ: psf[fi].typ });
                    proof {
                        assert(qn@ =~= sname + "::".spec_bytes() + fs[fi as int].0);
                        assert(pf_model(fields@) =~= prev.push(
                            (qn@, fs[fi as int].1),
                        ));
                        assert(spec_qualify(sname, fs.take(fi + 1)) =~= spec_qualify(
                            sname,
                            fs.take(fi as int),
                        ).push((sname + "::".spec_bytes() + fs[fi as int].0, fs[
                            fi as int
                        ].1)));
                        assert(pf_model(fields@) =~= before + spec_qualify(
                            sname,
                            fs.take(fi + 1),
                        ));
                    }
                    fi = fi + 1;
                }
                proof {
                    assert(fs.take(fs.len() as int) =~= fs);
                    match spec_structs_from(lm, p2 as int) {
                        Some(rest_d) => {
                            assert(spec_structs_from(lm, pos as int) == Some(
                                spec_qualify(sname, fs) + rest_d,
                            ));
                            assert(before + spec_qualify(sname, fs) + rest_d =~= before
                                + (spec_qualify(sname, fs) + rest_d));
                        },
                        None => {
                            assert(spec_structs_from(lm, pos as int) is None);
                        },
                    }
                }
                pos = p2;
            },
        }
    }
    let mut inj: Vec<u8> = Vec::new();
    text::append_bytes(&mut inj, "VideoStoreData::size".as_bytes());
    let ghost before_inj = pf_model(fields@);
    fields.push(ParsedField { name: inj, typ: Type { size: 4, alignment: 4 } });
    let mut mname: Vec<u8> = Vec::new();
    text::append_bytes(&mut mname, "memory".as_bytes());
    proof {
        assert(inj@ =~= Seq::<u8>::empty() + "VideoStoreData::size".spec_bytes());
        assert(mname@ =~= Seq::<u8>::empty() + "memory".spec_bytes());
        assert(pf_model(fields@) =~= before_inj + seq![
            ("VideoStoreData::size".spec_bytes(), Type { size: 4, alignment: 4 }),
        ]);
    }
    Ok(ParsedStruct { name: mname, fields })
}

/// The layout cursor after the first `i` declared fields.
pub open spec fn spec_offset_after(ds: Seq<(Seq<u8>, Type)>, i: int) -> int
    decreases i,
{
    if i <= 0 {
        0
    } else {
        spec_align_to(
            spec_offset_after(ds, i - 1),
            ds[i - 1].1.alignment as int,
        ) + ds[i - 1].1.size
    }
}

/// The resolved offset of field `i`: the cursor rounded up to the field's
/// alignment.
pub open spec fn spec_field_offset(ds: Seq<(Seq<u8>, Type)>, i: int) -> int {
    spec_align_to(spec_offset_after(ds, i), ds[i].1.alignment as int)
}

/// Every declared alignment is at least one.
pub open spec fn spec_aligns_wf(ds: Seq<(Seq<u8>, Type)>) -> bool {
    forall|i: int| 0 <= i < ds.len() ==> #[trigger] ds[i].1.alignment >= 1
}

/// All offsets of the layout fit the address space.
pub open spec fn spec_calc_ok(ds: Seq<(Seq<u8>, Type)>) -> bool {
    forall|i: int|
        0 <= i < ds.len() ==> #[trigger] spec_offset_after(ds, i) + ds[i].1.alignment
            <= usize::MAX && spec_field_offset(ds, i) + ds[i].1.size <= usize::MAX
}

pub proof fn lemma_offset_after_nonneg(ds: Seq<(Seq<u8>, Type)>, i: int)
    requires
        spec_aligns_wf(ds),
        i <= ds.len(),
    ensures
        spec_offset_after(ds, i) >= 0,
        0 <= i < ds.len() ==> spec_field_offset(ds, i) >= spec_offset_after(ds, i),
    decreases i,
{
    if i > 0 {
        lemma_offset_after_nonneg(ds, i - 1);
        crate::layout::lemma_align_to_properties(
            spec_offset_after(ds, i - 1),
            ds[i - 1].1.alignment as int,
        );
    }
    if 0 <= i < ds.len() {
        lemma_align_to_properties(spec_offset_after(ds, i), ds[i].1.alignment as int);
    }
}

/// Layout well-formedness: every field's resolved offset is a multiple of
/// its alignment, and consecutive fields do not overlap — each field starts
/// at or after the end of the one before it.
pub proof fn lemma_layout_well_formed(ds: Seq<(Seq<u8>, Type)>)
    requires
        spec_aligns_wf(ds),
    ensures
        forall|i: int|
            0 <= i < ds.len() ==> #[trigger] spec_field_offset(ds, i) % (
            ds[i].1.alignment as int) == 0,
        forall|i: int|
            1 <= i < ds.len() ==> #[trigger] spec_field_offset(ds, i)
                >= spec_field_offset(ds, i - 1) + ds[i - 1].1.size,
{
    assert forall|i: int| 0 <= i < ds.len() implies #[trigger] spec_field_offset(ds, i) % (
    ds[i].1.alignment as int) == 0 by {
        lemma_offset_after_nonneg(ds, i);
        lemma_align_to_properties(spec_offset_after(ds, i), ds[i].1.alignment as int);
    }
    assert forall|i: int| 1 <= i < ds.len() implies #[trigger] spec_field_offset(ds, i)
        >= spec_field_offset(ds, i - 1) + ds[i - 1].1.size by {
        lemma_offset_after_nonneg(ds, i);
        lemma_align_to_properties(spec_offset_after(ds, i), ds[i].1.alignment as int);
        assert(spec_offset_after(ds, i) == spec_field_offset(ds, i - 1) + ds[i
            - 1].1.size);
    }
}

impl ParsedStruct {
    /// Lay the declared fields out: each offset is the running cursor
    /// rounded up to the field's alignment; the struct's size is the cursor
    /// after the last field, without trailing padding.
    pub fn calculate_offsets(self) -> (r: Result<Struct, LayoutError>)
        requires
            spec_aligns_wf(pf_model(self.fields@)),
        ensures
            ({
                let ds = pf_model(self.fields@);
                &&& r is Ok <==> spec_calc_ok(ds)
                &&& r is Ok ==> ({
                    let st = r->Ok_0;
                    &&& st.name@ == self.name@
                    &&& st.fields@.len() == ds.len()
                    &&& st.size == spec_offset_after(ds, ds.len() as int)
                    &&& forall|i: int|
                        0 <= i < ds.len() ==> (#[trigger] st.fields@[i]).name@ == ds[i].0
                            && st.fields@[i].typ == ds[i].1 && st.fields@[i].offset
                            == spec_field_offset(ds, i)
                })
            }),
    {
        let ghost ds = pf_model(self.fields@);
        let mut cursor: usize = 0;
        let mut out: Vec<Field> = Vec::new();
        let mut rest = self.fields;
        let total: usize = rest.len();
        let mut i: usize = 0;
        let ghost n = ds.len();
        while rest.len() > 0
            invariant
                spec_aligns_wf(ds),
                i + rest@.len() == n,
                n == total,
                ds == pf_model(self.fields@),
                n == ds.len(),
                rest@ == self.fields@.skip(i as int),
                cursor == spec_offset_after(ds, i as int),
                out@.len() == i,
                forall|j: int|
                    0 <= j < i ==> (#[trigger] out@[j]).name@ == ds[j].0 && out@[j].typ
                        == ds[j].1 && out@[j].offset == spec_field_offset(ds, j),
                forall|j: int|
                    0 <= j < i ==> #[trigger] spec_offset_after(ds, j) + ds[j].1.alignment
                        <= usize::MAX && spec_field_offset(ds, j) + ds[j].1.size
                        <= usize::MAX,
            decreases rest@.len(),
        {
            let f = rest.remove(0);
            proof {
                assert(f == self.fields@[i as int]);
                assert(rest@ =~= self.fields@.skip(i as int + 1));
                assert(ds[i as int].1.alignment >= 1);
            }
            if cursor > usize::MAX - f.typ.alignment {
                proof {
                    assert(!spec_calc_ok(ds));
                }
                return Err(LayoutError::Overflow);
            }
            let off = align_to(cursor, f.typ.alignment);
            if f.typ.size > usize::MAX - off {
                proof {
                    assert(!spec_calc_ok(ds));
                }
                return Err(LayoutError::Overflow);
            }
            cursor = off + f.typ.size;
            out.push(Field { name: f.name, offset: off, typ: f.typ });
            i = i + 1;
        }
        proof {
            assert(spec_calc_ok(ds));
        }
        Ok(Struct { name: self.name, size: cursor, fields: out })
    }
}

/// Parse the descriptor and resolve all offsets.
pub fn read_memory_pm(input: &str) -> (r: Result<Struct, LayoutError>)
    ensures
        ({
            match spec_parse_memory(input.spec_bytes()) {
                Some(ds) => {
                    &&& r is Ok <==> spec_calc_ok(ds)
                    &&& r is Ok ==> ({
                        let st = r->Ok_0;
                        &&& st.name@ == "memory".spec_bytes()
                        &&& st.fields@.len() == ds.len()
                        &&& st.size == spec_offset_after(ds, ds.len() as int)
                        &&& forall|i: int|
                            0 <= i < ds.len() ==> (#[trigger] st.fields@[i]).name@
                                == ds[i].0 && st.fields@[i].typ == ds[i].1
                                && st.fields@[i].offset == spec_field_offset(ds, i)
                    })
                },
                None => r is Err,
            }
        }),
{
    let ps = match parse_memory_pm(input) {
        Ok(ps) => ps,
        Err(e) => {
            return Err(e);
        },
    };
    proof {
        let ds = pf_model(ps.fields@);
        lemma_parse_memory_aligns_wf(input.spec_bytes());
    }
    ps.calculate_offsets()
}

proof fn lemma_fields_from_wf(ls: Seq<Seq<u8>>, pos: int)
    ensures
        spec_fields_from(ls, pos) is Some ==> spec_aligns_wf(
            spec_fields_from(ls, pos)->Some_0.0,
        ),
    decreases ls.len() - pos,
{
    if 0 <= pos < ls.len() {
        lemma_fields_from_wf(ls, pos + 1);
        let t = text::spec_trim_start(ls[pos]);
        if t == "}".spec_bytes() || t == "},".spec_bytes() {
        } else {
            match spec_parse_field_line(ls[pos]) {
                None => {},
                Some((n, tok)) => {
                    lemma_parse_typename_wf(tok);
                    match spec_parse_typename(tok) {
                        None => {},
                        Some(ty) => match spec_fields_from(ls, pos + 1) {
                            None => {},
                            Some((fs, p2)) => {
                                let whole = seq![(n, ty)] + fs;
                                assert forall|i: int| 0 <= i < whole.len() implies
                                    #[trigger] whole[i].1.alignment >= 1 by {
                                    if i > 0 {
                                        assert(whole[i] == fs[i - 1]);
                                    }
                                }
                            },
                        },
                    }
                },
            }
        }
    }
}

proof fn lemma_structs_from_wf(ls: Seq<Seq<u8>>, pos: int)
    ensures
        spec_structs_from(ls, pos) is Some ==> spec_aligns_wf(
            spec_structs_from(ls, pos)->Some_0,
        ),
    decreases ls.len() - pos,
{
    if 0 <= pos < ls.len() && !spec_line_is_end(ls[pos]) {
        match spec_parse_struct_line(ls[pos]) {
            None => {},
            Some(sname) => {
                lemma_fields_from_wf(ls, pos + 1);
                lemma_fields_from_advances(ls, pos + 1);
                match spec_fields_from(ls, pos + 1) {
                    None => {},
                    Some((fs, p2)) => {
                        lemma_structs_from_wf(ls, p2);
                        match spec_structs_from(ls, p2) {
                            None => {},
                            Some(rest) => {
                                let whole = spec_qualify(sname, fs) + rest;
                                assert forall|i: int| 0 <= i < whole.len() implies
                                    #[trigger] whole[i].1.alignment >= 1 by {
                                    if i < fs.len() {
                                        assert(whole[i].1 == fs[i].1);
                                    } else {
                                        assert(whole[i] == rest[i - fs.len()]);
                                    }
                                }
                            },
                        }
                    },
                }
            },
        }
    }
}

proof fn lemma_parse_memory_aligns_wf(b: Seq<u8>)
    ensures
        spec_parse_memory(b) is Some ==> spec_aligns_wf(spec_parse_memory(b)->Some_0),
{
    match spec_mem_block(b) {
        None => {},
        Some(block) => {
            let ls = text::spec_lines(block);
            lemma_structs_from_wf(ls, 0);
            match spec_structs_from(ls, 0) {
                None => {},
                Some(fs) => {
                    let whole = fs + seq![
                        (
                            "VideoStoreData::size".spec_bytes(),
                            Type { size: 4, alignment: 4 },
                        ),
                    ];
                    assert forall|i: int| 0 <= i < whole.len() implies #[trigger] whole[
                        i
                    ].1.alignment >= 1 by {
                        if i < fs.len() {
                            assert(whole[i] == fs[i]);
                        }
                    }
                },
            }
        },
    }
}

} // verus!
