//! Kernel programs: element kinds and pass-kernel source text.
//!
//! A kernel program is compiled from a fixed source template with the
//! element's scalar type name substituted into the storage-array
//! declaration, and is bound to a two-slot resource layout: slot 0 the data
//! array, slot 1 the per-pass parameter record. Only a closed set of element
//! kinds maps to a scalar of the kernel language; any other name is rejected
//! with `UnsupportedElementType` before a program would be compiled.

use crate::error::WgError;
use vstd::prelude::*;
use vstd::utf8::encode_utf8_decode_utf8;

verus! {

/// The closed set of element kinds the kernel language can operate on.
#[derive(Clone, Copy, Debug, PartialEq, Eq, Structural)]
pub enum ElementKind {
    /// A 32-bit unsigned integer element.
    U32,
    /// A 32-bit signed integer element.
    I32,
    /// A 32-bit floating-point element.
    F32,
}

/// The kernel-language scalar name of an element kind.
pub open spec fn scalar_token_spec(kind: ElementKind) -> Seq<char> {
    match kind {
        ElementKind::U32 => "u32"@,
        ElementKind::I32 => "i32"@,
        ElementKind::F32 => "f32"@,
    }
}

/// Returns the kernel-language scalar name of an element kind.
pub fn scalar_token(kind: ElementKind) -> (r: &'static str)
    ensures
        r@ == scalar_token_spec(kind),
{
    match kind {
        ElementKind::U32 => "u32",
        ElementKind::I32 => "i32",
        ElementKind::F32 => "f32",
    }
}

/// The element kind a scalar type name maps to, if any.
pub open spec fn kind_for_name(name: Seq<char>) -> Option<ElementKind> {
    if name == "u32"@ {
        Some(ElementKind::U32)
    } else if name == "i32"@ {
        Some(ElementKind::I32)
    } else if name == "f32"@ {
        Some(ElementKind::F32)
    } else {
        None
    }
}

/// Byte-for-byte equality of two slices.
fn bytes_eq(a: &[u8], b: &[u8]) -> (r: bool)
    ensures
        r <==> a@ == b@,
{
    if a.len() != b.len() {
        return false;
    }
    let n = a.len();
    let mut i: usize = 0;
    while i < n
        invariant
            i <= n,
            a@.len() == n,
            b@.len() == n,
            forall|m: int| 0 <= m < i ==> a@[m] == b@[m],
        decreases n - i,
    {
        if a[i] != b[i] {
            return false;
        }
        i = i + 1;
    }
    proof {
        assert(a@ =~= b@);
    }
    true
}

/// Maps a scalar type name onto the closed set of element kinds; any name
/// that is not a kernel-language scalar is rejected with
/// `UnsupportedElementType`.
pub fn element_kind_for_name(name: &str) -> (r: Result<ElementKind, WgError>)
    ensures
        r == (match kind_for_name(name@) {
            Some(kind) => Ok::<ElementKind, WgError>(kind),
            None => Err::<ElementKind, WgError>(WgError::UnsupportedElementType),
        }),
{
    let nb = name.as_bytes();
    proof {
        encode_utf8_decode_utf8(name@);
        encode_utf8_decode_utf8("u32"@);
        encode_utf8_decode_utf8("i32"@);
        encode_utf8_decode_utf8("f32"@);
    }
    if bytes_eq(nb, "u32".as_bytes()) {
        Ok(ElementKind::U32)
    } else if bytes_eq(nb, "i32".as_bytes()) {
        Ok(ElementKind::I32)
    } else if bytes_eq(nb, "f32".as_bytes()) {
        Ok(ElementKind::F32)
    } else {
        Err(WgError::UnsupportedElementType)
    }
}

/// Relies on `String::push_str`: appends the slice onto the end of the
/// string.
#[verifier::external_body]
fn push_str(s: &mut String, t: &str)
    ensures
        final(s)@ == old(s)@ + t@,
{
    s.push_str(t)
}

/// The source text of the sort-pass kernel for an element kind: the fixed
/// template around the kind's scalar name.
pub open spec fn sort_kernel_source_spec(kind: ElementKind) -> Seq<char> {
    "
    @group(0) @binding(0) var<storage, read_write> buffer: array<"@ + scalar_token_spec(kind)
        + ">;

    struct SortParams {
        j: u32,
        k: u32
    };

    @group(0) @binding(1) var<uniform> params: SortParams;

    @compute
    @workgroup_size(1)
    fn main(@builtin(global_invocation_id) global_id: vec3<u32>) {
        let i = u32(global_id.x);
        let ixj = i ^ params.j;

        if (ixj > i && ixj < arrayLength(&buffer)) {
            if (((i & params.k) == 0u && buffer[i] > buffer[ixj]) || ((i & params.k) != 0u && buffer[i] < buffer[ixj])) {
                let tmp = buffer[i];
                buffer[i] = buffer[ixj];
                buffer[ixj] = tmp;
            }
        }
    }
"@
}

/// Generates the sort-pass kernel source for an element kind.
pub fn sort_kernel_source(kind: ElementKind) -> (r: String)
    ensures
        r@ == sort_kernel_source_spec(kind),
{
    let mut s = "
    @group(0) @binding(0) var<storage, read_write> buffer: array<".to_owned();
    push_str(&mut s, scalar_token(kind));
    push_str(
        &mut s,
        ">;

    struct SortParams {
        j: u32,
        k: u32
    };

    @group(0) @binding(1) var<uniform> params: SortParams;

    @compute
    @workgroup_size(1)
    fn main(@builtin(global_invocation_id) global_id: vec3<u32>) {
        let i = u32(global_id.x);
        let ixj = i ^ params.j;

        if (ixj > i && ixj < arrayLength(&buffer)) {
            if (((i & params.k) == 0u && buffer[i] > buffer[ixj]) || ((i & params.k) != 0u && buffer[i] < buffer[ixj])) {
                let tmp = buffer[i];
                buffer[i] = buffer[ixj];
                buffer[ixj] = tmp;
            }
        }
    }
",
    );
    proof {
        assert(s@ =~= sort_kernel_source_spec(kind));
    }
    s
}

/// The source text of the scan-pass kernel for an element kind: the fixed
/// template around the kind's scalar name.
pub open spec fn scan_kernel_source_spec(kind: ElementKind) -> Seq<char> {
    "
@group(0) @binding(0) var<storage, read_write> buffer: array<"@ + scalar_token_spec(kind) + ">;

struct ScanParams {
    offset: u32
};

@group(0) @binding(1) var<uniform> params: ScanParams;

@compute
@workgroup_size(1)
fn main(@builtin(global_invocation_id) global_id: vec3<u32>) {
    let i = global_id.x;
    if (i >= params.offset) {
        buffer[i] = buffer[i] + buffer[i - params.offset];
    }
}
"@
}

/// Generates the scan-pass kernel source for an element kind.
pub fn scan_kernel_source(kind: ElementKind) -> (r: String)
    ensures
        r@ == scan_kernel_source_spec(kind),
{
    let mut s = "
@group(0) @binding(0) var<storage, read_write> buffer: array<".to_owned();
    push_str(&mut s, scalar_token(kind));
    push_str(
        &mut s,
        ">;

struct ScanParams {
    offset: u32
};

@group(0) @binding(1) var<uniform> params: ScanParams;

@compute
@workgroup_size(1)
fn main(@builtin(global_invocation_id) global_id: vec3<u32>) {
    let i = global_id.x;
    if (i >= params.offset) {
        buffer[i] = buffer[i] + buffer[i - params.offset];
    }
}
",
    );
    proof {
        assert(s@ =~= scan_kernel_source_spec(kind));
    }
    s
}

} // verus!
