//! Tensors of ONNX `TensorProto` records: element type, dimensions, and
//! elements as little-endian raw bytes or as typed value lists.
use vstd::prelude::*;
use crate::datum::{onnx_datum_type, DatumType};
use crate::errors::TractError;
use crate::tensor::{all_in_range, in_range, scalar_model, shape_product, Tensor, TensorModel};

verus! {

/// The unsigned integer stored little-endian in `w` bytes of `b` from `s`.
pub open spec fn le_value(b: Seq<u8>, s: int, w: int) -> int
    decreases w,
{
    if w <= 0 {
        0
    } else {
        b[s] as int + 256 * le_value(b, s + 1, w - 1)
    }
}

/// The width in bytes of an element of type `dt` in raw data.
pub open spec fn raw_width(dt: DatumType) -> int {
    match dt {
        DatumType::Bool | DatumType::U8 | DatumType::I8 => 1,
        DatumType::U16 | DatumType::I16 | DatumType::F16 => 2,
        DatumType::I32 | DatumType::F32 => 4,
        DatumType::I64 | DatumType::F64 => 8,
        _ => 0,
    }
}

/// The element of type `dt` whose raw bytes are `v` read as unsigned: signed
/// integers are sign-extended, booleans are whether `v` is non-zero,
/// floating-point elements keep their bits (those of `f64` as an `i64`).
pub open spec fn raw_element(dt: DatumType, v: int) -> int {
    match dt {
        DatumType::Bool => if v != 0 { 1 } else { 0 },
        DatumType::I8 => if v >= 0x80 { v - 0x100 } else { v },
        DatumType::I16 => if v >= 0x8000 { v - 0x1_0000 } else { v },
        DatumType::I32 => if v >= 0x8000_0000 { v - 0x1_0000_0000 } else { v },
        DatumType::I64 | DatumType::F64 => if v >= 0x8000_0000_0000_0000 { v - 0x1_0000_0000_0000_0000 } else { v },
        _ => v,
    }
}

/// The elements decoded from raw bytes.
pub open spec fn raw_elements(dt: DatumType, raw: Seq<u8>, n: int) -> Seq<i64> {
    Seq::new(n as nat, |k: int| raw_element(dt, le_value(raw, k * raw_width(dt), raw_width(dt))) as i64)
}

/// The value of `w` little-endian bytes from `s` (at most 8).
fn read_le(b: &Vec<u8>, s: usize, w: usize) -> (r: u64)
    requires
        1 <= w <= 8,
        s + w <= b@.len(),
    ensures
        r as int == le_value(b@, s as int, w as int),
{
    let len = b.len();
    let mut acc: u64 = 0;
    let mut j: usize = w;
    while j > 0
        invariant
            len == b@.len(),
            0 <= j <= w,
            w <= 8,
            s + w <= b@.len(),
            acc as int == le_value(b@, s + j, (w - j) as int),
            acc < pow256(w - j),
        decreases j,
    {
        j -= 1;
        proof {
            assert(pow256(w - j) == 256 * pow256(w - j - 1));
            assert(pow256(w - j) <= 0x1_0000_0000_0000_0000) by {
                lemma_pow256_bound((w - j) as nat);
            }
            let p = pow256(w - j - 1);
            assert(acc * 256 + 255 < 256 * p) by (nonlinear_arith)
                requires acc < p;
            assert(256 * p == pow256(w - j));
            assert(acc * 256 + 255 < 0x1_0000_0000_0000_0000);
        }
        acc = acc * 256 + b[s + j] as u64;
    }
    acc
}

/// `256` to the power `k`.
pub open spec fn pow256(k: int) -> int
    decreases k,
{
    if k <= 0 { 1 } else { 256 * pow256(k - 1) }
}

proof fn lemma_pow256_bound(k: nat)
    requires
        k <= 8,
    ensures
        pow256(k as int) <= 0x1_0000_0000_0000_0000,
{
    reveal_with_fuel(pow256, 9);
}

fn width_of(dt: DatumType) -> (r: usize)
    ensures
        r == raw_width(dt),
{
    match dt {
        DatumType::Bool | DatumType::U8 | DatumType::I8 => 1,
        DatumType::U16 | DatumType::I16 | DatumType::F16 => 2,
        DatumType::I32 | DatumType::F32 => 4,
        DatumType::I64 | DatumType::F64 => 8,
        _ => 0,
    }
}

fn element_of(dt: DatumType, v: u64) -> (r: i64)
    requires
        raw_width(dt) > 0,
        v < pow256(raw_width(dt)),
    ensures
        r as int == raw_element(dt, v as int),
        in_range(dt, r as int),
{
    proof { reveal_with_fuel(pow256, 9); }
    match dt {
        DatumType::Bool => if v != 0 { 1 } else { 0 },
        DatumType::I8 => if v >= 0x80 { v as i64 - 0x100 } else { v as i64 },
        DatumType::I16 => if v >= 0x8000 { v as i64 - 0x1_0000 } else { v as i64 },
        DatumType::I32 => if v >= 0x8000_0000 { v as i64 - 0x1_0000_0000 } else { v as i64 },
        DatumType::I64 | DatumType::F64 => if v >= 0x8000_0000_0000_0000 {
            (v - 0x8000_0000_0000_0000) as i64 - 0x4000_0000_0000_0000 - 0x4000_0000_0000_0000
        } else {
            v as i64
        },
        _ => v as i64,
    }
}

/// The shape given by ONNX dimensions, none when one is negative.
pub open spec fn onnx_shape(dims: Seq<i64>) -> Option<Seq<usize>> {
    if forall|k: int| 0 <= k < dims.len() ==> 0 <= #[trigger] dims[k] <= usize::MAX {
        Some(dims.map_values(|d: i64| d as usize))
    } else {
        None
    }
}

/// The shape given by ONNX dimensions; a negative one is a parse error.
pub fn shape_from_onnx(dims: &Vec<i64>) -> (r: Result<Vec<usize>, TractError>)
    ensures
        r matches Ok(s) ==> onnx_shape(dims@) == Some(s@),
        r is Err <==> onnx_shape(dims@) is None,
{
    let mut shape: Vec<usize> = Vec::new();
    let mut k: usize = 0;
    while k < dims.len()
        invariant
            0 <= k <= dims@.len(),
            shape@ =~= dims@.subrange(0, k as int).map_values(|d: i64| d as usize),
            forall|j: int| 0 <= j < k ==> 0 <= #[trigger] dims@[j] <= usize::MAX,
        decreases dims.len() - k,
    {
        if dims[k] < 0 || dims[k] as u64 > usize::MAX as u64 {
            assert(!(0 <= dims@[k as int] <= usize::MAX));
            return Err(TractError::ParseError);
        }
        shape.push(dims[k] as usize);
        k += 1;
    }
    assert(dims@.subrange(0, dims@.len() as int) =~= dims@);
    Ok(shape)
}

/// The elements of a tensor of type `dt` given as typed value lists: the
/// small integer types and booleans as 32-bit integers, 64-bit integers as
/// such, and floating-point elements as bit patterns.
pub open spec fn typed_elements(dt: DatumType, ints: Seq<i32>, longs: Seq<i64>, floats: Seq<u32>, doubles: Seq<u64>) -> Option<Seq<i64>> {
    match dt {
        DatumType::Bool => Some(ints.map_values(|x: i32| if x != 0 { 1i64 } else { 0i64 })),
        DatumType::U8 | DatumType::U16 | DatumType::I8 | DatumType::I16 | DatumType::I32 =>
            Some(ints.map_values(|x: i32| x as i64)),
        DatumType::I64 => Some(longs),
        DatumType::F32 => Some(floats.map_values(|x: u32| x as i64)),
        DatumType::F64 => Some(doubles.map_values(|x: u64| raw_element(DatumType::F64, x as int) as i64)),
        _ => None,
    }
}

/// Whether the type code is known, the type has typed values, the
/// dimensions are non-negative, and the values fill the shape and fit the
/// type.
pub open spec fn values_decodable(code: i32, dims: Seq<i64>, ints: Seq<i32>, longs: Seq<i64>, floats: Seq<u32>, doubles: Seq<u64>) -> bool {
    match (onnx_datum_type(code), onnx_shape(dims)) {
        (Some(dt), Some(sh)) => match typed_elements(dt, ints, longs, floats, doubles) {
            Some(v) => v.len() == shape_product(sh) && all_in_range(dt, v),
            None => false,
        },
        _ => false,
    }
}

/// Whether the type code is known and has a raw layout, the dimensions are
/// non-negative, and `len` bytes hold exactly the elements of the shape.
pub open spec fn raw_decodable(code: i32, dims: Seq<i64>, len: int) -> bool {
    match (onnx_datum_type(code), onnx_shape(dims)) {
        (Some(dt), Some(sh)) => raw_width(dt) > 0 && shape_product(sh) * raw_width(dt) == len,
        _ => false,
    }
}

/// Decodes a tensor from the typed value lists of an ONNX record. Fails with
/// `ParseError` on an unknown or unsupported type code, a negative
/// dimension, or a value count that does not fit the shape, and with
/// `NumericError` on a value out of the range of the type.
#[verifier::loop_isolation(false)]
pub fn tensor_from_values(
    data_type: i32,
    dims: &Vec<i64>,
    ints: &Vec<i32>,
    longs: &Vec<i64>,
    floats: &Vec<u32>,
    doubles: &Vec<u64>,
) -> (r: Result<Tensor, TractError>)
    ensures
        r matches Ok(t) ==> t@.wf() && onnx_datum_type(data_type) == Some(t@.datum_type)
            && onnx_shape(dims@) == Some(t@.shape)
            && typed_elements(t@.datum_type, ints@, longs@, floats@, doubles@)
                == Some(crate::tensor::scalars_of(t@)),
        r is Ok <==> values_decodable(data_type, dims@, ints@, longs@, floats@, doubles@),
{
    let dt = DatumType::from_onnx(data_type)?;
    let shape = shape_from_onnx(dims)?;
    let mut values: Vec<i64> = Vec::new();
    match dt {
        DatumType::Bool | DatumType::U8 | DatumType::U16 | DatumType::I8 | DatumType::I16 | DatumType::I32 => {
            let mut i: usize = 0;
            while i < ints.len()
                invariant
                    0 <= i <= ints@.len(),
                    values@.len() == i,
                    forall|j: int| 0 <= j < i ==> #[trigger] values@[j]
                        == typed_elements(dt, ints@, longs@, floats@, doubles@)->Some_0[j],
                decreases ints.len() - i,
            {
                let x = ints[i];
                let v: i64 = if dt == DatumType::Bool { if x != 0 { 1 } else { 0 } } else { x as i64 };
                values.push(v);
                i += 1;
            }
        },
        DatumType::I64 => {
            values = longs.clone();
        },
        DatumType::F32 => {
            let mut i: usize = 0;
            while i < floats.len()
                invariant
                    0 <= i <= floats@.len(),
                    values@.len() == i,
                    forall|j: int| 0 <= j < i ==> #[trigger] values@[j] == floats@[j] as i64,
                decreases floats.len() - i,
            {
                values.push(floats[i] as i64);
                i += 1;
            }
        },
        DatumType::F64 => {
            let mut i: usize = 0;
            while i < doubles.len()
                invariant
                    0 <= i <= doubles@.len(),
                    values@.len() == i,
                    forall|j: int| 0 <= j < i ==> #[trigger] values@[j] as int == raw_element(DatumType::F64, doubles@[j] as int),
                decreases doubles.len() - i,
            {
                proof { reveal_with_fuel(pow256, 9); }
                values.push(element_of(DatumType::F64, doubles[i]));
                i += 1;
            }
        },
        _ => return Err(TractError::ParseError),
    }
    let ghost want = typed_elements(dt, ints@, longs@, floats@, doubles@)->Some_0;
    assert(values@ =~= want);
    let t = Tensor::from_scalars(dt, shape, values)?;
    Ok(t)
}

/// Decodes a tensor from the raw bytes of an ONNX record: `raw` holds the
/// elements little-endian, one after the other. Fails with `ParseError` on
/// an unknown type code, a type without raw layout, a negative dimension,
/// or raw data of the wrong length.
#[verifier::loop_isolation(false)]
pub fn tensor_from_raw(data_type: i32, dims: &Vec<i64>, raw: &Vec<u8>) -> (r: Result<Tensor, TractError>)
    ensures
        r matches Ok(t) ==> t@.wf() && onnx_datum_type(data_type) == Some(t@.datum_type)
            && onnx_shape(dims@) == Some(t@.shape)
            && t@ == scalar_model(t@.datum_type, t@.shape, raw_elements(t@.datum_type, raw@, shape_product(t@.shape))),
        r is Ok <==> raw_decodable(data_type, dims@, raw@.len() as int),
{
    let dt = DatumType::from_onnx(data_type)?;
    let w = width_of(dt);
    if w == 0 {
        return Err(TractError::ParseError);
    }
    let shape = shape_from_onnx(dims)?;
    let len = raw.len();
    let n = match crate::tensor::checked_shape_product(shape.as_slice()) {
        Some(n) => n,
        None => {
            proof {
                let p = shape_product(shape@);
                assert(p * (w as int) > len) by (nonlinear_arith)
                    requires p > usize::MAX, w >= 1, len <= usize::MAX;
            }
            return Err(TractError::ParseError);
        },
    };
    if n > raw.len() / w {
        proof {
            let l = len as int;
            vstd::arithmetic::div_mod::lemma_fundamental_div_mod(l, w as int);
            let q = l / (w as int);
            assert(n * w > l) by (nonlinear_arith)
                requires n >= q + 1, l == w * q + l % (w as int), l % (w as int) < w, w >= 1;
        }
        return Err(TractError::ParseError);
    }
    proof {
        let len = raw@.len() as int;
        vstd::arithmetic::div_mod::lemma_fundamental_div_mod(len, w as int);
        let q = len / (w as int);
        assert(n * w <= len) by (nonlinear_arith)
            requires n <= q, len == w * q + len % (w as int), len % (w as int) >= 0, w >= 1;
    }
    if n * w != raw.len() {
        return Err(TractError::ParseError);
    }
    let mut values: Vec<i64> = Vec::new();
    let mut i: usize = 0;
    while i < n
        invariant
            0 <= i <= n,
            n * w == raw@.len(),
            1 <= w <= 8,
            w == raw_width(dt),
            values@.len() == i,
            forall|j: int| 0 <= j < i ==> #[trigger] values@[j] == raw_elements(dt, raw@, n as int)[j],
            forall|j: int| 0 <= j < i ==> in_range(dt, #[trigger] values@[j] as int),
        decreases n - i,
    {
        proof {
            assert((i + 1) * w <= n * w) by (nonlinear_arith) requires i < n, w >= 1;
            assert((i + 1) * w == i * w + w) by (nonlinear_arith);
        }
        let v = read_le(raw, i * w, w);
        proof { lemma_le_bound(raw@, (i * w) as int, w as int); }
        values.push(element_of(dt, v));
        i += 1;
    }
    proof {
        assert(values@ =~= raw_elements(dt, raw@, n as int));
    }
    Tensor::from_scalars(dt, shape, values)
}

/// `w` bytes hold a value below `256^w`.
proof fn lemma_le_bound(b: Seq<u8>, s: int, w: int)
    requires
        0 <= w,
    ensures
        0 <= le_value(b, s, w) < pow256(w),
    decreases w,
{
    if w > 0 {
        lemma_le_bound(b, s + 1, w - 1);
    }
}

} // verus!
