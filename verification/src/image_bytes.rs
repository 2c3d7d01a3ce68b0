//! Conversions between matrices and the grayscale byte planes that
//! the image adapter persists: a binary mask maps each cell `c` to the
//! byte `c * 255`, a weight matrix maps each cell `c` to the byte
//! `c + 128` clamped to the byte range, and loading inverts the
//! centering.  Decoding, encoding and file access stay outside; these
//! functions state exactly which bytes stand for which cells.

use vstd::prelude::*;

use crate::matrix::bounded;
use crate::matrix::is_mask;
use crate::matrix::Matrix;
use crate::matrix::SHAPE_BOUND;

verus! {

/// `v` clamped to the byte range `[0, 255]`.
pub open spec fn clamp_byte(v: int) -> int {
    if v < 0 {
        0
    } else if v > 255 {
        255
    } else {
        v
    }
}

/// The byte plane that persists a weight matrix: each cell centered
/// up by 128 and clamped to the byte range.
pub open spec fn weight_bytes(w: Seq<int>) -> Seq<int> {
    Seq::new(400, |k: int| clamp_byte(w[k] + 128))
}

/// The weight matrix read back from a persisted byte plane: each red
/// channel byte centered down by 128.
pub open spec fn weights_of_bytes(b: Seq<int>) -> Seq<int> {
    Seq::new(400, |k: int| b[k] - 128)
}

/// Encodes a weight matrix as its grayscale byte plane.
pub fn weights_to_bytes(w: &Matrix) -> (r: Vec<u8>)
    requires
        w.wf(),
    ensures
        r@.len() == 400,
        forall|k: int| 0 <= k < 400 ==> #[trigger] r@[k] as int == weight_bytes(w@)[k],
{
    let mut bytes: Vec<u8> = Vec::new();
    let mut k: usize = 0;
    while k < 400
        invariant
            k <= 400,
            w.wf(),
            bytes@.len() == k,
            forall|j: int| 0 <= j < k ==> #[trigger] bytes@[j] as int == weight_bytes(w@)[j],
        decreases 400 - k,
    {
        let v = w.at(k);
        let b: u8 = if v < -128 {
            0
        } else if v > 127 {
            255
        } else {
            (v + 128) as u8
        };
        bytes.push(b);
        k = k + 1;
    }
    bytes
}

/// Decodes a persisted weight byte plane back into a weight matrix,
/// each cell in `[-128, 127]`.
pub fn weights_from_bytes(bytes: &Vec<u8>) -> (r: Matrix)
    requires
        bytes@.len() == 400,
    ensures
        r.wf(),
        forall|k: int|
            0 <= k < 400 ==> #[trigger] r@[k] == weights_of_bytes(
                bytes@.map_values(|v: u8| v as int),
            )[k],
        bounded(r@, 128),
{
    let mut cells: Vec<i64> = Vec::new();
    let mut k: usize = 0;
    while k < 400
        invariant
            k <= 400,
            bytes@.len() == 400,
            cells@.len() == k,
            forall|j: int| 0 <= j < k ==> #[trigger] cells@[j] as int == bytes@[j] as int - 128,
        decreases 400 - k,
    {
        let v: i64 = bytes[k] as i64 - 128;
        cells.push(v);
        k = k + 1;
    }
    Matrix::from_cells(cells)
}

/// A grayscale image, one byte per pixel, as a matrix of raw pixel
/// values in `[0, 255]`.
pub fn image_from_bytes(bytes: &Vec<u8>) -> (r: Matrix)
    requires
        bytes@.len() == 400,
    ensures
        r.wf(),
        forall|k: int| 0 <= k < 400 ==> #[trigger] r@[k] == bytes@[k] as int,
        bounded(r@, SHAPE_BOUND as int),
{
    let mut cells: Vec<i64> = Vec::new();
    let mut k: usize = 0;
    while k < 400
        invariant
            k <= 400,
            bytes@.len() == 400,
            cells@.len() == k,
            forall|j: int| 0 <= j < k ==> #[trigger] cells@[j] as int == bytes@[j] as int,
        decreases 400 - k,
    {
        let v: i64 = bytes[k] as i64;
        cells.push(v);
        k = k + 1;
    }
    Matrix::from_cells(cells)
}

/// Encodes a binary mask as its grayscale byte plane: 0 stays 0 and 1
/// becomes 255.
pub fn mask_to_bytes(m: &Matrix) -> (r: Vec<u8>)
    requires
        m.wf(),
        is_mask(m@),
    ensures
        r@.len() == 400,
        forall|k: int| 0 <= k < 400 ==> #[trigger] r@[k] as int == m@[k] * 255,
{
    let mut bytes: Vec<u8> = Vec::new();
    let mut k: usize = 0;
    while k < 400
        invariant
            k <= 400,
            m.wf(),
            is_mask(m@),
            bytes@.len() == k,
            forall|j: int| 0 <= j < k ==> #[trigger] bytes@[j] as int == m@[j] * 255,
        decreases 400 - k,
    {
        let v = m.at(k);
        let b: u8 = if v == 1 {
            255
        } else {
            0
        };
        bytes.push(b);
        k = k + 1;
    }
    bytes
}

/// A matrix of raw pixel bytes written back as exactly those bytes:
/// on the normalized scale each pixel `v / 255` maps to the byte
/// `v / 255 * 255`, which is the pixel it came from.
pub fn pixels_to_bytes(m: &Matrix) -> (r: Vec<u8>)
    requires
        m.wf(),
        forall|k: int| 0 <= k < 400 ==> 0 <= #[trigger] m@[k] <= 255,
    ensures
        r@.len() == 400,
        forall|k: int| 0 <= k < 400 ==> #[trigger] r@[k] as int == m@[k],
{
    let mut bytes: Vec<u8> = Vec::new();
    let mut k: usize = 0;
    while k < 400
        invariant
            k <= 400,
            m.wf(),
            forall|j: int| 0 <= j < 400 ==> 0 <= #[trigger] m@[j] <= 255,
            bytes@.len() == k,
            forall|j: int| 0 <= j < k ==> #[trigger] bytes@[j] as int == m@[j],
        decreases 400 - k,
    {
        let v = m.at(k);
        bytes.push(v as u8);
        k = k + 1;
    }
    bytes
}

/// Persisting a weight matrix and reading it back recovers the matrix
/// exactly, for every matrix whose cells lie in `[-128, 127]`: with
/// integer cells the `+128` / `-128` centering round trip loses
/// nothing inside that range.
pub proof fn lemma_weight_bytes_round_trip(w: Seq<int>)
    requires
        w.len() == 400,
        forall|k: int| 0 <= k < 400 ==> -128 <= #[trigger] w[k] <= 127,
    ensures
        weights_of_bytes(weight_bytes(w)) == w,
{
    assert(weights_of_bytes(weight_bytes(w)) =~= w);
}

} // verus!
