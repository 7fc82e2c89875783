use vstd::prelude::*;
use vstd::arithmetic::div_mod::{
    lemma_fundamental_div_mod_converse_div,
    lemma_fundamental_div_mod_converse_mod,
    lemma_div_pos_is_pos,
    lemma_multiply_divide_lt,
};
use vstd::arithmetic::mul::lemma_mul_is_commutative;
use crate::render::{RenderRequest, render_row};
use crate::reassemble::{RenderError, byte_rows_view, image_index, to_index_row};

verus! {

/// The byte stream that the indexed-color image encoder produces for the
/// given dimensions, palette and row-major palette-index pixel bytes.
pub uninterp spec fn png_bytes_of(width: int, height: int, palette: Seq<u8>, data: Seq<u8>) -> Seq<
    u8,
>;

/// The rows form a full pixel grid: one row per output row, one byte per pixel.
pub open spec fn grid_ok(m: Seq<Seq<u8>>, width: int, height: int) -> bool {
    &&& m.len() == height
    &&& forall|y: int| 0 <= y < m.len() ==> (#[trigger] m[y]).len() == width
}

/// The rows of a grid flattened into row-major order.
pub open spec fn flat_spec(m: Seq<Seq<u8>>, width: nat) -> Seq<u8> {
    Seq::new(m.len() * width, |k: int| m[k / width as int][k % width as int])
}

/// Relies on the png crate's indexed-color encoder — png::Encoder::new with
/// ColorType::Indexed and BitDepth::Eight, Encoder::set_palette,
/// Encoder::write_header, Writer::write_image_data and Writer::finish: the
/// byte stream it writes is a function of the dimensions, palette and pixel
/// bytes alone, and None is returned where the encoder reports an error.
/// Success is owed for nonzero dimensions, a set palette and exactly
/// width * height pixel bytes: write_header rejects only a zero dimension or
/// an invalid depth/color pairing (Indexed with eight-bit depth is valid),
/// write_image_data rejects only a missing palette or a pixel-buffer size
/// other than width * height, and every write goes to an in-memory buffer,
/// which cannot fail.
#[verifier::external_body]
fn encode_png(width: u32, height: u32, palette: &Vec<u8>, data: &Vec<u8>) -> (r: Option<Vec<u8>>)
    ensures
        r matches Some(b) ==> b@ == png_bytes_of(width as int, height as int, palette@, data@),
        (1 <= width && 1 <= height && palette@.len() == 768 && data@.len() == width as int
            * height as int) ==> r is Some,
{
    let mut out: Vec<u8> = Vec::new();
    let mut enc = png::Encoder::new(&mut out, width, height);
    enc.set_color(png::ColorType::Indexed);
    enc.set_depth(png::BitDepth::Eight);
    enc.set_palette(palette.clone());
    let mut writer = enc.write_header().ok()?;
    writer.write_image_data(data).ok()?;
    writer.finish().ok()?;
    Some(out)
}

/// Flattens height rows of width bytes each into one row-major byte vector.
pub fn flatten_rows(rows: &Vec<Vec<u8>>, width: u32) -> (flat: Vec<u8>)
    requires
        1 <= width,
        forall|y: int| 0 <= y < rows@.len() ==> (#[trigger] rows@[y])@.len() == width as int,
        rows@.len() * width as int <= usize::MAX as int,
    ensures
        flat@ == flat_spec(byte_rows_view(rows@), width as nat),
{
    let mut flat: Vec<u8> = Vec::new();
    let mut y: usize = 0;
    while y < rows.len()
        invariant
            1 <= width,
            forall|k: int| 0 <= k < rows@.len() ==> (#[trigger] rows@[k])@.len() == width as int,
            rows@.len() * width as int <= usize::MAX as int,
            y <= rows@.len(),
            flat@.len() == y as int * width as int,
            forall|k: int|
                0 <= k < flat@.len() ==> flat@[k] == rows@[k / width as int]@[k % width as int],
        decreases rows@.len() - y,
    {
        let row: &Vec<u8> = &rows[y];
        let mut x: usize = 0;
        proof {
            assert((y as int + 1) * width as int == y as int * width as int
                + width as int) by (nonlinear_arith);
            assert((y as int + 1) * width as int <= rows@.len() * width as int) by (nonlinear_arith)
                requires
                    y as int + 1 <= rows@.len(),
                    0 < width as int,
            ;
        }
        while x < row.len()
            invariant
                1 <= width,
                forall|k: int|
                    0 <= k < rows@.len() ==> (#[trigger] rows@[k])@.len() == width as int,
                y < rows@.len(),
                row@ == rows@[y as int]@,
                x <= width as int,
                flat@.len() == y as int * width as int + x as int,
                y as int * width as int + width as int <= usize::MAX as int,
                forall|k: int|
                    0 <= k < flat@.len() ==> flat@[k] == rows@[k / width as int]@[k % width as int],
            decreases row@.len() - x,
        {
            proof {
                lemma_fundamental_div_mod_converse_div(
                    y as int * width as int + x as int,
                    width as int,
                    y as int,
                    x as int,
                );
                lemma_fundamental_div_mod_converse_mod(
                    y as int * width as int + x as int,
                    width as int,
                    y as int,
                    x as int,
                );
            }
            flat.push(row[x]);
            x = x + 1;
        }
        y = y + 1;
    }
    proof {
        let m = byte_rows_view(rows@);
        assert forall|k: int| 0 <= k < flat@.len() implies flat@[k] == flat_spec(
            m,
            width as nat,
        )[k] by {
            lemma_div_pos_is_pos(k, width as int);
            lemma_mul_is_commutative(rows@.len() as int, width as int);
            lemma_multiply_divide_lt(k, width as int, rows@.len() as int);
            assert(0 <= k / (width as int) < rows@.len());
        }
        assert(flat@ =~= flat_spec(byte_rows_view(rows@), width as nat));
    }
    flat
}

/// Encodes the palette and the ordered palette-index rows as an
/// indexed-color image byte stream: header, one 256-entry RGB palette
/// block, then the rows in top-to-bottom order. Structural faults — a
/// palette that is not 256 RGB triples, or a row grid that is not height
/// rows of width bytes — are fatal, as is any failure the encoder reports;
/// there is no partial output.
pub fn encode_indexed_image(width: u32, height: u32, palette: &Vec<u8>, rows: &Vec<Vec<u8>>) -> (r:
    Result<Vec<u8>, RenderError>)
    requires
        height as int * width as int <= usize::MAX as int,
    ensures
        r == Err::<Vec<u8>, RenderError>(RenderError::PaletteLengthMismatch) <==> palette@.len()
            != 768,
        palette@.len() == 768 ==> (r == Err::<Vec<u8>, RenderError>(RenderError::RowLengthMismatch)
            <==> (width == 0 || !grid_ok(byte_rows_view(rows@), width as int, height as int))),
        r matches Ok(b) ==> palette@.len() == 768 && 1 <= width && grid_ok(
            byte_rows_view(rows@),
            width as int,
            height as int,
        ) && b@ == png_bytes_of(
            width as int,
            height as int,
            palette@,
            flat_spec(byte_rows_view(rows@), width as nat),
        ),
        r is Err ==> (r == Err::<Vec<u8>, RenderError>(RenderError::PaletteLengthMismatch) || r
            == Err::<Vec<u8>, RenderError>(RenderError::RowLengthMismatch) || r == Err::<
            Vec<u8>,
            RenderError,
        >(RenderError::EncodeFailed)),
        (palette@.len() == 768 && 1 <= width && grid_ok(
            byte_rows_view(rows@),
            width as int,
            height as int,
        )) ==> (r is Ok || r == Err::<Vec<u8>, RenderError>(RenderError::EncodeFailed)),
        (palette@.len() == 768 && 1 <= width && 1 <= height && grid_ok(
            byte_rows_view(rows@),
            width as int,
            height as int,
        )) ==> r is Ok,
{
    if palette.len() != 768 {
        return Err(RenderError::PaletteLengthMismatch);
    }
    if width == 0 {
        return Err(RenderError::RowLengthMismatch);
    }
    if rows.len() != height as usize {
        return Err(RenderError::RowLengthMismatch);
    }
    let mut y: usize = 0;
    while y < rows.len()
        invariant
            palette@.len() == 768,
            1 <= width,
            rows@.len() == height as int,
            y <= rows@.len(),
            forall|k: int| 0 <= k < y as int ==> (#[trigger] rows@[k])@.len() == width as int,
        decreases rows@.len() - y,
    {
        if rows[y].len() != width as usize {
            proof {
                assert(byte_rows_view(rows@)[y as int].len() != width as int);
            }
            return Err(RenderError::RowLengthMismatch);
        }
        y = y + 1;
    }
    let flat: Vec<u8> = flatten_rows(rows, width);
    proof {
        assert(flat@.len() == (height as int) * (width as int));
        lemma_mul_is_commutative(height as int, width as int);
    }
    match encode_png(width, height, palette, &flat) {
        Some(b) => Ok(b),
        None => Err(RenderError::EncodeFailed),
    }
}

/// Renders a complete image sequentially: each row rendered in canonical
/// order, counts reduced to palette indices, the given palette and the rows
/// handed to the encoder. A well-formed request always yields an image.
pub fn render_image(req: &RenderRequest, palette: &Vec<u8>) -> (r: Result<Vec<u8>, RenderError>)
    requires
        req.wf(),
        palette@.len() == 768,
        req.height as int * req.width as int <= usize::MAX as int,
    ensures
        r is Ok,
        r matches Ok(b) ==> b@ == png_bytes_of(
            req.width as int,
            req.height as int,
            palette@,
            flat_spec(image_index(*req), req.width as nat),
        ),
{
    let mut rows: Vec<Vec<u8>> = Vec::new();
    let mut y: u32 = 0;
    while y < req.height
        invariant
            req.wf(),
            y <= req.height,
            rows@.len() == y as int,
            forall|k: int| 0 <= k < y as int ==> (#[trigger] rows@[k])@ == image_index(*req)[k],
        decreases req.height - y,
    {
        let counts: Vec<u32> = render_row(req, y);
        let bytes: Vec<u8> = to_index_row(&counts);
        proof {
            assert(bytes@ =~= image_index(*req)[y as int]);
        }
        rows.push(bytes);
        y = y + 1;
    }
    proof {
        assert(byte_rows_view(rows@) =~~= image_index(*req));
    }
    match encode_indexed_image(req.width, req.height, palette, &rows) {
        Ok(b) => Ok(b),
        Err(_) => Err(RenderError::EncodeFailed),
    }
}

} // verus!
