use vstd::prelude::*;
use vstd::pervasive::VecAdditionalExecFns;
use crate::render::{RenderRequest, RowResult, result_canonical};

verus! {

/// Failures that abort a render call: there is no partial output.
#[derive(Clone, Copy, Debug, PartialEq, Eq, Structural)]
pub enum RenderError {
    /// The number of collected rows differs from the requested height.
    RowCountMismatch,
    /// A collected row's index is not below the requested height.
    RowIndexOutOfRange,
    /// Two collected rows share the same row index.
    DuplicateRow,
    /// A collected row's pixel count differs from the requested width.
    RowLengthMismatch,
    /// The palette handed to the encoder is not 256 RGB triples.
    PaletteLengthMismatch,
    /// The image encoder reported a failure.
    EncodeFailed,
}

/// Palette-index row of an iteration-count row: each count reduced mod 256.
pub open spec fn index_row(c: Seq<u32>) -> Seq<u8> {
    Seq::new(c.len(), |x: int| (c[x] % 256) as u8)
}

/// Every collected row index lies below the requested height.
pub open spec fn all_rows_in_range(s: Seq<RowResult>, height: int) -> bool {
    forall|j: int| 0 <= j < s.len() ==> (#[trigger] s[j]).row < height
}

/// No two collected rows share a row index.
pub open spec fn no_duplicate_rows(s: Seq<RowResult>) -> bool {
    forall|j: int, k: int|
        0 <= j < s.len() && 0 <= k < s.len() && j != k ==> (#[trigger] s[j]).row != (
        #[trigger] s[k]).row
}

/// Every collected row holds exactly one count per requested column.
pub open spec fn all_rows_full(s: Seq<RowResult>, width: int) -> bool {
    forall|j: int| 0 <= j < s.len() ==> (#[trigger] s[j]).counts@.len() == width
}

/// Some collected result is keyed r and reduces to the given byte row.
pub open spec fn has_row(s: Seq<RowResult>, r: int, bytes: Seq<u8>) -> bool {
    exists|j: int|
        0 <= j < s.len() && (#[trigger] s[j]).row == r && bytes == index_row(s[j].counts@)
}

/// out is a correct reassembly of s: it has one row per requested row, and
/// row r is the palette-index reduction of the collected result keyed r.
pub open spec fn reassembled(s: Seq<RowResult>, height: int, out: Seq<Seq<u8>>) -> bool {
    &&& out.len() == height
    &&& forall|r: int| 0 <= r < height ==> has_row(s, r, #[trigger] out[r])
}

/// An error names a condition that really holds of the collected rows.
pub open spec fn reassembly_error_cause(
    s: Seq<RowResult>,
    width: int,
    height: int,
    e: RenderError,
) -> bool {
    match e {
        RenderError::RowCountMismatch => s.len() != height,
        RenderError::RowIndexOutOfRange => !all_rows_in_range(s, height),
        RenderError::DuplicateRow => !no_duplicate_rows(s),
        RenderError::RowLengthMismatch => !all_rows_full(s, width),
        _ => false,
    }
}

/// View of a vector of byte rows as a matrix of sequences.
pub open spec fn byte_rows_view(m: Seq<Vec<u8>>) -> Seq<Seq<u8>> {
    m.map_values(|r: Vec<u8>| r@)
}

/// Number of filled slots.
spec fn count_some(s: Seq<Option<Vec<u8>>>) -> nat
    decreases s.len(),
{
    if s.len() == 0 {
        0
    } else {
        count_some(s.drop_last()) + if s.last() is Some {
            1nat
        } else {
            0nat
        }
    }
}

proof fn lemma_count_some_le(s: Seq<Option<Vec<u8>>>)
    ensures
        count_some(s) <= s.len(),
    decreases s.len(),
{
    if s.len() > 0 {
        lemma_count_some_le(s.drop_last());
    }
}

proof fn lemma_count_some_update(s: Seq<Option<Vec<u8>>>, i: int, v: Vec<u8>)
    requires
        0 <= i < s.len(),
        s[i] is None,
    ensures
        count_some(s.update(i, Some(v))) == count_some(s) + 1,
    decreases s.len(),
{
    let t = s.update(i, Some(v));
    if i == s.len() - 1 {
        assert(t.drop_last() =~= s.drop_last());
        assert(t.last() == Some(v));
        assert(s.last() is None);
    } else {
        assert(t.drop_last() =~= s.drop_last().update(i, Some(v)));
        lemma_count_some_update(s.drop_last(), i, v);
        assert(t.last() == s.last());
    }
}

proof fn lemma_count_some_full(s: Seq<Option<Vec<u8>>>)
    requires
        count_some(s) == s.len(),
    ensures
        forall|i: int| 0 <= i < s.len() ==> (#[trigger] s[i]) is Some,
    decreases s.len(),
{
    if s.len() > 0 {
        lemma_count_some_le(s.drop_last());
        assert(s.last() is Some);
        lemma_count_some_full(s.drop_last());
        assert forall|i: int| 0 <= i < s.len() implies (#[trigger] s[i]) is Some by {
            if i < s.len() - 1 {
                assert(s.drop_last()[i] is Some);
            }
        }
    }
}

/// Reduces one row of iteration counts to one byte per pixel:
/// the palette index is the count modulo 256.
pub fn to_index_row(c: &Vec<u32>) -> (r: Vec<u8>)
    ensures
        r@ == index_row(c@),
{
    let mut r: Vec<u8> = Vec::new();
    let mut x: usize = 0;
    while x < c.len()
        invariant
            x <= c@.len(),
            r@.len() == x as int,
            forall|k: int| 0 <= k < r@.len() ==> r@[k] == (#[trigger] c@[k] % 256) as u8,
        decreases c@.len() - x,
    {
        r.push((c[x] % 256) as u8);
        x = x + 1;
    }
    proof {
        assert(r@ =~= index_row(c@));
    }
    r
}

/// Restores canonical row order: places each collected row at its integer
/// row index, reducing counts to palette indices, and fails — with no
/// partial output — where the collection does not cover each of the height
/// rows exactly once with full-width rows.
pub fn reassemble(results: &Vec<RowResult>, width: u32, height: u32) -> (r: Result<
    Vec<Vec<u8>>,
    RenderError,
>)
    ensures
        r is Ok <==> (results@.len() == height as int && all_rows_in_range(
            results@,
            height as int,
        ) && no_duplicate_rows(results@) && all_rows_full(results@, width as int)),
        r matches Ok(out) ==> reassembled(results@, height as int, byte_rows_view(out@)),
        r matches Ok(out) ==> out@.len() == height as int && forall|i: int|
            0 <= i < out@.len() ==> (#[trigger] out@[i])@.len() == width as int,
        r matches Err(e) ==> reassembly_error_cause(results@, width as int, height as int, e),
{
    if results.len() != height as usize {
        return Err(RenderError::RowCountMismatch);
    }
    let mut slots: Vec<Option<Vec<u8>>> = Vec::new();
    let mut k: usize = 0;
    while k < height as usize
        invariant
            k <= height as usize,
            slots@.len() == k as int,
            count_some(slots@) == 0,
            forall|i: int| 0 <= i < slots@.len() ==> (#[trigger] slots@[i]) is None,
        decreases height as usize - k,
    {
        proof {
            assert(slots@.push(None).drop_last() =~= slots@);
        }
        slots.push(None);
        k = k + 1;
    }
    let ghost s = results@;
    let mut j: usize = 0;
    while j < results.len()
        invariant
            s == results@,
            s.len() == height as int,
            j <= s.len(),
            slots@.len() == height as int,
            count_some(slots@) == j as int,
            no_duplicate_rows(s.take(j as int)),
            forall|r: int|
                0 <= r < height as int ==> ((#[trigger] slots@[r]) is Some <==> exists|t: int|
                    0 <= t < j as int && (#[trigger] s[t]).row == r),
            forall|t: int|
                0 <= t < j as int ==> (#[trigger] s[t]).row < height && s[t].counts@.len()
                    == width as int && slots@[s[t].row as int] is Some && slots@[s[t].row as int].unwrap()@
                    == index_row(s[t].counts@),
        decreases s.len() - j,
    {
        let row: u32 = results[j].row;
        if row >= height {
            proof {
                assert(!all_rows_in_range(s, height as int));
            }
            return Err(RenderError::RowIndexOutOfRange);
        }
        if results[j].counts.len() != width as usize {
            proof {
                assert(!all_rows_full(s, width as int));
            }
            return Err(RenderError::RowLengthMismatch);
        }
        if slots[row as usize].is_some() {
            proof {
                let t = choose|t: int| 0 <= t < j as int && (#[trigger] s[t]).row == row as int;
                assert(s[t].row == s[j as int].row && t != j as int);
                assert(!no_duplicate_rows(s));
            }
            return Err(RenderError::DuplicateRow);
        }
        let bytes: Vec<u8> = to_index_row(&results[j].counts);
        proof {
            lemma_count_some_update(slots@, row as int, bytes);
            assert(s.take(j as int + 1) =~= s.take(j as int).push(s[j as int]));
            assert forall|t1: int, t2: int|
                0 <= t1 < j as int + 1 && 0 <= t2 < j as int + 1 && t1 != t2 implies (#[trigger] s.take(
                j as int + 1,
            )[t1]).row != (#[trigger] s.take(j as int + 1)[t2]).row by {
                if t1 == j as int || t2 == j as int {
                    let to = if t1 == j as int {
                        t2
                    } else {
                        t1
                    };
                    if s[to].row == row {
                        assert(exists|t: int| 0 <= t < j as int && (#[trigger] s[t]).row == row as int);
                    }
                }
            }
        }
        slots.set(row as usize, Some(bytes));
        j = j + 1;
    }
    proof {
        lemma_count_some_full(slots@);
        assert(s.take(j as int) =~= s);
    }
    let mut out: Vec<Vec<u8>> = Vec::new();
    let mut r: usize = 0;
    while r < height as usize
        invariant
            slots@.len() == height as int,
            forall|i: int| 0 <= i < slots@.len() ==> (#[trigger] slots@[i]) is Some,
            r <= height as usize,
            out@.len() == r as int,
            forall|i: int| 0 <= i < out@.len() ==> (#[trigger] out@[i])@ == slots@[i].unwrap()@,
        decreases height as usize - r,
    {
        match &slots[r] {
            Some(v) => {
                let row_bytes: Vec<u8> = v.clone();
                proof {
                    assert(row_bytes@ =~= slots@[r as int].unwrap()@);
                }
                out.push(row_bytes);
            },
            None => {
                proof {
                    assert(false);
                }
                return Err(RenderError::RowCountMismatch);
            },
        }
        r = r + 1;
    }
    proof {
        assert forall|rr: int| 0 <= rr < height as int implies has_row(
            s,
            rr,
            #[trigger] byte_rows_view(out@)[rr],
        ) by {
            let t = choose|t: int| 0 <= t < s.len() && (#[trigger] s[t]).row == rr;
            assert(byte_rows_view(out@)[rr] == out@[rr]@);
            assert(out@[rr]@ == slots@[rr].unwrap()@);
            assert(slots@[s[t].row as int].unwrap()@ == index_row(s[t].counts@));
            assert(0 <= t < s.len() && s[t].row == rr && byte_rows_view(out@)[rr] == index_row(
                s[t].counts@,
            ));
        }
        assert forall|i: int| 0 <= i < out@.len() implies (#[trigger] out@[i])@.len()
            == width as int by {
            let t = choose|t: int|
                0 <= t < s.len() && (#[trigger] s[t]).row == i && byte_rows_view(out@)[i]
                    == index_row(s[t].counts@);
            assert(has_row(s, i, byte_rows_view(out@)[i]));
            assert(byte_rows_view(out@)[i] == out@[i]@);
        }
    }
    Ok(out)
}

/// Reassembling the results of all row jobs of a request — collected in any
/// completion order — restores exactly the image that a sequential render
/// computes: the palette index of each pixel is its iteration count mod 256.
pub proof fn lemma_reassembly_canonical(req: RenderRequest, s: Seq<RowResult>, out: Seq<Seq<u8>>)
    requires
        forall|j: int| 0 <= j < s.len() ==> result_canonical(req, #[trigger] s[j]),
        reassembled(s, req.height as int, out),
    ensures
        out =~~= image_index(req),
{
    assert forall|y: int| 0 <= y < out.len() implies out[y] =~= image_index(req)[y] by {
        let j = choose|j: int|
            0 <= j < s.len() && (#[trigger] s[j]).row == y && out[y] == index_row(s[j].counts@);
        assert(result_canonical(req, s[j]));
        assert forall|x: int| 0 <= x < out[y].len() implies out[y][x] == image_index(req)[y][x] by {
            assert(s[j].counts@[x] as nat == req.pixel_count(x, y));
        }
    }
}

/// The image as palette-index rows: one row per output row, one byte per
/// pixel, each byte the pixel's iteration count reduced mod 256.
pub open spec fn image_index(req: RenderRequest) -> Seq<Seq<u8>> {
    Seq::new(
        req.height as nat,
        |y: int| Seq::new(req.width as nat, |x: int| req.pixel_index(x, y) as u8),
    )
}

} // verus!
