use vstd::prelude::*;
use crate::fixed::{in_coord_range, coord_in_range};
use crate::escape::{escape_iters, escape_iterations};
use vstd::arithmetic::div_mod::{lemma_fundamental_div_mod, lemma_div_pos_is_pos, lemma_mod_bound};
use vstd::arithmetic::mul::{lemma_mul_inequality, lemma_mul_nonnegative};

verus! {

/// A render request: a viewport in fixed-point coordinates, an iteration
/// cap, and the output size in pixels. Immutable once constructed.
#[derive(Clone, Copy, Debug, PartialEq, Eq, Structural)]
pub struct RenderRequest {
    pub max_iter: u32,
    pub width: u32,
    pub height: u32,
    pub re_min: i64,
    pub re_max: i64,
    pub im_min: i64,
    pub im_max: i64,
}

impl RenderRequest {
    /// The caller's obligations: at least one pixel along each axis, an
    /// ordered viewport, and bounds within the evaluator's coordinate range.
    pub open spec fn wf(self) -> bool {
        &&& 1 <= self.width
        &&& 1 <= self.height
        &&& in_coord_range(self.re_min as int)
        &&& in_coord_range(self.re_max as int)
        &&& in_coord_range(self.im_min as int)
        &&& in_coord_range(self.im_max as int)
        &&& self.re_min <= self.re_max
        &&& self.im_min <= self.im_max
    }

    /// Fixed-point width of one pixel column.
    pub open spec fn re_step(self) -> int {
        (self.re_max - self.re_min) / (self.width as int)
    }

    /// Fixed-point height of one pixel row.
    pub open spec fn im_step(self) -> int {
        (self.im_max - self.im_min) / (self.height as int)
    }

    /// Real coordinate of pixel column xp.
    pub open spec fn col_coord(self, xp: int) -> int {
        self.re_min + xp * self.re_step()
    }

    /// Imaginary coordinate of pixel row yp.
    pub open spec fn row_coord(self, yp: int) -> int {
        self.im_min + yp * self.im_step()
    }

    /// Escape-time iteration count of the pixel at column xp, row yp.
    pub open spec fn pixel_count(self, xp: int, yp: int) -> nat {
        escape_iters(self.col_coord(xp), self.row_coord(yp), self.max_iter as nat)
    }

    /// Palette index of the pixel at column xp, row yp.
    pub open spec fn pixel_index(self, xp: int, yp: int) -> int {
        self.pixel_count(xp, yp) as int % 256
    }

    /// Runtime test of the caller's obligations, for callers that take the
    /// request fields from outside input.
    pub fn check(&self) -> (r: bool)
        ensures
            r == self.wf(),
    {
        1 <= self.width && 1 <= self.height && coord_in_range(self.re_min) && coord_in_range(
            self.re_max,
        ) && coord_in_range(self.im_min) && coord_in_range(self.im_max) && self.re_min
            <= self.re_max && self.im_min <= self.im_max
    }
}

/// Interpolating k steps of (hi - lo) / n from lo, for k at most n, stays
/// within [lo, hi].
pub proof fn lemma_interp_in_range(lo: int, hi: int, n: int, k: int)
    requires
        lo <= hi,
        1 <= n,
        0 <= k <= n,
    ensures
        0 <= k * ((hi - lo) / n),
        lo <= lo + k * ((hi - lo) / n) <= hi,
{
    let st = (hi - lo) / n;
    lemma_div_pos_is_pos(hi - lo, n);
    lemma_mul_nonnegative(k, st);
    lemma_mul_inequality(k, n, st);
    lemma_fundamental_div_mod(hi - lo, n);
    lemma_mod_bound(hi - lo, n);
    assert(n * st == st * n) by (nonlinear_arith);
}

/// Every pixel column coordinate lies within the viewport, hence in range.
pub proof fn lemma_col_coord_in_range(req: RenderRequest, xp: int)
    requires
        req.wf(),
        0 <= xp <= req.width as int,
    ensures
        req.re_min as int <= req.col_coord(xp) <= req.re_max as int,
        in_coord_range(req.col_coord(xp)),
{
    lemma_interp_in_range(req.re_min as int, req.re_max as int, req.width as int, xp);
}

/// Every pixel row coordinate lies within the viewport, hence in range.
pub proof fn lemma_row_coord_in_range(req: RenderRequest, yp: int)
    requires
        req.wf(),
        0 <= yp <= req.height as int,
    ensures
        req.im_min as int <= req.row_coord(yp) <= req.im_max as int,
        in_coord_range(req.row_coord(yp)),
{
    lemma_interp_in_range(req.im_min as int, req.im_max as int, req.height as int, yp);
}

/// Fixed-point step between adjacent pixels along one axis, given the two
/// viewport bounds and the pixel count along that axis.
pub fn axis_step(lo: i64, hi: i64, n: u32) -> (st: i64)
    requires
        in_coord_range(lo as int),
        in_coord_range(hi as int),
        lo <= hi,
        1 <= n,
    ensures
        st as int == (hi as int - lo as int) / (n as int),
        0 <= st,
{
    let span: u64 = (hi - lo) as u64;
    let st: u64 = span / (n as u64);
    proof {
        lemma_div_pos_is_pos(span as int, n as int);
        lemma_fundamental_div_mod(span as int, n as int);
        lemma_mod_bound(span as int, n as int);
        lemma_mul_inequality(1, n as int, st as int);
    }
    st as i64
}

/// One unit of work: a request narrowed to a single output row, keyed by
/// the integer row index.
#[derive(Clone, Copy, Debug)]
pub struct RowJob {
    pub request: RenderRequest,
    pub row: u32,
}

/// The completed pixels of one row, keyed by the row index of the job it
/// answers.
#[derive(Debug)]
pub struct RowResult {
    pub row: u32,
    pub counts: Vec<u32>,
}

/// A row result answers its row of the request exactly.
pub open spec fn result_canonical(req: RenderRequest, res: RowResult) -> bool {
    &&& (res.row as int) < req.height as int
    &&& res.counts@.len() == req.width as int
    &&& forall|x: int|
        0 <= x < res.counts@.len() ==> res.counts@[x] as nat == req.pixel_count(x, res.row as int)
}

/// Splits a request into one job per output row, in row order.
pub fn make_row_jobs(req: &RenderRequest) -> (jobs: Vec<RowJob>)
    requires
        req.wf(),
    ensures
        jobs@.len() == req.height as int,
        forall|y: int|
            0 <= y < jobs@.len() ==> (#[trigger] jobs@[y]).request == *req && jobs@[y].row == y,
{
    let mut jobs: Vec<RowJob> = Vec::new();
    let mut y: u32 = 0;
    while y < req.height
        invariant
            y <= req.height,
            jobs@.len() == y as int,
            forall|k: int|
                0 <= k < jobs@.len() ==> (#[trigger] jobs@[k]).request == *req && jobs@[k].row
                    == k,
        decreases req.height - y,
    {
        jobs.push(RowJob { request: *req, row: y });
        y = y + 1;
    }
    jobs
}

/// Renders one output row: the per-pixel iteration counts of row yp.
pub fn render_row(req: &RenderRequest, yp: u32) -> (counts: Vec<u32>)
    requires
        req.wf(),
        yp < req.height,
    ensures
        counts@.len() == req.width as int,
        forall|x: int|
            0 <= x < counts@.len() ==> counts@[x] as nat == req.pixel_count(x, yp as int),
{
    let istep: i64 = axis_step(req.im_min, req.im_max, req.height);
    proof {
        lemma_row_coord_in_range(*req, yp as int);
    }
    let ci: i64 = req.im_min + (yp as i64) * istep;
    let rstep: i64 = axis_step(req.re_min, req.re_max, req.width);
    let mut counts: Vec<u32> = Vec::new();
    let mut cr: i64 = req.re_min;
    let mut xp: u32 = 0;
    while xp < req.width
        invariant
            req.wf(),
            yp < req.height,
            xp <= req.width,
            rstep as int == req.re_step(),
            ci as int == req.row_coord(yp as int),
            cr as int == req.col_coord(xp as int),
            counts@.len() == xp as int,
            forall|x: int|
                0 <= x < counts@.len() ==> counts@[x] as nat == req.pixel_count(x, yp as int),
        decreases req.width - xp,
    {
        proof {
            lemma_col_coord_in_range(*req, xp as int);
            lemma_col_coord_in_range(*req, xp as int + 1);
            lemma_row_coord_in_range(*req, yp as int);
            assert((xp as int + 1) * (rstep as int) == (xp as int) * (rstep as int) + (
            rstep as int)) by (nonlinear_arith);
        }
        let c: u32 = escape_iterations(cr, ci, req.max_iter);
        counts.push(c);
        cr = cr + rstep;
        xp = xp + 1;
    }
    counts
}

/// Runs one row job to completion; exactly one result answers each job.
pub fn execute_job(job: &RowJob) -> (res: RowResult)
    requires
        job.request.wf(),
        job.row < job.request.height,
    ensures
        res.row == job.row,
        result_canonical(job.request, res),
{
    let counts: Vec<u32> = render_row(&job.request, job.row);
    RowResult { row: job.row, counts }
}

/// The matrix m is the iteration-count image of the request.
pub open spec fn counts_ok(req: RenderRequest, m: Seq<Seq<u32>>) -> bool {
    &&& m.len() == req.height as int
    &&& forall|y: int| 0 <= y < m.len() ==> (#[trigger] m[y]).len() == req.width as int
    &&& forall|y: int, x: int|
        0 <= y < m.len() && 0 <= x < m[y].len() ==> (#[trigger] m[y][x]) as nat
            == req.pixel_count(x, y)
}

/// View of a vector of row vectors as a matrix of sequences.
pub open spec fn rows_view(m: Seq<Vec<u32>>) -> Seq<Seq<u32>> {
    m.map_values(|r: Vec<u32>| r@)
}

/// Renders the whole image sequentially, row by row in canonical order.
pub fn render_counts(req: &RenderRequest) -> (m: Vec<Vec<u32>>)
    requires
        req.wf(),
    ensures
        counts_ok(*req, rows_view(m@)),
{
    let mut m: Vec<Vec<u32>> = Vec::new();
    let mut y: u32 = 0;
    while y < req.height
        invariant
            req.wf(),
            y <= req.height,
            m@.len() == y as int,
            forall|k: int| 0 <= k < m@.len() ==> (#[trigger] m@[k])@.len() == req.width as int,
            forall|k: int, x: int|
                0 <= k < m@.len() && 0 <= x < m@[k]@.len() ==> (#[trigger] m@[k]@[x]) as nat
                    == req.pixel_count(x, k),
        decreases req.height - y,
    {
        let row: Vec<u32> = render_row(req, y);
        m.push(row);
        y = y + 1;
    }
    proof {
        assert(rows_view(m@).len() == m@.len());
        assert forall|y2: int| 0 <= y2 < rows_view(m@).len() implies (#[trigger] rows_view(m@)[y2])
            =~= m@[y2]@ by {
        }
    }
    m
}

/// Two iteration-count matrices of the same request are equal: the counts
/// depend on the request alone, never on the palette or on completion order.
pub proof fn lemma_counts_deterministic(req: RenderRequest, m1: Seq<Seq<u32>>, m2: Seq<Seq<u32>>)
    requires
        counts_ok(req, m1),
        counts_ok(req, m2),
    ensures
        m1 == m2,
{
    assert forall|y: int| 0 <= y < m1.len() implies m1[y] =~= m2[y] by {
        assert(m1[y].len() == req.width as int);
        assert(m2[y].len() == req.width as int);
        assert forall|x: int| 0 <= x < m1[y].len() implies m1[y][x] == m2[y][x] by {
            assert(m1[y][x] as nat == req.pixel_count(x, y));
            assert(m2[y][x] as nat == req.pixel_count(x, y));
        }
    }
    assert(m1 =~~= m2);
}

} // verus!
