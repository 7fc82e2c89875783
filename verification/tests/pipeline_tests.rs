use mandelbrot::fixed::SCALE;
use mandelbrot::palette::{gen_palette, gen_palette_random};
use mandelbrot::render::{execute_job, make_row_jobs, render_counts, RenderRequest};
use mandelbrot::reassemble::reassemble;
use mandelbrot::encode::{encode_indexed_image, render_image};

fn default_viewport_request(width: u32, height: u32, max_iter: u32) -> RenderRequest {
    RenderRequest {
        max_iter,
        width,
        height,
        re_min: -2 * SCALE,
        re_max: SCALE,
        im_min: -SCALE,
        im_max: SCALE,
    }
}

fn decode_png(bytes: &[u8]) -> (png::OutputInfo, Vec<u8>, Vec<u8>) {
    let decoder = png::Decoder::new(std::io::Cursor::new(bytes));
    let mut reader = decoder.read_info().unwrap();
    let palette: Vec<u8> = reader.info().palette.clone().unwrap().into_owned();
    let mut buf = vec![0u8; reader.output_buffer_size().unwrap()];
    let info = reader.next_frame(&mut buf).unwrap();
    buf.truncate(info.buffer_size());
    (info, buf, palette)
}

fn expected_pixels(req: &RenderRequest) -> Vec<u8> {
    // Sequential reference: every pixel's iteration count reduced mod 256.
    let counts = render_counts(req);
    let mut flat: Vec<u8> = Vec::new();
    for row in counts {
        for c in row {
            flat.push((c % 256) as u8);
        }
    }
    flat
}

#[test]
fn single_pixel_origin_has_index_one() {
    // A 1x1 render of the degenerate viewport at the origin with cap 1:
    // one iteration is performed, and 1 mod 256 = 1.
    let req = RenderRequest {
        max_iter: 1,
        width: 1,
        height: 1,
        re_min: 0,
        re_max: 0,
        im_min: 0,
        im_max: 0,
    };
    let counts = render_counts(&req);
    assert_eq!(counts, vec![vec![1u32]]);
    let palette = gen_palette(2, 4, 6);
    let bytes = render_image(&req, &palette).unwrap();
    let (info, pixels, _) = decode_png(&bytes);
    assert_eq!(info.width, 1);
    assert_eq!(info.height, 1);
    assert_eq!(pixels, vec![1u8]);
}

#[test]
fn round_trip_concurrent_order_equals_sequential() {
    // Executing the row jobs in reversed completion order, reassembling and
    // encoding yields exactly the pixels a direct sequential render gives.
    let req = default_viewport_request(16, 12, 50);
    let jobs = make_row_jobs(&req);
    assert_eq!(jobs.len(), 12);
    let mut results = Vec::new();
    for job in jobs.iter().rev() {
        results.push(execute_job(job));
    }
    let rows = reassemble(&results, req.width, req.height).unwrap();
    let palette = gen_palette(1, 1, 1);
    let bytes = encode_indexed_image(req.width, req.height, &palette, &rows).unwrap();
    let (info, pixels, decoded_palette) = decode_png(&bytes);
    assert_eq!(info.width, 16);
    assert_eq!(info.height, 12);
    assert_eq!(decoded_palette, palette);
    assert_eq!(pixels, expected_pixels(&req));
}

#[test]
fn scenario_800_by_600_header() {
    // The classic full view: the header reports 800x600, indexed color at
    // 8-bit depth, with one palette of 256 RGB triples.
    let req = default_viewport_request(800, 600, 300);
    let palette = gen_palette_random();
    let bytes = render_image(&req, &palette).unwrap();
    let decoder = png::Decoder::new(std::io::Cursor::new(&bytes[..]));
    let reader = decoder.read_info().unwrap();
    let info = reader.info();
    assert_eq!(info.width, 800);
    assert_eq!(info.height, 600);
    assert_eq!(info.color_type, png::ColorType::Indexed);
    assert_eq!(info.bit_depth, png::BitDepth::Eight);
    assert_eq!(info.palette.as_ref().unwrap().len(), 256 * 3);
}

#[test]
fn identical_requests_give_identical_pixels() {
    // Two renders of one request with different random palettes give the
    // same pixel bytes: the counts do not depend on the palette.
    let req = default_viewport_request(24, 18, 40);
    let p1 = gen_palette_random();
    let p2 = gen_palette(7, 0, 13);
    let b1 = render_image(&req, &p1).unwrap();
    let b2 = render_image(&req, &p2).unwrap();
    let (_, pixels1, _) = decode_png(&b1);
    let (_, pixels2, _) = decode_png(&b2);
    assert_eq!(pixels1, pixels2);
    assert_eq!(pixels1, expected_pixels(&req));
}

#[test]
fn render_counts_matches_request_shape() {
    let req = default_viewport_request(9, 7, 30);
    let counts = render_counts(&req);
    assert_eq!(counts.len(), 7);
    assert!(counts.iter().all(|r| r.len() == 9));
    assert!(counts.iter().flatten().all(|&c| c <= 30));
}

#[test]
fn row_counts_known_values() {
    // Width 3 over [-2, 1] gives columns at -2, -1 and 0: the first is on
    // the escape radius (count 0), the other two never escape (count = cap).
    let req = RenderRequest {
        max_iter: 5,
        width: 3,
        height: 1,
        re_min: -2 * SCALE,
        re_max: SCALE,
        im_min: 0,
        im_max: 0,
    };
    let counts = render_counts(&req);
    assert_eq!(counts, vec![vec![0u32, 5, 5]]);
}
