//! Supersampling and the tiled render loop.
use crate::image::Image;
use crate::options::{ConfigError, RenderOptions};
use crate::partition::split_buffer;
use core::ops::Range;
use vstd::arithmetic::div_mod::lemma_fundamental_div_mod_converse;
use vstd::prelude::*;

verus! {

/// Every pixel of `pixels` is a colour that `shade` may return for its index.
pub open spec fn shaded_by<P, F: Fn(usize) -> P>(shade: F, pixels: Seq<P>) -> bool {
    forall|i: int| 0 <= i < pixels.len() ==> shade.ensures((i as usize,), #[trigger] pixels[i])
}

/// `shade` returns one colour only for each pixel index: the render draws no
/// random numbers.
pub open spec fn is_deterministic<P, F: Fn(usize) -> P>(shade: F) -> bool {
    forall|i: usize, a: P, b: P| shade.ensures((i,), a) && shade.ensures((i,), b) ==> a == b
}

/// Two framebuffers of one size filled by the same deterministic shading
/// are identical. As `render_tiles` and `render_image` state `shaded_by`
/// whatever the number of parts, rendering with one worker or with many,
/// or rendering twice, gives the same pixels.
pub proof fn lemma_deterministic_render<P, F: Fn(usize) -> P>(shade: F, a: Seq<P>, b: Seq<P>)
    requires
        is_deterministic(shade),
        a.len() == b.len(),
        shaded_by(shade, a),
        shaded_by(shade, b),
    ensures
        a == b,
{
    assert forall|i: int| 0 <= i < a.len() implies a[i] == b[i] by {
        assert(shade.ensures((i as usize,), a[i]));
        assert(shade.ensures((i as usize,), b[i]));
    }
    assert(a =~= b);
}

/// Size of the supersample grid: `(width * ms, height * ms)`.
pub fn supersample_size(options: &RenderOptions) -> (r: (usize, usize))
    requires
        options.valid(),
    ensures
        r.0 == options.width * options.multisampling,
        r.1 == options.height * options.multisampling,
{
    proof {
        lemma_grid_bounds(options);
    }
    (options.width * options.multisampling, options.height * options.multisampling)
}

proof fn lemma_grid_bounds(options: &RenderOptions)
    requires
        options.valid(),
    ensures
        options.width * options.multisampling <= usize::MAX,
        options.height * options.multisampling <= usize::MAX,
        options.multisampling * options.multisampling <= usize::MAX,
        options.width * options.height <= usize::MAX,
{
    let w = options.width as int;
    let h = options.height as int;
    let m = options.multisampling as int;
    let a = w * m;
    let b = h * m;
    assert(a >= 1 && b >= 1) by (nonlinear_arith)
        requires w >= 2, h >= 2, m >= 1, a == w * m, b == h * m;
    assert(a * b >= a && a * b >= b) by (nonlinear_arith)
        requires a >= 1, b >= 1;
    assert((w * m) * (h * m) >= m * m) by (nonlinear_arith)
        requires w >= 2, h >= 2, m >= 1;
    assert((w * m) * (h * m) >= w * h) by (nonlinear_arith)
        requires w >= 2, h >= 2, m >= 1;
}

/// Sample `k` of the `ms x ms` block under output pixel `pixel` of an image
/// `width` pixels wide: blocks are laid out like the pixels, and samples
/// within a block row by row.
pub open spec fn supersample_of(width: nat, ms: nat, pixel: nat, k: nat) -> (int, int) {
    (((pixel % width) * ms + k % ms) as int, ((pixel / width) * ms + k / ms) as int)
}

/// Every supersample of the grid belongs to the block of exactly one pixel,
/// at exactly one place in it: the blocks split the supersample grid with
/// no gap and no overlap.
pub proof fn lemma_supersample_owner(width: nat, height: nat, ms: nat, x: nat, y: nat)
    requires
        width >= 1,
        ms >= 1,
        x < width * ms,
        y < height * ms,
    ensures
        ({
            let pixel = (y / ms) * width + x / ms;
            let k = (y % ms) * ms + x % ms;
            &&& pixel < width * height
            &&& k < ms * ms
            &&& supersample_of(width, ms, pixel, k) == (x as int, y as int)
            &&& forall|p: nat, j: nat|
                p < width * height && j < ms * ms && #[trigger] supersample_of(width, ms, p, j) == (
                    x as int,
                    y as int,
                ) ==> p == pixel && j == k
        }),
{
    let bx = x / ms;
    let by_ = y / ms;
    let pixel = by_ * width + bx;
    let k = (y % ms) * ms + x % ms;
    assert(bx < width) by (nonlinear_arith)
        requires bx == x / ms, x < width * ms, ms >= 1;
    assert(by_ < height) by (nonlinear_arith)
        requires by_ == y / ms, y < height * ms, ms >= 1;
    assert(pixel < width * height) by (nonlinear_arith)
        requires pixel == by_ * width + bx, bx < width, by_ < height;
    let (row, col) = (y % ms, x % ms);
    assert(k < ms * ms) by (nonlinear_arith)
        requires k == row * ms + col, row < ms, col < ms;
    lemma_fundamental_div_mod_converse(pixel as int, width as int, by_ as int, bx as int);
    lemma_fundamental_div_mod_converse(k as int, ms as int, row as int, col as int);
    assert(x == bx * ms + x % ms) by (nonlinear_arith)
        requires bx == x / ms, ms >= 1;
    assert(y == by_ * ms + y % ms) by (nonlinear_arith)
        requires by_ == y / ms, ms >= 1;
    assert forall|p: nat, j: nat|
        p < width * height && j < ms * ms && #[trigger] supersample_of(width, ms, p, j) == (
            x as int,
            y as int,
        ) implies p == pixel && j == k by {
        let px = p % width;
        let py = p / width;
        assert(j / ms < ms) by (nonlinear_arith)
            requires j < ms * ms, ms >= 1;
        lemma_fundamental_div_mod_converse(x as int, ms as int, px as int, (j % ms) as int);
        lemma_fundamental_div_mod_converse(y as int, ms as int, py as int, (j / ms) as int);
        assert(p == py * width + px) by (nonlinear_arith)
            requires px == p % width, py == p / width, width >= 1;
        assert(j == (j / ms) * ms + j % ms) by (nonlinear_arith)
            requires ms >= 1;
    }
}

/// The supersamples that make output pixel `pixel`: the `ms x ms` block of
/// the supersample grid under it, row by row.
pub fn supersample_coords(options: &RenderOptions, pixel: usize) -> (r: Vec<(usize, usize)>)
    requires
        options.valid(),
        pixel < options.width * options.height,
    ensures
        r@.len() == options.multisampling * options.multisampling,
        forall|k: int|
            #![trigger r@[k]]
            0 <= k < r@.len() ==> (r@[k].0 as int, r@[k].1 as int) == supersample_of(
                options.width as nat,
                options.multisampling as nat,
                pixel as nat,
                k as nat,
            ),
{
    proof {
        lemma_grid_bounds(options);
    }
    let ms = options.multisampling;
    let base_x = pixel % options.width;
    let base_y = pixel / options.width;
    proof {
        lemma_block_fits(base_x as int, options.width as int, ms as int);
        assert(base_y < options.height) by (nonlinear_arith)
            requires
                base_y == pixel / options.width,
                pixel < options.width * options.height,
                options.width >= 1;
        lemma_block_fits(base_y as int, options.height as int, ms as int);
    }
    let mut r: Vec<(usize, usize)> = Vec::new();
    let mut y: usize = 0;
    while y < ms
        invariant
            ms == options.multisampling,
            ms >= 1,
            y <= ms,
            base_x * ms + ms <= options.width * ms <= usize::MAX,
            base_y * ms + ms <= options.height * ms <= usize::MAX,
            base_x == pixel % options.width,
            base_y == pixel / options.width,
            r@.len() == y * ms,
            forall|k: int|
                #![trigger r@[k]]
                0 <= k < r@.len() ==> {
                    &&& r@[k].0 == base_x * ms + k % ms as int
                    &&& r@[k].1 == base_y * ms + k / ms as int
                },
        decreases ms - y,
    {
        let mut x: usize = 0;
        while x < ms
            invariant
                ms == options.multisampling,
                ms >= 1,
                y < ms,
                x <= ms,
                base_x * ms + ms <= options.width * ms <= usize::MAX,
                base_y * ms + ms <= options.height * ms <= usize::MAX,
                base_x == pixel % options.width,
                base_y == pixel / options.width,
                r@.len() == y * ms + x,
                forall|k: int|
                    #![trigger r@[k]]
                    0 <= k < r@.len() ==> {
                        &&& r@[k].0 == base_x * ms + k % ms as int
                        &&& r@[k].1 == base_y * ms + k / ms as int
                    },
            decreases ms - x,
        {
            proof {
                lemma_fundamental_div_mod_converse((y * ms + x) as int, ms as int, y as int, x as int);
            }
            r.push((base_x * ms + x, base_y * ms + y));
            x = x + 1;
        }
        proof {
            assert((y + 1) * ms == y * ms + ms) by (nonlinear_arith);
        }
        y = y + 1;
    }
    r
}

proof fn lemma_block_fits(b: int, n: int, m: int)
    requires
        0 <= b < n,
        m >= 1,
    ensures
        b * m + m <= n * m,
{
    assert(b * m + m <= n * m) by (nonlinear_arith)
        requires 0 <= b < n, m >= 1;
}

/// One worker's share: fills `output`, which holds the pixels of `range`,
/// with the colour `shade` gives each pixel index.
pub fn render_part<P, F: Fn(usize) -> P>(range: Range<usize>, output: &mut Vec<P>, shade: &F)
    requires
        range.start <= range.end,
        old(output)@.len() == range.end - range.start,
        forall|i: usize| range.start <= i < range.end ==> shade.requires((i,)),
    ensures
        final(output)@.len() == old(output)@.len(),
        forall|j: int|
            0 <= j < final(output)@.len() ==> shade.ensures(((range.start + j) as usize,), #[trigger] final(output)@[j]),
{
    let n = output.len();
    let mut j: usize = 0;
    while j < n
        invariant
            n == range.end - range.start,
            range.start <= range.end,
            output@.len() == n,
            j <= n,
            forall|i: usize| range.start <= i < range.end ==> shade.requires((i,)),
            forall|t: int| 0 <= t < j ==> shade.ensures(((range.start + t) as usize,), #[trigger] output@[t]),
        decreases n - j,
    {
        let c = shade(range.start + j);
        output[j] = c;
        j = j + 1;
    }
}

/// Ranges cut from `0..n` in order, with pieces of matching lengths.
spec fn covers_in_order<P>(parts: Seq<(Range<usize>, Vec<P>)>, n: nat, p: nat) -> bool {
    &&& parts.len() == p
    &&& p >= 1
    &&& parts[0].0.start == 0
    &&& parts[p - 1].0.end == n
    &&& forall|t: int|
        #![trigger parts[t]]
        0 <= t < p ==> {
            &&& parts[t].0.start <= parts[t].0.end <= n
            &&& parts[t].1@.len() == parts[t].0.end - parts[t].0.start
        }
    &&& forall|t: int| 0 < t < p ==> #[trigger] parts[t].0.start == parts[t - 1].0.end
}

proof fn lemma_append_shaded<P, F: Fn(usize) -> P>(shade: F, before: Seq<P>, piece: Seq<P>, start: int)
    requires
        shaded_by(shade, before),
        start == before.len(),
        forall|j: int| 0 <= j < piece.len() ==> shade.ensures(((start + j) as usize,), #[trigger] piece[j]),
    ensures
        shaded_by(shade, before + piece),
{
    let all = before + piece;
    assert forall|i: int| 0 <= i < all.len() implies shade.ensures((i as usize,), #[trigger] all[i]) by {
        if i < before.len() {
            assert(all[i] == before[i]);
        } else {
            assert(all[i] == piece[i - start]);
            assert(start + (i - start) == i);
        }
    }
}

/// Renders `buffer.len()` pixels, split among `parts` workers that run one
/// after the other. The result does not depend on `parts`.
pub fn render_tiles<P, F: Fn(usize) -> P>(buffer: Vec<P>, parts: usize, shade: &F) -> (r: Vec<P>)
    requires
        parts >= 1,
        forall|i: usize| i < buffer@.len() ==> shade.requires((i,)),
    ensures
        r@.len() == buffer@.len(),
        shaded_by(*shade, r@),
{
    let ghost n = buffer@.len();
    let mut pieces = split_buffer(buffer, parts);
    let ghost all = pieces@;
    let mut out: Vec<P> = Vec::new();
    let ghost mut done: int = 0;
    while pieces.len() > 0
        invariant
            0 <= done <= parts,
            all.len() == parts,
            pieces@ == all.subrange(done, parts as int),
            forall|i: usize| i < n ==> shade.requires((i,)),
            covers_in_order(all, n, parts as nat),
            done < parts ==> out@.len() == all[done].0.start,
            done == parts ==> out@.len() == n,
            shaded_by(*shade, out@),
        decreases pieces.len(),
    {
        let (range, mut chunk) = pieces.remove(0);
        proof {
            assert(all[done] == (range, chunk));
            assert(all.subrange(done + 1, parts as int) =~= pieces@);
        }
        let ghost start = range.start;
        let ghost end = range.end;
        render_part(range, &mut chunk, shade);
        let ghost before = out@;
        let ghost piece = chunk@;
        out.append(&mut chunk);
        proof {
            lemma_append_shaded(*shade, before, piece, start as int);
            if done + 1 < parts {
                assert(all[done + 1].0.start == all[done].0.end);
            }
            done = done + 1;
        }
    }
    out
}

/// Checks `options`, then renders a `width x height` framebuffer whose pixel
/// `i` is coloured by `shade(i)`, split among `parts` workers.
pub fn render_image<P: Clone, F: Fn(usize) -> P>(
    options: &RenderOptions,
    parts: usize,
    blank: P,
    shade: &F,
) -> (r: Result<Image<P>, ConfigError>)
    requires
        parts >= 1,
        forall|i: usize| shade.requires((i,)),
    ensures
        r is Ok <==> options.valid(),
        r matches Err(e) ==> options.spec_validate() == Err::<(), ConfigError>(e),
        r matches Ok(img) ==> {
            &&& img.well_formed()
            &&& img.width == options.width
            &&& img.height == options.height
            &&& shaded_by(*shade, img.data@)
        },
{
    match options.validate() {
        Err(e) => Err(e),
        Ok(()) => {
            proof {
                lemma_grid_bounds(options);
            }
            let n = options.width * options.height;
            let buffer = vec![blank; n];
            let data = render_tiles(buffer, parts, shade);
            Ok(Image::new(data, options.width, options.height))
        },
    }
}

} // verus!
