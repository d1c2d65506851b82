//! The canvas: a grid of colours, and the three ways the renderer writes to
//! it: clearing it to white, painting a triangle from its geometry, and
//! painting one again from a recorded list of its pixels.

use vstd::prelude::*;
use crate::color::{blend, blend_color, white, Color};
use crate::geometry::{all_within, is_footprint, rasterize, scan_ordered, Point, Triangle};
use crate::pixels::{
    buffer_clone, buffer_get, buffer_get_height, buffer_get_width, buffer_height, buffer_new,
    buffer_pixels, buffer_put, buffer_width, PixelBuffer,
};

verus! {

/// What a canvas is to its contracts: its dimensions and the colour of each
/// pixel, keyed by `(x, y)`.
#[verifier::ext_equal]
pub struct CanvasView {
    pub width: nat,
    pub height: nat,
    pub pixels: Map<(int, int), Color>,
}

impl CanvasView {
    /// `(x, y)` is a pixel of the canvas.
    pub open spec fn in_bounds(self, x: int, y: int) -> bool {
        0 <= x < self.width && 0 <= y < self.height
    }

    /// The colour at `(x, y)`.
    pub open spec fn at(self, x: int, y: int) -> Color {
        self.pixels[(x, y)]
    }

    /// The map holds the positions inside the bounds and no others.
    pub open spec fn wf(self) -> bool {
        forall|p: (int, int)| #[trigger] self.pixels.contains_key(p) <==> self.in_bounds(p.0, p.1)
    }

    /// The same canvas with `c` at `(x, y)`.
    pub open spec fn put(self, x: int, y: int, c: Color) -> CanvasView {
        CanvasView { pixels: self.pixels.insert((x, y), c), ..self }
    }

    /// The same canvas with `color` blended onto each pixel that `pixels`
    /// names.
    pub open spec fn overlay(self, color: Color, pixels: Seq<Point>) -> CanvasView {
        CanvasView {
            pixels: Map::new(
                |p: (int, int)| self.in_bounds(p.0, p.1),
                |p: (int, int)|
                    if pixels.contains(Point { x: p.0 as u32, y: p.1 as u32 }) {
                        blend(self.at(p.0, p.1), color)
                    } else {
                        self.at(p.0, p.1)
                    },
            ),
            ..self
        }
    }

    /// The same canvas with triangle `t` painted on it: its colour blended
    /// onto each pixel it covers.
    pub open spec fn paint(self, t: Triangle) -> CanvasView {
        CanvasView {
            pixels: Map::new(
                |p: (int, int)| self.in_bounds(p.0, p.1),
                |p: (int, int)|
                    if t.covers(self.width as int, self.height as int, p.0, p.1) {
                        blend(self.at(p.0, p.1), t.color)
                    } else {
                        self.at(p.0, p.1)
                    },
            ),
            ..self
        }
    }

    /// The first `n` of `shapes` painted on this canvas, in order: later
    /// shapes go on top of earlier ones.
    pub open spec fn paint_all(self, shapes: Seq<Triangle>, n: nat) -> CanvasView
        decreases n,
    {
        if n == 0 {
            self
        } else {
            self.paint_all(shapes, (n - 1) as nat).paint(shapes[n - 1])
        }
    }
}

/// A canvas of one colour.
pub open spec fn filled(width: nat, height: nat, c: Color) -> CanvasView {
    CanvasView {
        width,
        height,
        pixels: Map::new(|p: (int, int)| 0 <= p.0 < width && 0 <= p.1 < height, |p: (int, int)| c),
    }
}

/// The white background.
pub open spec fn blank(width: nat, height: nat) -> CanvasView {
    filled(width, height, white())
}

/// The full render of a shape list: all of its shapes painted in order on
/// the white background.
pub open spec fn render(width: nat, height: nat, shapes: Seq<Triangle>) -> CanvasView {
    blank(width, height).paint_all(shapes, shapes.len())
}

/// Painting keeps the dimensions and the set of positions.
pub proof fn lemma_paint_all_shape(base: CanvasView, shapes: Seq<Triangle>, n: nat)
    requires
        base.wf(),
    ensures
        base.paint_all(shapes, n).wf(),
        base.paint_all(shapes, n).width == base.width,
        base.paint_all(shapes, n).height == base.height,
    decreases n,
{
    if n > 0 {
        lemma_paint_all_shape(base, shapes, (n - 1) as nat);
    }
}

/// Painting a triangle and blending its colour onto the pixels of its
/// footprint are the same thing.
pub proof fn lemma_overlay_is_paint(base: CanvasView, t: Triangle, pixels: Seq<Point>)
    requires
        is_footprint(pixels, t, base.width as int, base.height as int),
        base.width <= u32::MAX,
        base.height <= u32::MAX,
    ensures
        base.overlay(t.color, pixels) == base.paint(t),
{
    assert(base.overlay(t.color, pixels).pixels =~= base.paint(t).pixels);
}

/// What the first `n` shapes paint does not depend on the shapes after
/// them.
pub proof fn lemma_paint_all_prefix(
    base: CanvasView,
    s1: Seq<Triangle>,
    s2: Seq<Triangle>,
    n: nat,
)
    requires
        n <= s1.len(),
        n <= s2.len(),
        forall|i: int| 0 <= i < n ==> s1[i] == s2[i],
    ensures
        base.paint_all(s1, n) == base.paint_all(s2, n),
    decreases n,
{
    if n > 0 {
        lemma_paint_all_prefix(base, s1, s2, (n - 1) as nat);
    }
}

/// A pixel that neither the old nor the new shape in slot `i` covers has the
/// same colour in both renders, however many of the later shapes are painted.
pub proof fn lemma_paint_all_outside(
    base: CanvasView,
    shapes: Seq<Triangle>,
    i: int,
    candidate: Triangle,
    n: nat,
    x: int,
    y: int,
)
    requires
        base.wf(),
        0 <= i < shapes.len(),
        n <= shapes.len(),
        base.in_bounds(x, y),
        !shapes[i].covers(base.width as int, base.height as int, x, y),
        !candidate.covers(base.width as int, base.height as int, x, y),
    ensures
        base.paint_all(shapes.update(i, candidate), n).at(x, y) == base.paint_all(shapes, n).at(
            x,
            y,
        ),
    decreases n,
{
    if n > 0 {
        let before = (n - 1) as nat;
        lemma_paint_all_outside(base, shapes, i, candidate, before, x, y);
        lemma_paint_all_shape(base, shapes, before);
        lemma_paint_all_shape(base, shapes.update(i, candidate), before);
    }
}

/// A width by height grid of colours.
pub struct Canvas {
    buf: PixelBuffer,
}

impl View for Canvas {
    type V = CanvasView;

    closed spec fn view(&self) -> CanvasView {
        CanvasView {
            width: buffer_width(self.buf) as nat,
            height: buffer_height(self.buf) as nat,
            pixels: Map::new(
                |p: (int, int)|
                    0 <= p.0 < buffer_width(self.buf) && 0 <= p.1 < buffer_height(self.buf),
                |p: (int, int)| buffer_pixels(self.buf)[p],
            ),
        }
    }
}

impl Canvas {
    /// A canvas of the given dimensions, every pixel transparent black. Its
    /// four bytes per pixel must fit what one allocation can hold.
    pub fn new(width: u32, height: u32) -> (canvas: Canvas)
        requires
            4 * width <= usize::MAX,
            4 * width * height <= isize::MAX,
        ensures
            canvas@ == filled(width as nat, height as nat, Color { r: 0, g: 0, b: 0, a: 0 }),
    {
        let canvas = Canvas { buf: buffer_new(width, height) };
        assert(canvas@.pixels =~= filled(
            width as nat,
            height as nat,
            Color { r: 0, g: 0, b: 0, a: 0 },
        ).pixels);
        canvas
    }

    /// A canvas of the given dimensions and of one colour.
    pub fn filled_with(width: u32, height: u32, color: Color) -> (canvas: Canvas)
        requires
            4 * width <= usize::MAX,
            4 * width * height <= isize::MAX,
        ensures
            canvas@ == filled(width as nat, height as nat, color),
    {
        let mut canvas = Canvas::new(width, height);
        canvas.fill(color);
        canvas
    }

    /// The number of pixel columns.
    pub fn width(&self) -> (w: u32)
        ensures
            w == self@.width,
    {
        buffer_get_width(&self.buf)
    }

    /// The number of pixel rows.
    pub fn height(&self) -> (h: u32)
        ensures
            h == self@.height,
    {
        buffer_get_height(&self.buf)
    }

    /// A canvas's view is well formed and its dimensions fit `u32`.
    pub proof fn lemma_view(self)
        ensures
            self@.wf(),
            self@.width <= u32::MAX,
            self@.height <= u32::MAX,
    {
    }

    /// The colour at `(x, y)`.
    pub fn get_pixel(&self, x: u32, y: u32) -> (c: Color)
        requires
            self@.in_bounds(x as int, y as int),
        ensures
            c == self@.at(x as int, y as int),
    {
        buffer_get(&self.buf, x, y)
    }

    /// Stores `c` at `(x, y)`.
    pub fn put_pixel(&mut self, x: u32, y: u32, c: Color)
        requires
            old(self)@.in_bounds(x as int, y as int),
        ensures
            final(self)@ == old(self)@.put(x as int, y as int, c),
    {
        buffer_put(&mut self.buf, x, y, c);
        assert(self@.pixels =~= old(self)@.put(x as int, y as int, c).pixels);
    }

    /// A copy of the canvas.
    pub fn duplicate(&self) -> (copy: Canvas)
        ensures
            copy@ == self@,
    {
        let copy = Canvas { buf: buffer_clone(&self.buf) };
        assert(copy@.pixels =~= self@.pixels);
        copy
    }

    /// Whether the two canvases have the same dimensions and the same colour
    /// at every pixel.
    pub fn same_as(&self, other: &Canvas) -> (same: bool)
        ensures
            same == (self@ == other@),
    {
        let width = self.width();
        let height = self.height();
        if width != other.width() || height != other.height() {
            return false;
        }
        let mut x: u32 = 0;
        while x < width
            invariant
                self@.width == width == other@.width,
                self@.height == height == other@.height,
                x <= width,
                forall|i: int, j: int|
                    0 <= i < x && 0 <= j < height ==> #[trigger] self@.pixels[(i, j)]
                        == other@.pixels[(i, j)],
            decreases width - x,
        {
            let mut y: u32 = 0;
            while y < height
                invariant
                    self@.width == width == other@.width,
                    self@.height == height == other@.height,
                    x < width,
                    y <= height,
                    forall|i: int, j: int|
                        0 <= i < x && 0 <= j < height ==> #[trigger] self@.pixels[(i, j)]
                            == other@.pixels[(i, j)],
                    forall|j: int|
                        0 <= j < y ==> #[trigger] self@.pixels[(x as int, j)] == other@.pixels[(
                            x as int,
                            j,
                        )],
                decreases height - y,
            {
                if self.get_pixel(x, y) != other.get_pixel(x, y) {
                    return false;
                }
                y = y + 1;
            }
            x = x + 1;
        }
        assert(self@.pixels =~= other@.pixels);
        true
    }

    /// Sets every pixel to `color`.
    pub fn fill(&mut self, color: Color)
        ensures
            final(self)@ == filled(old(self)@.width, old(self)@.height, color),
    {
        let width = self.width();
        let height = self.height();
        let mut x: u32 = 0;
        while x < width
            invariant
                self@.width == width == old(self)@.width,
                self@.height == height == old(self)@.height,
                self@.wf(),
                x <= width,
                forall|i: int, j: int|
                    0 <= i < x && 0 <= j < height ==> #[trigger] self@.pixels[(i, j)] == color,
            decreases width - x,
        {
            let mut y: u32 = 0;
            while y < height
                invariant
                    self@.width == width == old(self)@.width,
                    self@.height == height == old(self)@.height,
                    self@.wf(),
                    x < width,
                    y <= height,
                    forall|i: int, j: int|
                        0 <= i < x && 0 <= j < height ==> #[trigger] self@.pixels[(i, j)] == color,
                    forall|j: int| 0 <= j < y ==> #[trigger] self@.pixels[(x as int, j)] == color,
                decreases height - y,
            {
                self.put_pixel(x, y, color);
                y = y + 1;
            }
            x = x + 1;
        }
        assert(self@.pixels =~= filled(old(self)@.width, old(self)@.height, color).pixels);
    }
}

/// Clears the image to the white background.
pub fn init_image(image: &mut Canvas)
    ensures
        final(image)@ == blank(old(image)@.width, old(image)@.height),
{
    image.fill(Color { r: 255, g: 255, b: 255, a: 255 });
}

/// Paints a triangle again from the recorded list of its pixels: blends its
/// colour onto each of them, and touches no other pixel.
pub fn overlapping_triangle(triangle: &Triangle, image: &mut Canvas, written_pixel: &Vec<Point>)
    requires
        written_pixel@.no_duplicates(),
        all_within(written_pixel@, old(image)@.width as int, old(image)@.height as int),
    ensures
        final(image)@ == old(image)@.overlay(triangle.color, written_pixel@),
{
    let ghost start = image@;
    let mut k: usize = 0;
    while k < written_pixel.len()
        invariant
            k <= written_pixel.len(),
            written_pixel@.no_duplicates(),
            start.wf(),
            start.width <= u32::MAX,
            start.height <= u32::MAX,
            all_within(written_pixel@, start.width as int, start.height as int),
            image@ == start.overlay(triangle.color, written_pixel@.take(k as int)),
        decreases written_pixel.len() - k,
    {
        let p = written_pixel[k];
        let ghost done = written_pixel@.take(k as int);
        assert(!done.contains(p)) by {
            if done.contains(p) {
                let i = choose|i: int| 0 <= i < done.len() && done[i] == p;
                assert(written_pixel@[i] == written_pixel@[k as int]);
            }
        }
        let under = image.get_pixel(p.x, p.y);
        image.put_pixel(p.x, p.y, blend_color(&under, &triangle.color));
        proof {
            let next = written_pixel@.take(k + 1);
            assert(next =~= done.push(p));
            assert forall|q: (int, int)| start.in_bounds(q.0, q.1) implies #[trigger] image@.pixels[q]
                == start.overlay(triangle.color, next).pixels[q] by {
                vstd::seq_lib::lemma_seq_contains_after_push(
                    done,
                    p,
                    Point { x: q.0 as u32, y: q.1 as u32 },
                );
            }
            assert(image@.pixels =~= start.overlay(triangle.color, next).pixels);
        }
        k = k + 1;
    }
    assert(written_pixel@.take(k as int) =~= written_pixel@);
}

/// Paints a triangle: finds the pixels it covers, blends its colour onto
/// each, and hands back the list of them.
pub fn draw_triangle(triangle: &Triangle, image: &mut Canvas) -> (written: Vec<Point>)
    ensures
        final(image)@ == old(image)@.paint(*triangle),
        is_footprint(written@, *triangle, old(image)@.width as int, old(image)@.height as int),
        scan_ordered(written@),
{
    let written = rasterize(triangle, image.width(), image.height());
    proof {
        lemma_overlay_is_paint(image@, *triangle, written@);
    }
    overlapping_triangle(triangle, image, &written);
    written
}

/// Paints every shape of the list onto the image, in order.
pub fn draw(image: &mut Canvas, shapes: &Vec<Triangle>)
    ensures
        final(image)@ == old(image)@.paint_all(shapes@, shapes@.len()),
        final(image)@.width == old(image)@.width,
        final(image)@.height == old(image)@.height,
{
    proof {
        lemma_paint_all_shape(image@, shapes@, shapes@.len());
    }
    let mut i: usize = 0;
    while i < shapes.len()
        invariant
            i <= shapes.len(),
            image@ == old(image)@.paint_all(shapes@, i as nat),
        decreases shapes.len() - i,
    {
        draw_triangle(&shapes[i], image);
        i = i + 1;
    }
}

} // verus!
