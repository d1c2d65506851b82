//! The layer stack: the committed shape list together with everything that
//! is cached about it, so that a trial on one shape redraws from that shape
//! upwards and not from the background.
//!
//! For each slot the stack keeps a snapshot, the canvas as it is just before
//! that slot's shape is painted, and the list of pixels the shape paints.

use vstd::prelude::*;
use crate::canvas::{
    blank, draw_triangle, init_image, lemma_overlay_is_paint, lemma_paint_all_prefix,
    lemma_paint_all_shape, overlapping_triangle, render, Canvas, CanvasView,
};
use crate::geometry::{
    is_footprint, lemma_footprint_within, lemma_rasterize_deterministic, scan_ordered, Point,
    Triangle,
};

verus! {

/// What a layer stack is to its contracts.
#[verifier::ext_equal]
pub struct LayersView {
    pub width: nat,
    pub height: nat,
    /// The committed shapes, bottom first.
    pub shapes: Seq<Triangle>,
    /// The committed render.
    pub canvas: CanvasView,
    /// One canvas per slot: the render of the shapes below that slot.
    pub snapshots: Seq<CanvasView>,
    /// One pixel list per slot: what that slot's shape paints.
    pub touched: Seq<Seq<Point>>,
}

impl LayersView {
    /// Everything cached agrees with the shape list: the canvas is its full
    /// render, snapshot `i` is the render of its first `i` shapes, and pixel
    /// list `i` is the footprint of shape `i`, in scan order.
    pub open spec fn wf(self) -> bool {
        &&& self.width <= u32::MAX
        &&& self.height <= u32::MAX
        &&& self.snapshots.len() == self.shapes.len()
        &&& self.touched.len() == self.shapes.len()
        &&& self.canvas == render(self.width, self.height, self.shapes)
        &&& self.canvas.width == self.width
        &&& self.canvas.height == self.height
        &&& forall|i: int|
            0 <= i < self.shapes.len() ==> #[trigger] self.snapshots[i] == blank(
                self.width,
                self.height,
            ).paint_all(self.shapes, i as nat)
        &&& forall|i: int|
            0 <= i < self.shapes.len() ==> is_footprint(
                #[trigger] self.touched[i],
                self.shapes[i],
                self.width as int,
                self.height as int,
            )
        &&& forall|i: int| 0 <= i < self.shapes.len() ==> scan_ordered(#[trigger] self.touched[i])
    }

    /// The full render of the shape list with `candidate` in slot `i`.
    pub open spec fn render_with(self, i: int, candidate: Triangle) -> CanvasView {
        render(self.width, self.height, self.shapes.update(i, candidate))
    }
}

/// The shape list and the image size determine everything else: two
/// consistent stacks of the same size with the same shapes are equal, canvas,
/// snapshots and pixel lists included.
pub proof fn lemma_layers_determined(s1: LayersView, s2: LayersView)
    requires
        s1.wf(),
        s2.wf(),
        s1.width == s2.width,
        s1.height == s2.height,
        s1.shapes == s2.shapes,
    ensures
        s1 == s2,
{
    assert(s1.snapshots =~= s2.snapshots);
    assert forall|i: int| 0 <= i < s1.touched.len() implies s1.touched[i] == s2.touched[i] by {
        lemma_rasterize_deterministic(
            s1.touched[i],
            s2.touched[i],
            s1.shapes[i],
            s1.width as int,
            s1.height as int,
        );
    }
    assert(s1.touched =~= s2.touched);
}

/// The committed shape list with its render, its snapshots and its pixel
/// lists.
pub struct LayerStack {
    shapes: Vec<Triangle>,
    canvas: Canvas,
    snapshots: Vec<Canvas>,
    touched: Vec<Vec<Point>>,
}

impl View for LayerStack {
    type V = LayersView;

    closed spec fn view(&self) -> LayersView {
        LayersView {
            width: self.canvas@.width,
            height: self.canvas@.height,
            shapes: self.shapes@,
            canvas: self.canvas@,
            snapshots: Seq::new(self.snapshots@.len(), |i: int| self.snapshots@[i]@),
            touched: Seq::new(self.touched@.len(), |i: int| self.touched@[i]@),
        }
    }
}

impl LayerStack {
    /// The first full render. Clears `image` to white and paints the shapes
    /// on it in order, keeping a snapshot before each and the pixels of
    /// each. The image gives the stack its dimensions; what it held is lost.
    pub fn new(image: Canvas, shapes: Vec<Triangle>) -> (stack: LayerStack)
        ensures
            stack@.wf(),
            stack@.width == image@.width,
            stack@.height == image@.height,
            stack@.shapes == shapes@,
    {
        let ghost width = image@.width;
        let ghost height = image@.height;
        proof {
            image.lemma_view();
        }
        let mut canvas = image;
        init_image(&mut canvas);
        let mut snapshots: Vec<Canvas> = Vec::new();
        let mut touched: Vec<Vec<Point>> = Vec::new();
        let ghost background = blank(width, height);
        let mut i: usize = 0;
        while i < shapes.len()
            invariant
                i <= shapes.len(),
                background == blank(width, height),
                canvas@ == background.paint_all(shapes@, i as nat),
                snapshots.len() == i,
                touched.len() == i,
                forall|j: int|
                    0 <= j < i ==> (#[trigger] snapshots@[j])@ == background.paint_all(
                        shapes@,
                        j as nat,
                    ),
                forall|j: int|
                    0 <= j < i ==> is_footprint(
                        (#[trigger] touched@[j])@,
                        shapes@[j],
                        width as int,
                        height as int,
                    ),
                forall|j: int| 0 <= j < i ==> scan_ordered((#[trigger] touched@[j])@),
            decreases shapes.len() - i,
        {
            proof {
                lemma_paint_all_shape(background, shapes@, i as nat);
            }
            snapshots.push(canvas.duplicate());
            let written = draw_triangle(&shapes[i], &mut canvas);
            touched.push(written);
            i = i + 1;
        }
        proof {
            lemma_paint_all_shape(background, shapes@, i as nat);
        }
        LayerStack { shapes, canvas, snapshots, touched }
    }

    /// The number of shapes.
    pub fn len(&self) -> (n: usize)
        ensures
            n == self@.shapes.len(),
    {
        self.shapes.len()
    }

    /// The width of the image.
    pub fn width(&self) -> (w: u32)
        ensures
            w == self@.width,
    {
        self.canvas.width()
    }

    /// The height of the image.
    pub fn height(&self) -> (h: u32)
        ensures
            h == self@.height,
    {
        self.canvas.height()
    }

    /// The committed shapes, bottom first.
    pub fn shapes(&self) -> (shapes: &Vec<Triangle>)
        ensures
            shapes@ == self@.shapes,
    {
        &self.shapes
    }

    /// The committed render.
    pub fn canvas(&self) -> (canvas: &Canvas)
        ensures
            canvas@ == self@.canvas,
    {
        &self.canvas
    }

    /// The canvas as it is just before shape `i` is painted.
    pub fn snapshot(&self, i: usize) -> (canvas: &Canvas)
        requires
            i < self@.snapshots.len(),
        ensures
            canvas@ == self@.snapshots[i as int],
    {
        &self.snapshots[i]
    }

    /// The pixels that shape `i` paints.
    pub fn touched(&self, i: usize) -> (pixels: &Vec<Point>)
        requires
            i < self@.touched.len(),
        ensures
            pixels@ == self@.touched[i as int],
    {
        &self.touched[i]
    }

    /// Renders the shape list with `candidate` in slot `i`, without
    /// committing it: copies snapshot `i`, paints the candidate and records
    /// its pixels, then paints the shapes above slot `i` from their recorded
    /// pixels. The stack itself is left as it is.
    pub fn render_from(&self, i: usize, candidate: &Triangle) -> (out: (Canvas, Vec<Point>))
        requires
            self@.wf(),
            i < self@.shapes.len(),
        ensures
            out.0@ == self@.render_with(i as int, *candidate),
            is_footprint(out.1@, *candidate, self@.width as int, self@.height as int),
            scan_ordered(out.1@),
    {
        let ghost view = self@;
        let ghost background = blank(view.width, view.height);
        let ghost trial = view.shapes.update(i as int, *candidate);
        let mut scratch = self.snapshots[i].duplicate();
        proof {
            assert(scratch@ == view.snapshots[i as int]);
            lemma_paint_all_prefix(background, view.shapes, trial, i as nat);
            lemma_paint_all_shape(background, view.shapes, i as nat);
        }
        let written = draw_triangle(candidate, &mut scratch);
        assert(i < self.shapes.len());
        let mut j: usize = i + 1;
        while j < self.shapes.len()
            invariant
                view == self@,
                view.wf(),
                background == blank(view.width, view.height),
                trial == view.shapes.update(i as int, *candidate),
                i < view.shapes.len(),
                i < j <= self.shapes.len(),
                scratch@ == background.paint_all(trial, j as nat),
            decreases self.shapes.len() - j,
        {
            proof {
                lemma_paint_all_shape(background, trial, j as nat);
                assert(view.touched[j as int] == self.touched@[j as int]@);
                lemma_footprint_within(
                    view.touched[j as int],
                    view.shapes[j as int],
                    view.width as int,
                    view.height as int,
                );
                lemma_overlay_is_paint(scratch@, view.shapes[j as int], view.touched[j as int]);
            }
            overlapping_triangle(&self.shapes[j], &mut scratch, &self.touched[j]);
            j = j + 1;
        }
        (scratch, written)
    }

    /// Makes a rendered candidate the committed state: puts `shape` and its
    /// pixel list in slot `i`, takes `canvas` as the committed render, and
    /// repaints the snapshots above slot `i`, each from the one below it.
    pub fn commit(&mut self, i: usize, shape: Triangle, touched: Vec<Point>, canvas: Canvas)
        requires
            old(self)@.wf(),
            i < old(self)@.shapes.len(),
            is_footprint(touched@, shape, old(self)@.width as int, old(self)@.height as int),
            scan_ordered(touched@),
            canvas@ == old(self)@.render_with(i as int, shape),
        ensures
            final(self)@.wf(),
            final(self)@.width == old(self)@.width,
            final(self)@.height == old(self)@.height,
            final(self)@.shapes == old(self)@.shapes.update(i as int, shape),
            final(self)@.canvas == canvas@,
            final(self)@.touched == old(self)@.touched.update(i as int, touched@),
    {
        let ghost before = self@;
        let ghost background = blank(before.width, before.height);
        let ghost after = before.shapes.update(i as int, shape);
        let ghost pixels = before.touched.update(i as int, touched@);
        proof {
            lemma_paint_all_shape(background, after, after.len());
            assert forall|k: nat| k <= i implies #[trigger] background.paint_all(after, k)
                == background.paint_all(before.shapes, k) by {
                lemma_paint_all_prefix(background, after, before.shapes, k);
            }
        }
        self.shapes.set(i, shape);
        self.touched.set(i, touched);
        self.canvas = canvas;
        let mut layer = self.snapshots[i].duplicate();
        let mut j: usize = i;
        proof {
            assert(self@.touched =~= pixels);
            assert(self@.snapshots =~= before.snapshots);
            assert(layer@ == before.snapshots[i as int]);
            assert(layer@ == background.paint_all(after, i as nat));
        }
        while j + 1 < self.shapes.len()
            invariant
                before.wf(),
                i < before.shapes.len(),
                background == blank(before.width, before.height),
                after == before.shapes.update(i as int, shape),
                pixels == before.touched.update(i as int, touched@),
                is_footprint(touched@, shape, before.width as int, before.height as int),
                scan_ordered(touched@),
                self@.width == before.width,
                self@.height == before.height,
                self@.shapes == after,
                self@.touched == pixels,
                self@.canvas == canvas@,
                self@.snapshots.len() == after.len(),
                i <= j < after.len(),
                after.len() == self.shapes.len(),
                after.len() == self.touched.len(),
                after.len() == self.snapshots.len(),
                layer@ == background.paint_all(after, j as nat),
                forall|k: int|
                    0 <= k <= j ==> #[trigger] self@.snapshots[k] == background.paint_all(
                        after,
                        k as nat,
                    ),
            decreases self.shapes.len() - j,
        {
            proof {
                lemma_paint_all_shape(background, after, j as nat);
                lemma_footprint_within(
                    pixels[j as int],
                    after[j as int],
                    before.width as int,
                    before.height as int,
                );
                lemma_overlay_is_paint(layer@, after[j as int], pixels[j as int]);
                assert(self.touched@[j as int]@ == pixels[j as int]);
            }
            overlapping_triangle(&self.shapes[j], &mut layer, &self.touched[j]);
            let ghost held = self@.snapshots;
            self.snapshots.set(j + 1, layer.duplicate());
            proof {
                assert(self@.snapshots =~= held.update(j + 1, layer@));
            }
            j = j + 1;
        }
    }

    /// Gives up a rendered candidate. The stack was not touched by the
    /// trial, so there is nothing to undo.
    pub fn discard(&self, canvas: Canvas, touched: Vec<Point>)
    {
    }
}

} // verus!
