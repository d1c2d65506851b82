//! The error cache: for every pixel the distance between the committed render
//! and the target, kept so that a trial only recomputes the pixels that the
//! old and the new version of one shape touch.
//!
//! The matrix is stored column by column: pixel `(x, y)` of an image of
//! height `h` has cell `x * h + y`.

use vstd::prelude::*;
use vstd::arithmetic::div_mod::{
    lemma_div_pos_is_pos, lemma_fundamental_div_mod, lemma_fundamental_div_mod_converse,
    lemma_mod_bound, lemma_multiply_divide_lt,
};
use crate::canvas::{Canvas, CanvasView};
use crate::color::{color_distance, distance, lemma_distance, same_rgb};
use crate::geometry::{all_within, Point};

verus! {

/// The pixel that cell `i` of the matrix stands for.
pub open spec fn cell_pixel(height: nat, i: int) -> (int, int) {
    (i / height as int, i % height as int)
}

/// The error of the pixel of cell `i`: how far `canvas` is from `target`
/// there.
pub open spec fn cell_error(canvas: CanvasView, target: CanvasView, i: int) -> u32 {
    let (x, y) = cell_pixel(target.height, i);
    distance(canvas.at(x, y), target.at(x, y)) as u32
}

/// The error matrix of `canvas` against `target`, computed from nothing.
pub open spec fn error_matrix(canvas: CanvasView, target: CanvasView) -> Seq<u32> {
    Seq::new(target.width * target.height, |i: int| cell_error(canvas, target, i))
}

/// The two canvases agree on red, green and blue at every pixel of the
/// target.
pub open spec fn agree_on_rgb(canvas: CanvasView, target: CanvasView) -> bool {
    forall|x: int, y: int|
        target.in_bounds(x, y) ==> same_rgb(#[trigger] canvas.at(x, y), target.at(x, y))
}

/// The sum of a matrix: the objective, lower is better, 0 for two images
/// that agree on red, green and blue everywhere and for no others. It is the
/// plain sum, not divided by the number of pixels.
pub open spec fn sum(matrix: Seq<u32>) -> nat
    decreases matrix.len(),
{
    if matrix.len() == 0 {
        0
    } else {
        sum(matrix.drop_last()) + matrix.last() as nat
    }
}

/// `matrix` with the cells of the pixels that `pixels` names recomputed
/// against `canvas`.
pub open spec fn patch(
    matrix: Seq<u32>,
    pixels: Seq<Point>,
    canvas: CanvasView,
    target: CanvasView,
) -> Seq<u32> {
    Seq::new(
        matrix.len(),
        |i: int|
            {
                let (x, y) = cell_pixel(target.height, i);
                if pixels.contains(Point { x: x as u32, y: y as u32 }) {
                    cell_error(canvas, target, i)
                } else {
                    matrix[i]
                }
            },
    )
}

/// What an error cache is to its contracts: the target and the matrix.
#[verifier::ext_equal]
pub struct ErrorsView {
    pub target: CanvasView,
    pub matrix: Seq<u32>,
}

impl ErrorsView {
    /// The matrix has one cell per pixel of the target.
    pub open spec fn wf(self) -> bool {
        &&& self.target.wf()
        &&& self.target.width <= u32::MAX
        &&& self.target.height <= u32::MAX
        &&& self.matrix.len() == self.target.width * self.target.height
    }

    /// The matrix is the error matrix of `canvas`.
    pub open spec fn matches(self, canvas: CanvasView) -> bool {
        self.matrix == error_matrix(canvas, self.target)
    }

    /// The matrix with the cells of the pixels in either list recomputed
    /// against `canvas`, and every other cell as it is.
    pub open spec fn patched(
        self,
        old_touched: Seq<Point>,
        new_touched: Seq<Point>,
        canvas: CanvasView,
    ) -> Seq<u32> {
        patch(patch(self.matrix, old_touched, canvas, self.target), new_touched, canvas, self.target)
    }

    /// The objective: the sum of the matrix.
    pub open spec fn total(self) -> nat {
        sum(self.matrix)
    }
}

/// Cell `i` of a `width` by `height` matrix stands for a pixel inside the
/// image.
pub proof fn lemma_cell_pixel(width: nat, height: nat, i: int)
    requires
        0 <= i < width * height,
    ensures
        height > 0,
        0 <= cell_pixel(height, i).0 < width,
        0 <= cell_pixel(height, i).1 < height,
        i == cell_pixel(height, i).0 * height + cell_pixel(height, i).1,
{
    if height == 0 {
        assert(width * height == 0) by (nonlinear_arith)
            requires
                height == 0,
        ;
    }
    let h = height as int;
    lemma_fundamental_div_mod(i, h);
    lemma_mod_bound(i, h);
    lemma_div_pos_is_pos(i, h);
    assert(h * (width as int) == width * height) by (nonlinear_arith)
        requires
            h == height,
    ;
    lemma_multiply_divide_lt(i, h, width as int);
    assert(h * (i / h) == (i / h) * h) by (nonlinear_arith);
}

/// Pixel `(x, y)` of a `width` by `height` image has cell `x * height + y`,
/// and no other pixel has it.
pub proof fn lemma_pixel_cell(width: nat, height: nat, x: int, y: int)
    requires
        0 <= x < width,
        0 <= y < height,
    ensures
        0 <= x * height + y < width * height,
        cell_pixel(height, x * height + y) == (x, y),
{
    let h = height as int;
    assert(0 <= x * h && x * h + h <= width * h) by (nonlinear_arith)
        requires
            0 <= x < width,
            0 < h,
    ;
    lemma_fundamental_div_mod_converse(x * h + y, h, x, y);
}

/// The sum of a matrix grows by the last cell.
pub proof fn lemma_sum_push(matrix: Seq<u32>, last: u32)
    ensures
        sum(matrix.push(last)) == sum(matrix) + last,
{
    assert(matrix.push(last).drop_last() =~= matrix);
}

/// A matrix of zeros sums to zero, and only such a matrix does.
pub proof fn lemma_sum_zero(matrix: Seq<u32>)
    ensures
        sum(matrix) == 0 <==> (forall|i: int| 0 <= i < matrix.len() ==> matrix[i] == 0),
    decreases matrix.len(),
{
    if matrix.len() > 0 {
        lemma_sum_zero(matrix.drop_last());
        if sum(matrix) == 0 {
            assert forall|i: int| 0 <= i < matrix.len() implies matrix[i] == 0 by {
                if i < matrix.len() - 1 {
                    assert(matrix.drop_last()[i] == matrix[i]);
                }
            }
        } else if forall|i: int| 0 <= i < matrix.len() ==> matrix[i] == 0 {
            assert forall|i: int| 0 <= i < matrix.drop_last().len() implies matrix.drop_last()[i]
                == 0 by {
                assert(matrix.drop_last()[i] == matrix[i]);
            }
        }
    }
}

/// The objective is 0 exactly when the canvas and the target agree on red,
/// green and blue at every pixel.
pub proof fn lemma_objective_zero(canvas: CanvasView, target: CanvasView)
    ensures
        sum(error_matrix(canvas, target)) == 0 <==> agree_on_rgb(canvas, target),
{
    let matrix = error_matrix(canvas, target);
    lemma_sum_zero(matrix);
    if sum(matrix) == 0 {
        assert forall|x: int, y: int| target.in_bounds(x, y) implies same_rgb(
            #[trigger] canvas.at(x, y),
            target.at(x, y),
        ) by {
            lemma_pixel_cell(target.width, target.height, x, y);
            let i = x * target.height + y;
            assert(matrix[i] == 0);
            lemma_distance(canvas.at(x, y), target.at(x, y));
        }
    }
    if agree_on_rgb(canvas, target) {
        assert forall|i: int| 0 <= i < matrix.len() implies matrix[i] == 0 by {
            lemma_cell_pixel(target.width, target.height, i);
            let (x, y) = cell_pixel(target.height, i);
            assert(target.in_bounds(x, y));
            assert(same_rgb(canvas.at(x, y), target.at(x, y)));
            lemma_distance(canvas.at(x, y), target.at(x, y));
        }
    }
}

/// Committing a second time, with the same canvas and with the pixel list
/// that the first commit put in place as both lists, changes nothing: the
/// matrix after the second commit is the matrix after the first, and so is
/// its sum.
pub proof fn lemma_commit_again(
    view: ErrorsView,
    old_touched: Seq<Point>,
    new_touched: Seq<Point>,
    canvas: CanvasView,
)
    ensures
        (ErrorsView { matrix: view.patched(old_touched, new_touched, canvas), ..view }).patched(
            new_touched,
            new_touched,
            canvas,
        ) == view.patched(old_touched, new_touched, canvas),
{
    let once = view.patched(old_touched, new_touched, canvas);
    let twice = (ErrorsView { matrix: once, ..view }).patched(new_touched, new_touched, canvas);
    assert(twice =~= once);
}

/// Recomputing the touched cells gives the full error matrix of the new
/// canvas, as long as the matrix was that of the old canvas and the two
/// canvases agree on every pixel that neither list names.
pub proof fn lemma_patched_is_full(
    view: ErrorsView,
    old_touched: Seq<Point>,
    new_touched: Seq<Point>,
    old_canvas: CanvasView,
    new_canvas: CanvasView,
)
    requires
        view.wf(),
        view.matches(old_canvas),
        forall|x: int, y: int|
            view.target.in_bounds(x, y) && !old_touched.contains(Point { x: x as u32, y: y as u32 })
                && !new_touched.contains(Point { x: x as u32, y: y as u32 })
                ==> #[trigger] new_canvas.at(x, y) == old_canvas.at(x, y),
    ensures
        view.patched(old_touched, new_touched, new_canvas) == error_matrix(new_canvas, view.target),
{
    let left = view.patched(old_touched, new_touched, new_canvas);
    let right = error_matrix(new_canvas, view.target);
    assert forall|i: int| 0 <= i < left.len() implies left[i] == right[i] by {
        lemma_cell_pixel(view.target.width, view.target.height, i);
        let (x, y) = cell_pixel(view.target.height, i);
        assert(view.target.in_bounds(x, y));
        if !old_touched.contains(Point { x: x as u32, y: y as u32 }) && !new_touched.contains(
            Point { x: x as u32, y: y as u32 },
        ) {
            assert(new_canvas.at(x, y) == old_canvas.at(x, y));
        }
    }
    assert(left =~= right);
}

/// A score taken from the touched pixels alone is 0 exactly when the new
/// canvas and the target agree on red, green and blue at every pixel, as
/// long as the matrix was that of the old canvas and the two canvases agree
/// on every pixel that neither list names.
pub proof fn lemma_patched_sum_zero(
    view: ErrorsView,
    old_touched: Seq<Point>,
    new_touched: Seq<Point>,
    old_canvas: CanvasView,
    new_canvas: CanvasView,
)
    requires
        view.wf(),
        view.matches(old_canvas),
        forall|x: int, y: int|
            view.target.in_bounds(x, y) && !old_touched.contains(Point { x: x as u32, y: y as u32 })
                && !new_touched.contains(Point { x: x as u32, y: y as u32 })
                ==> #[trigger] new_canvas.at(x, y) == old_canvas.at(x, y),
    ensures
        sum(view.patched(old_touched, new_touched, new_canvas)) == 0 <==> agree_on_rgb(
            new_canvas,
            view.target,
        ),
{
    lemma_patched_is_full(view, old_touched, new_touched, old_canvas, new_canvas);
    lemma_objective_zero(new_canvas, view.target);
}

/// The target image and the error matrix of the committed render against
/// it.
pub struct ErrorCache {
    target: Canvas,
    matrix: Vec<u32>,
}

impl View for ErrorCache {
    type V = ErrorsView;

    closed spec fn view(&self) -> ErrorsView {
        ErrorsView { target: self.target@, matrix: self.matrix@ }
    }
}

/// The cell of pixel `(x, y)`.
fn cell_of(width: u32, height: u32, cells: usize, x: u32, y: u32) -> (i: usize)
    requires
        cells == width * height,
        x < width,
        y < height,
    ensures
        i == x * height + y,
        i < cells,
        cell_pixel(height as nat, i as int) == (x as int, y as int),
{
    proof {
        lemma_pixel_cell(width as nat, height as nat, x as int, y as int);
    }
    x as usize * height as usize + y as usize
}

/// Computes the error matrix of `image` against `target` from nothing.
fn full_matrix(image: &Canvas, target: &Canvas) -> (matrix: Vec<u32>)
    requires
        image@.width == target@.width,
        image@.height == target@.height,
    ensures
        matrix@ == error_matrix(image@, target@),
{
    let width = target.width();
    let height = target.height();
    let mut matrix: Vec<u32> = Vec::new();
    let mut x: u32 = 0;
    while x < width
        invariant
            width == target@.width == image@.width,
            height == target@.height == image@.height,
            x <= width,
            matrix.len() == x * height,
            forall|i: int| 0 <= i < matrix.len() ==> matrix[i] == cell_error(image@, target@, i),
        decreases width - x,
    {
        let mut y: u32 = 0;
        while y < height
            invariant
                width == target@.width == image@.width,
                height == target@.height == image@.height,
                x < width,
                y <= height,
                matrix.len() == x * height + y,
                forall|i: int|
                    0 <= i < matrix.len() ==> matrix[i] == cell_error(image@, target@, i),
            decreases height - y,
        {
            proof {
                lemma_pixel_cell(width as nat, height as nat, x as int, y as int);
            }
            let error = color_distance(&image.get_pixel(x, y), &target.get_pixel(x, y));
            matrix.push(error);
            y = y + 1;
        }
        assert(x * height + height == (x + 1) * height) by (nonlinear_arith);
        x = x + 1;
    }
    assert(matrix@ =~= error_matrix(image@, target@));
    matrix
}

/// Sums a matrix.
fn sum_all(matrix: &Vec<u32>) -> (total: u128)
    ensures
        total == sum(matrix@),
{
    let mut total: u128 = 0;
    let mut k: usize = 0;
    while k < matrix.len()
        invariant
            k <= matrix.len(),
            total == sum(matrix@.take(k as int)),
            total <= k * 0xffff_ffff,
        decreases matrix.len() - k,
    {
        proof {
            assert(matrix@.take(k + 1) =~= matrix@.take(k as int).push(matrix@[k as int]));
            lemma_sum_push(matrix@.take(k as int), matrix@[k as int]);
        }
        total = total + matrix[k] as u128;
        k = k + 1;
    }
    assert(matrix@.take(k as int) =~= matrix@);
    total
}

/// Recomputes, against `canvas`, the cells of the pixels that `pixels`
/// names.
fn recompute(target: &Canvas, matrix: &mut Vec<u32>, pixels: &Vec<Point>, canvas: &Canvas)
    requires
        old(matrix).len() == target@.width * target@.height,
        canvas@.width == target@.width,
        canvas@.height == target@.height,
        all_within(pixels@, target@.width as int, target@.height as int),
    ensures
        final(matrix)@ == patch(old(matrix)@, pixels@, canvas@, target@),
{
    let width = target.width();
    let height = target.height();
    let ghost start = matrix@;
    let mut k: usize = 0;
    while k < pixels.len()
        invariant
            k <= pixels.len(),
            width == target@.width == canvas@.width,
            height == target@.height == canvas@.height,
            matrix.len() == width * height,
            start.len() == matrix.len(),
            all_within(pixels@, target@.width as int, target@.height as int),
            matrix@ == patch(start, pixels@.take(k as int), canvas@, target@),
        decreases pixels.len() - k,
    {
        let p = pixels[k];
        let i = cell_of(width, height, matrix.len(), p.x, p.y);
        let error = color_distance(&canvas.get_pixel(p.x, p.y), &target.get_pixel(p.x, p.y));
        let ghost done = pixels@.take(k as int);
        let ghost held = matrix@;
        matrix.set(i, error);
        proof {
            let next = pixels@.take(k + 1);
            assert(next =~= done.push(p));
            assert forall|j: int| 0 <= j < matrix.len() implies matrix@[j] == patch(
                start,
                next,
                canvas@,
                target@,
            )[j] by {
                lemma_cell_pixel(width as nat, height as nat, j);
                let (x, y) = cell_pixel(height as nat, j);
                let q = Point { x: x as u32, y: y as u32 };
                vstd::seq_lib::lemma_seq_contains_after_push(done, p, q);
                assert(held[j] == patch(start, done, canvas@, target@)[j]);
                if j == i {
                    assert(q == p);
                } else {
                    assert(q != p);
                }
            }
            assert(matrix@ =~= patch(start, next, canvas@, target@));
        }
        k = k + 1;
    }
    assert(pixels@.take(k as int) =~= pixels@);
}

impl ErrorCache {
    /// The cache of `image` against `target`: every cell computed.
    pub fn new(image: &Canvas, target: Canvas) -> (cache: ErrorCache)
        requires
            image@.width == target@.width,
            image@.height == target@.height,
        ensures
            cache@.wf(),
            cache@.target == target@,
            cache@.matches(image@),
    {
        proof {
            target.lemma_view();
        }
        let matrix = full_matrix(image, &target);
        ErrorCache { target, matrix }
    }

    /// The target image.
    pub fn target(&self) -> (target: &Canvas)
        ensures
            target@ == self@.target,
    {
        &self.target
    }

    /// The cached error of pixel `(x, y)`.
    pub fn error_at(&self, x: u32, y: u32) -> (error: u32)
        requires
            self@.wf(),
            self@.target.in_bounds(x as int, y as int),
        ensures
            error == self@.matrix[x * self@.target.height + y],
    {
        let i = cell_of(self.target.width(), self.target.height(), self.matrix.len(), x, y);
        self.matrix[i]
    }

    /// Whether the matrix is the error matrix of `image`, cell for cell.
    /// Computes the errors of `image` from nothing and compares.
    pub fn matches(&self, image: &Canvas) -> (ok: bool)
        requires
            image@.width == self@.target.width,
            image@.height == self@.target.height,
        ensures
            ok == self@.matches(image@),
    {
        let full = full_matrix(image, &self.target);
        if full.len() != self.matrix.len() {
            return false;
        }
        let mut k: usize = 0;
        while k < full.len()
            invariant
                k <= full.len(),
                full.len() == self.matrix.len(),
                full@ == error_matrix(image@, self.target@),
                forall|i: int| 0 <= i < k ==> self.matrix@[i] == full@[i],
            decreases full.len() - k,
        {
            if self.matrix[k] != full[k] {
                return false;
            }
            k = k + 1;
        }
        assert(self.matrix@ =~= full@);
        true
    }

    /// The objective of the committed render: the sum of the matrix.
    pub fn total(&self) -> (total: u128)
        ensures
            total == self@.total(),
    {
        sum_all(&self.matrix)
    }

    /// The objective that `canvas` would have. Works on a copy of the
    /// matrix: recomputes, against `canvas`, the cells of the pixels in
    /// either list, and sums the whole copy. The cache is left as it is.
    pub fn trial_score(
        &self,
        old_touched: &Vec<Point>,
        new_touched: &Vec<Point>,
        canvas: &Canvas,
    ) -> (score: u128)
        requires
            self@.wf(),
            canvas@.width == self@.target.width,
            canvas@.height == self@.target.height,
            all_within(old_touched@, self@.target.width as int, self@.target.height as int),
            all_within(new_touched@, self@.target.width as int, self@.target.height as int),
        ensures
            score == sum(self@.patched(old_touched@, new_touched@, canvas@)),
    {
        let mut scratch = self.matrix.clone();
        assert(scratch@ =~= self.matrix@);
        recompute(&self.target, &mut scratch, old_touched, canvas);
        recompute(&self.target, &mut scratch, new_touched, canvas);
        sum_all(&scratch)
    }

    /// Makes the recomputed cells permanent: writes, against `canvas`, the
    /// cells of the pixels in either list.
    pub fn commit(&mut self, old_touched: &Vec<Point>, new_touched: &Vec<Point>, canvas: &Canvas)
        requires
            old(self)@.wf(),
            canvas@.width == old(self)@.target.width,
            canvas@.height == old(self)@.target.height,
            all_within(
                old_touched@,
                old(self)@.target.width as int,
                old(self)@.target.height as int,
            ),
            all_within(
                new_touched@,
                old(self)@.target.width as int,
                old(self)@.target.height as int,
            ),
        ensures
            final(self)@.wf(),
            final(self)@.target == old(self)@.target,
            final(self)@.matrix == old(self)@.patched(old_touched@, new_touched@, canvas@),
    {
        recompute(&self.target, &mut self.matrix, old_touched, canvas);
        recompute(&self.target, &mut self.matrix, new_touched, canvas);
    }
}

/// The objective of `image` against `ref_image`, computed from nothing: the
/// sum over all pixels of the distance between the two. It is 0 exactly when
/// the two agree on red, green and blue at every pixel.
pub fn fitness(image: &Canvas, ref_image: &Canvas) -> (total: u128)
    requires
        image@.width == ref_image@.width,
        image@.height == ref_image@.height,
    ensures
        total == sum(error_matrix(image@, ref_image@)),
        total == 0 <==> agree_on_rgb(image@, ref_image@),
{
    proof {
        lemma_objective_zero(image@, ref_image@);
    }
    let matrix = full_matrix(image, ref_image);
    sum_all(&matrix)
}

} // verus!
