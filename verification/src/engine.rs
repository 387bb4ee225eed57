//! The engine: one classification per pixel of a fixed square grid.

use vstd::prelude::*;
use vstd::arithmetic::div_mod::lemma_fundamental_div_mod_converse;
use crate::grid::RowCol;
use crate::pixel::Pixel;

verus! {

/// Width of the grid in pixels.
pub const WIDTH: u32 = 800;

/// Height of the grid in pixels.
pub const HEIGHT: u32 = 800;

/// Iteration budget of the escape-time test of each pixel.
pub const ITERATION_BUDGET: u32 = 200;

/// The classification of every pixel of the grid, in index order.
pub struct Mand {
    width: u32,
    height: u32,
    pixels: Vec<Pixel>,
}

impl View for Mand {
    type V = Seq<Pixel>;

    /// The pixel buffer.
    closed spec fn view(&self) -> Seq<Pixel> {
        self.pixels@
    }
}

impl Mand {
    #[verifier::type_invariant]
    spec fn shaped(self) -> bool {
        &&& self.width == WIDTH
        &&& self.height == HEIGHT
        &&& self.pixels@.len() == self.width * self.height
    }

    /// The grid's width.
    pub closed spec fn spec_width(&self) -> u32 {
        self.width
    }

    /// The grid's height.
    pub closed spec fn spec_height(&self) -> u32 {
        self.height
    }

    /// Whether this engine holds, for each pixel index, a verdict that
    /// `classify` can give on the cell of that index under the engine's
    /// iteration budget.
    pub open spec fn rendered_by<F: Fn(RowCol, u32) -> bool>(&self, classify: F) -> bool {
        &&& self.spec_width() == WIDTH
        &&& self.spec_height() == HEIGHT
        &&& self@.len() == WIDTH * HEIGHT
        &&& forall|p: int|
            0 <= p < WIDTH * HEIGHT ==> classify.ensures(
                (RowCol::at(p as u32, WIDTH, HEIGHT), ITERATION_BUDGET),
                #[trigger] self@[p] == Pixel::In,
            )
    }

    /// Classifies every pixel of the grid.
    ///
    /// `classify` takes a cell and an iteration budget and says whether the
    /// point that the cell stands for stays bounded within that budget. It is
    /// asked once for each index, in index order, with the engine's budget.
    pub fn new<F: Fn(RowCol, u32) -> bool>(classify: F) -> (engine: Mand)
        requires
            forall|p: u32| p < WIDTH * HEIGHT ==> classify.requires(
                (RowCol::at(p, WIDTH, HEIGHT), ITERATION_BUDGET),
            ),
        ensures
            engine.rendered_by(classify),
            engine@.len() == engine.spec_width() * engine.spec_height(),
    {
        let width: u32 = WIDTH;
        let height: u32 = HEIGHT;
        let total: u32 = width * height;
        let mut pixels: Vec<Pixel> = Vec::new();
        let mut p: u32 = 0;
        while p < total
            invariant
                width == WIDTH,
                height == HEIGHT,
                total == WIDTH * HEIGHT,
                p <= total,
                pixels@.len() == p,
                forall|q: u32| q < WIDTH * HEIGHT ==> classify.requires(
                        (RowCol::at(q, WIDTH, HEIGHT), ITERATION_BUDGET),
                    ),
                forall|q: int|
                    0 <= q < p ==> classify.ensures(
                        (RowCol::at(q as u32, WIDTH, HEIGHT), ITERATION_BUDGET),
                        #[trigger] pixels@[q] == Pixel::In,
                    ),
            decreases total - p,
        {
            let cell = RowCol::from_index(p, &width, &height);
            let bounded = classify(cell, ITERATION_BUDGET);
            pixels.push(Pixel::from_bounded(bounded));
            p += 1;
        }
        Mand { width, height, pixels }
    }

    /// The grid's width in pixels.
    #[verifier::when_used_as_spec(spec_width)]
    pub fn width(&self) -> (w: u32)
        ensures
            w == self.spec_width(),
            w == WIDTH,
    {
        proof {
            use_type_invariant(self);
        }
        self.width
    }

    /// The grid's height in pixels.
    #[verifier::when_used_as_spec(spec_height)]
    pub fn height(&self) -> (h: u32)
        ensures
            h == self.spec_height(),
            h == HEIGHT,
    {
        proof {
            use_type_invariant(self);
        }
        self.height
    }

    /// The pixel buffer, one classification per pixel in index order.
    pub fn pixels(&self) -> (buffer: &[Pixel])
        ensures
            buffer@ == self@,
            buffer@.len() == self.spec_width() * self.spec_height(),
    {
        proof {
            use_type_invariant(self);
        }
        self.pixels.as_slice()
    }
}

/// The buffer is laid out row by row: the pixel at `row * WIDTH + col` is
/// the verdict on the cell in that row and column.
pub proof fn lemma_buffer_is_row_major<F: Fn(RowCol, u32) -> bool>(
    classify: F,
    engine: Mand,
    row: u32,
    col: u32,
)
    requires
        engine.rendered_by(classify),
        row < HEIGHT,
        col < WIDTH,
    ensures
        0 <= row * WIDTH + col < engine@.len(),
        classify.ensures(
            (RowCol { width: WIDTH, height: HEIGHT, row, col }, ITERATION_BUDGET),
            engine@[row * WIDTH + col] == Pixel::In,
        ),
{
    let p: int = row * WIDTH + col;
    let cell = RowCol::at(p as u32, WIDTH, HEIGHT);
    lemma_fundamental_div_mod_converse(p, WIDTH as int, row as int, col as int);
    assert(cell.row == row && cell.col == col);
    assert(classify.ensures((cell, ITERATION_BUDGET), engine@[p] == Pixel::In));
}

/// Two engines rendered by one classifier that gives each cell a single
/// verdict hold the same buffer, pixel for pixel and byte for byte.
pub proof fn lemma_same_classifier_same_buffer<F: Fn(RowCol, u32) -> bool>(
    classify: F,
    first: Mand,
    second: Mand,
)
    requires
        first.rendered_by(classify),
        second.rendered_by(classify),
        forall|cell: RowCol, x: bool, y: bool|
            classify.ensures((cell, ITERATION_BUDGET), x) && classify.ensures(
                (cell, ITERATION_BUDGET),
                y,
            ) ==> x == y,
    ensures
        first@ == second@,
        first.spec_width() == second.spec_width(),
        first.spec_height() == second.spec_height(),
        forall|p: int| 0 <= p < first@.len() ==> first@[p].code() == second@[p].code(),
{
    assert forall|p: int| 0 <= p < first@.len() implies first@[p] == second@[p] by {
        let cell = RowCol::at(p as u32, WIDTH, HEIGHT);
        assert(classify.ensures((cell, ITERATION_BUDGET), first@[p] == Pixel::In));
        assert(classify.ensures((cell, ITERATION_BUDGET), second@[p] == Pixel::In));
    }
    assert(first@ =~= second@);
}

} // verus!
