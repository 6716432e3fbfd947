use vstd::prelude::*;
use crate::utils::color::RGBColor;

verus! {

/// A buffer for pixel drawing. Each pixel takes three bytes, red, green and
/// blue, and each row of pixels starts `pitch` bytes after the one before.
pub struct Canvas {
    buffer: Vec<u8>,
    pitch: usize,
    height: usize,
    width: usize,
}

impl Canvas {
    /// The bytes of the buffer.
    pub closed spec fn bytes(&self) -> Seq<u8> {
        self.buffer@
    }

    /// The number of bytes from the start of one row to the start of the next.
    pub closed spec fn spec_pitch(&self) -> usize {
        self.pitch
    }

    /// The width of the canvas
    pub closed spec fn spec_width(&self) -> usize {
        self.width
    }

    /// The height of the canvas
    pub closed spec fn spec_height(&self) -> usize {
        self.height
    }

    /// The rows do not overlap and the buffer holds all of them.
    pub open spec fn wf(&self) -> bool {
        &&& 3 * self.spec_width() <= self.spec_pitch()
        &&& self.spec_pitch() * self.spec_height() <= self.bytes().len()
    }

    /// Where in the buffer the pixel in column `x` of row `y` starts.
    pub open spec fn offset(&self, x: int, y: int) -> int {
        y * self.spec_pitch() + x * 3
    }

    /// The colour of the pixel in column `x` of row `y`.
    pub open spec fn pixel_at(&self, x: int, y: int) -> RGBColor {
        RGBColor {
            red: self.bytes()[self.offset(x, y)],
            green: self.bytes()[self.offset(x, y) + 1],
            blue: self.bytes()[self.offset(x, y) + 2],
        }
    }

    /// Whether the byte at `index` of the buffer belongs to a pixel of column `x`.
    pub open spec fn in_column(&self, index: int, x: int) -> bool {
        exists|y: int|
            0 <= y < self.spec_height() && (#[trigger] self.offset(x, y)) <= index < self.offset(
                x,
                y,
            ) + 3
    }

    /// Whether the byte at `index` of the buffer belongs to a pixel.
    pub open spec fn in_pixel(&self, index: int) -> bool {
        exists|x: int| 0 <= x < self.spec_width() && #[trigger] self.in_column(index, x)
    }

    /// Whether this canvas is as large as `before` and holds the same bytes
    /// but for those of the pixels of column `x`.
    pub open spec fn differs_in_column(&self, before: &Canvas, x: int) -> bool {
        &&& self.spec_width() == before.spec_width()
        &&& self.spec_height() == before.spec_height()
        &&& self.spec_pitch() == before.spec_pitch()
        &&& self.bytes().len() == before.bytes().len()
        &&& forall|k: int|
            0 <= k < self.bytes().len() && !before.in_column(k, x) ==> #[trigger] self.bytes()[k]
                == before.bytes()[k]
    }

    /// Whether this canvas is as large as `before` and holds the same bytes
    /// but for those of the pixels.
    pub open spec fn differs_in_pixels(&self, before: &Canvas) -> bool {
        &&& self.spec_width() == before.spec_width()
        &&& self.spec_height() == before.spec_height()
        &&& self.spec_pitch() == before.spec_pitch()
        &&& self.bytes().len() == before.bytes().len()
        &&& forall|k: int|
            0 <= k < self.bytes().len() && !before.in_pixel(k) ==> #[trigger] self.bytes()[k]
                == before.bytes()[k]
    }

    /// Creates a new drawing buffer over the given bytes, with the given pitch, width and
    /// height.
    pub fn new(buffer: Vec<u8>, pitch: usize, width: usize, height: usize) -> (canvas: Canvas)
        ensures
            canvas.bytes() == buffer@,
            canvas.spec_pitch() == pitch,
            canvas.spec_width() == width,
            canvas.spec_height() == height,
    {
        Canvas { buffer, pitch, width, height }
    }

    /// The width of the canvas
    #[verifier::when_used_as_spec(spec_width)]
    pub fn width(&self) -> (width: usize)
        ensures
            width == self.spec_width(),
    {
        self.width
    }

    /// The height of the canvas
    #[verifier::when_used_as_spec(spec_height)]
    pub fn height(&self) -> (height: usize)
        ensures
            height == self.spec_height(),
    {
        self.height
    }

    /// The bytes of the canvas.
    pub fn buffer(&self) -> (buffer: &Vec<u8>)
        ensures
            buffer@ == self.bytes(),
    {
        &self.buffer
    }

    /// Whether every pixel of the canvas has its bytes in the buffer, apart from those of every
    /// other pixel. Only such a canvas can be drawn to.
    pub fn fits(&self) -> (fits: bool)
        ensures
            fits == self.wf(),
    {
        assert(self.pitch * self.height <= 0xffff_ffff_ffff_ffff * 0xffff_ffff_ffff_ffff)
            by (nonlinear_arith)
            requires
                0 <= self.pitch <= 0xffff_ffff_ffff_ffff,
                0 <= self.height <= 0xffff_ffff_ffff_ffff,
        ;
        3 * (self.width as u128) <= self.pitch as u128 && (self.pitch as u128) * (
        self.height as u128) <= self.buffer.len() as u128
    }

    /// The colour of the pixel at the given coordinates.
    pub fn pixel(&self, x: usize, y: usize) -> (color: RGBColor)
        requires
            self.wf(),
            x < self.spec_width(),
            y < self.spec_height(),
        ensures
            color == self.pixel_at(x as int, y as int),
    {
        let size: usize = self.buffer.len();
        proof {
            lemma_pixel_in_buffer(self, x as int, y as int);
        }
        let offset: usize = y * self.pitch + x * 3;
        RGBColor {
            red: self.buffer[offset],
            green: self.buffer[offset + 1],
            blue: self.buffer[offset + 2],
        }
    }

    /// Draws a pixel at the given coordinates.
    pub fn draw_pixel(&mut self, x: usize, y: usize, color: &RGBColor)
        requires
            old(self).wf(),
            x < old(self).spec_width(),
            y < old(self).spec_height(),
        ensures
            final(self).spec_width() == old(self).spec_width(),
            final(self).spec_height() == old(self).spec_height(),
            final(self).spec_pitch() == old(self).spec_pitch(),
            final(self).wf(),
            final(self).bytes() == old(self).bytes().update(
                old(self).offset(x as int, y as int),
                color.red,
            ).update(old(self).offset(x as int, y as int) + 1, color.green).update(
                old(self).offset(x as int, y as int) + 2,
                color.blue,
            ),
            final(self).differs_in_column(old(self), x as int),
            final(self).pixel_at(x as int, y as int) == *color,
            forall|i: int, j: int|
                0 <= i < old(self).spec_width() && 0 <= j < old(self).spec_height() && (i != x
                    || j != y) ==> final(self).pixel_at(i, j) == old(self).pixel_at(i, j),
    {
        let size: usize = self.buffer.len();
        proof {
            lemma_pixel_in_buffer(self, x as int, y as int);
        }
        let offset: usize = y * self.pitch + x * 3;
        self.buffer[offset] = color.red;
        self.buffer[offset + 1] = color.green;
        self.buffer[offset + 2] = color.blue;
        proof {
            assert(old(self).offset(x as int, y as int) == offset);
            assert forall|k: int|
                0 <= k < self.bytes().len() && !old(self).in_column(
                    k,
                    x as int,
                ) implies self.bytes()[k] == old(self).bytes()[k] by {
                assert(!(old(self).offset(x as int, y as int) <= k < old(self).offset(
                    x as int,
                    y as int,
                ) + 3));
            }
            assert forall|i: int, j: int|
                0 <= i < old(self).spec_width() && 0 <= j < old(self).spec_height() && (i != x
                    || j != y) implies self.pixel_at(i, j) == old(self).pixel_at(i, j) by {
                lemma_pixel_in_buffer(old(self), i, j);
                lemma_pixels_apart(old(self), i, j, x as int, y as int);
            }
        }
    }
}

/// Canvases of one size have the bytes of a column in the same places.
pub proof fn lemma_same_columns(a: &Canvas, b: &Canvas, index: int, x: int)
    requires
        a.spec_height() == b.spec_height(),
        a.spec_pitch() == b.spec_pitch(),
    ensures
        a.in_column(index, x) == b.in_column(index, x),
{
    if a.in_column(index, x) {
        let y = choose|y: int|
            0 <= y < a.spec_height() && (#[trigger] a.offset(x, y)) <= index < a.offset(x, y) + 3;
        assert(b.offset(x, y) == a.offset(x, y));
    }
    if b.in_column(index, x) {
        let y = choose|y: int|
            0 <= y < b.spec_height() && (#[trigger] b.offset(x, y)) <= index < b.offset(x, y) + 3;
        assert(a.offset(x, y) == b.offset(x, y));
    }
}

/// What was changed twice in one column differs from the first state in
/// that column only.
pub proof fn lemma_differs_in_column_again(now: &Canvas, between: &Canvas, before: &Canvas, x: int)
    requires
        now.differs_in_column(between, x),
        between.differs_in_column(before, x),
    ensures
        now.differs_in_column(before, x),
{
    assert forall|k: int|
        0 <= k < now.bytes().len() && !before.in_column(k, x) implies #[trigger] now.bytes()[k]
        == before.bytes()[k] by {
        lemma_same_columns(between, before, k, x);
        assert(between.bytes()[k] == before.bytes()[k]);
    }
}

/// What differs in one column only differs in pixels only.
pub proof fn lemma_column_is_of_pixels(now: &Canvas, before: &Canvas, x: int)
    requires
        now.differs_in_column(before, x),
        0 <= x < before.spec_width(),
    ensures
        now.differs_in_pixels(before),
{
    assert forall|k: int|
        0 <= k < now.bytes().len() && !before.in_pixel(k) implies #[trigger] now.bytes()[k]
        == before.bytes()[k] by {
        assert(!before.in_column(k, x));
    }
}

/// What was changed twice in pixels only differs from the first state in
/// pixels only.
pub proof fn lemma_differs_in_pixels_again(now: &Canvas, between: &Canvas, before: &Canvas)
    requires
        now.differs_in_pixels(between),
        between.differs_in_pixels(before),
    ensures
        now.differs_in_pixels(before),
{
    assert forall|k: int|
        0 <= k < now.bytes().len() && !before.in_pixel(k) implies #[trigger] now.bytes()[k]
        == before.bytes()[k] by {
        if between.in_pixel(k) {
            let x = choose|x: int|
                0 <= x < between.spec_width() && #[trigger] between.in_column(k, x);
            lemma_same_columns(between, before, k, x);
            assert(before.in_column(k, x));
        }
        assert(between.bytes()[k] == before.bytes()[k]);
    }
}

/// The three bytes of a pixel of the canvas lie within its buffer.
pub proof fn lemma_pixel_in_buffer(canvas: &Canvas, x: int, y: int)
    requires
        canvas.wf(),
        0 <= x < canvas.spec_width(),
        0 <= y < canvas.spec_height(),
    ensures
        0 <= canvas.offset(x, y),
        canvas.offset(x, y) + 3 <= canvas.bytes().len(),
        0 <= y * canvas.spec_pitch() <= canvas.bytes().len(),
{
    let pitch = canvas.spec_pitch() as int;
    let height = canvas.spec_height() as int;
    assert(0 <= y * pitch && y * pitch + pitch <= pitch * height) by (nonlinear_arith)
        requires
            0 <= y < height,
            0 <= pitch,
    ;
}

/// Two different pixels of the canvas share no byte.
pub proof fn lemma_pixels_apart(canvas: &Canvas, i: int, j: int, x: int, y: int)
    requires
        canvas.wf(),
        0 <= i < canvas.spec_width(),
        0 <= j < canvas.spec_height(),
        0 <= x < canvas.spec_width(),
        0 <= y < canvas.spec_height(),
        i != x || j != y,
    ensures
        canvas.offset(i, j) + 3 <= canvas.offset(x, y) || canvas.offset(x, y) + 3
            <= canvas.offset(i, j),
{
    let pitch = canvas.spec_pitch() as int;
    if j < y {
        assert(j * pitch + pitch <= y * pitch) by (nonlinear_arith)
            requires
                j + 1 <= y,
                0 <= pitch,
        ;
    } else if y < j {
        assert(y * pitch + pitch <= j * pitch) by (nonlinear_arith)
            requires
                y + 1 <= j,
                0 <= pitch,
        ;
    }
}

} // verus!
