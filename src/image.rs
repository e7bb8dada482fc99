use vstd::prelude::*;

verus! {

/// A `width` x `height` grid of accumulated pixel values, stored row by row
/// (`pixels[y][x]`).
pub struct Image<P> {
    width: i32,
    height: i32,
    pixels: Vec<Vec<P>>,
}

impl<P> View for Image<P> {
    type V = Seq<Seq<P>>;

    /// The rows of the grid, top row first.
    closed spec fn view(&self) -> Seq<Seq<P>> {
        Seq::new(self.pixels.len() as nat, |y: int| self.pixels@[y]@)
    }
}

impl<P> Image<P> {
    pub closed spec fn spec_width(&self) -> int {
        self.width as int
    }

    pub closed spec fn spec_height(&self) -> int {
        self.height as int
    }

    /// The grid has `height` rows of `width` pixels each.
    pub open spec fn wf(&self) -> bool {
        &&& 0 <= self.spec_width()
        &&& 0 <= self.spec_height()
        &&& self@.len() == self.spec_height()
        &&& forall|y: int| 0 <= y < self.spec_height() ==> (#[trigger] self@[y]).len() == self.spec_width()
    }

    /// Whether `(x, y)` names a pixel of the grid.
    pub open spec fn in_bounds(&self, x: int, y: int) -> bool {
        0 <= x < self.spec_width() && 0 <= y < self.spec_height()
    }

    pub fn width(&self) -> (r: i32)
        ensures
            r == self.spec_width(),
    {
        self.width
    }

    pub fn height(&self) -> (r: i32)
        ensures
            r == self.spec_height(),
    {
        self.height
    }
}

impl<P: Copy> Image<P> {
    /// A grid whose every pixel holds `zero`.
    pub fn new(width: i32, height: i32, zero: P) -> (r: Image<P>)
        requires
            width >= 0,
            height >= 0,
        ensures
            r.wf(),
            r.spec_width() == width,
            r.spec_height() == height,
            forall|x: int, y: int| r.in_bounds(x, y) ==> r@[y][x] == zero,
    {
        let mut pixels: Vec<Vec<P>> = Vec::with_capacity(height as usize);
        let mut y: i32 = 0;
        while y < height
            invariant
                0 <= y <= height,
                width >= 0,
                pixels.len() == y,
                forall|j: int| 0 <= j < y ==> (#[trigger] pixels@[j])@ == Seq::new(width as nat, |x: int| zero),
            decreases height - y,
        {
            let mut row: Vec<P> = Vec::with_capacity(width as usize);
            let mut x: i32 = 0;
            while x < width
                invariant
                    0 <= x <= width,
                    width >= 0,
                    row@ == Seq::new(x as nat, |i: int| zero),
                decreases width - x,
            {
                row.push(zero);
                x += 1;
                assert(row@ =~= Seq::new(x as nat, |i: int| zero));
            }
            pixels.push(row);
            y += 1;
        }
        Image { width, height, pixels }
    }

    pub fn pixel(&self, x: i32, y: i32) -> (r: P)
        requires
            self.wf(),
            self.in_bounds(x as int, y as int),
        ensures
            r == self@[y as int][x as int],
    {
        assert(self@[y as int] == self.pixels@[y as int]@);
        self.pixels[y as usize][x as usize]
    }

    /// Overwrites pixel `(x, y)`; every other pixel is kept.
    pub fn set_pixel(&mut self, x: i32, y: i32, color: P)
        requires
            old(self).wf(),
            old(self).in_bounds(x as int, y as int),
        ensures
            final(self).wf(),
            final(self).spec_width() == old(self).spec_width(),
            final(self).spec_height() == old(self).spec_height(),
            final(self)@ == old(self)@.update(y as int, old(self)@[y as int].update(x as int, color)),
    {
        assert(self@[y as int] == self.pixels@[y as int]@);
        self.pixels[y as usize][x as usize] = color;
        assert(self@ =~= old(self)@.update(y as int, old(self)@[y as int].update(x as int, color)));
    }

    /// The image whose every pixel is `f` of the corresponding pixel of this
    /// one.
    pub fn map<Q, F: Fn(P) -> Q>(&self, f: F) -> (r: Image<Q>)
        requires
            self.wf(),
            forall|a: P| #[trigger] f.requires((a,)),
        ensures
            r.wf(),
            r.spec_width() == self.spec_width(),
            r.spec_height() == self.spec_height(),
            forall|x: int, y: int|
                r.in_bounds(x, y) ==> f.ensures((self@[y][x],), #[trigger] r@[y][x]),
    {
        let width = self.width;
        let height = self.height;
        let mut rows: Vec<Vec<Q>> = Vec::with_capacity(height as usize);
        let mut y: i32 = 0;
        while y < height
            invariant
                self.wf(),
                width == self.spec_width(),
                height == self.spec_height(),
                forall|a: P| #[trigger] f.requires((a,)),
                0 <= y <= height,
                rows.len() == y,
                forall|j: int| 0 <= j < y ==> (#[trigger] rows@[j]).len() == width,
                forall|i: int, j: int|
                    0 <= j < y && 0 <= i < width ==> f.ensures((self@[j][i],), #[trigger] rows@[j]@[i]),
            decreases height - y,
        {
            let mut row: Vec<Q> = Vec::with_capacity(width as usize);
            let mut x: i32 = 0;
            while x < width
                invariant
                    self.wf(),
                    width == self.spec_width(),
                    height == self.spec_height(),
                    forall|a: P| #[trigger] f.requires((a,)),
                    0 <= y < height,
                    0 <= x <= width,
                    row.len() == x,
                    forall|i: int| 0 <= i < x ==> f.ensures((self@[y as int][i],), #[trigger] row@[i]),
                decreases width - x,
            {
                let v = self.pixel(x, y);
                row.push(f(v));
                x += 1;
            }
            rows.push(row);
            y += 1;
        }
        let r = Image { width, height, pixels: rows };
        assert forall|x: int, y: int| r.in_bounds(x, y) implies f.ensures((self@[y][x],), #[trigger] r@[y][x]) by {
            assert(r@[y] == rows@[y]@);
        }
        r
    }

    /// Combines `other` into this image pixel by pixel: each pixel becomes
    /// `combine(own, theirs)`.
    pub fn add_image<F: Fn(P, P) -> P>(&mut self, other: &Image<P>, combine: F)
        requires
            old(self).wf(),
            other.wf(),
            other.spec_width() == old(self).spec_width(),
            other.spec_height() == old(self).spec_height(),
            forall|a: P, b: P| #[trigger] combine.requires((a, b)),
        ensures
            final(self).wf(),
            final(self).spec_width() == old(self).spec_width(),
            final(self).spec_height() == old(self).spec_height(),
            forall|x: int, y: int|
                final(self).in_bounds(x, y) ==> combine.ensures(
                    (old(self)@[y][x], other@[y][x]),
                    #[trigger] final(self)@[y][x],
                ),
    {
        let ghost start = self@;
        let width = self.width;
        let height = self.height;
        let mut y: i32 = 0;
        while y < height
            invariant
                self.wf(),
                other.wf(),
                self.spec_width() == width,
                self.spec_height() == height,
                other.spec_width() == width,
                other.spec_height() == height,
                start.len() == height,
                forall|j: int| 0 <= j < height ==> (#[trigger] start[j]).len() == width,
                forall|a: P, b: P| #[trigger] combine.requires((a, b)),
                0 <= y <= height,
                forall|j: int| y <= j < height ==> #[trigger] self@[j] == start[j],
                forall|i: int, j: int|
                    0 <= j < y && 0 <= i < width ==> combine.ensures(
                        (start[j][i], other@[j][i]),
                        #[trigger] self@[j][i],
                    ),
            decreases height - y,
        {
            let mut x: i32 = 0;
            while x < width
                invariant
                    self.wf(),
                    other.wf(),
                    self.spec_width() == width,
                    self.spec_height() == height,
                    other.spec_width() == width,
                    other.spec_height() == height,
                    start.len() == height,
                    forall|j: int| 0 <= j < height ==> (#[trigger] start[j]).len() == width,
                    forall|a: P, b: P| #[trigger] combine.requires((a, b)),
                    0 <= y < height,
                    0 <= x <= width,
                    forall|j: int| y < j < height ==> #[trigger] self@[j] == start[j],
                    forall|i: int| x <= i < width ==> #[trigger] self@[y as int][i] == start[y as int][i],
                    forall|i: int, j: int|
                        (0 <= j < y && 0 <= i < width) || (j == y && 0 <= i < x) ==> combine.ensures(
                            (start[j][i], other@[j][i]),
                            #[trigger] self@[j][i],
                        ),
                decreases width - x,
            {
                let a = self.pixel(x, y);
                let b = other.pixel(x, y);
                let c = combine(a, b);
                self.set_pixel(x, y, c);
                x += 1;
            }
            y += 1;
        }
    }
}

} // verus!
