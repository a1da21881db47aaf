//! A generic fixed-size 2D array with a dense row-major backing store.
//!
//! Coordinates are `(x, y)` with `0 <= x < width` and `0 <= y < height`;
//! the cell `(x, y)` lives at flat index `x + y * width`.  Checked
//! accessors take `i32` coordinates and answer `None` out of bounds;
//! unchecked accessors state in-bounds coordinates as a precondition.

use vstd::prelude::*;

verus! {

pub struct Arr2d<T> {
    width: u32,
    height: u32,
    data_vec: Vec<T>,
}

/// Flat index of `(x, y)` in a row-major grid of the given width.
pub open spec fn flat_index(x: int, y: int, width: int) -> int {
    x + y * width
}

proof fn lemma_flat_index_bound(x: int, y: int, w: int, h: int)
    by (nonlinear_arith)
    requires
        0 <= x < w,
        0 <= y < h,
    ensures
        0 <= flat_index(x, y, w) < w * h,
{
}

proof fn lemma_flat_index_injective(x1: int, y1: int, x2: int, y2: int, w: int, h: int)
    by (nonlinear_arith)
    requires
        0 <= x1 < w,
        0 <= y1 < h,
        0 <= x2 < w,
        0 <= y2 < h,
        x1 != x2 || y1 != y2,
    ensures
        flat_index(x1, y1, w) != flat_index(x2, y2, w),
{
}

impl<T> Arr2d<T> where T: Copy {
    /// The backing store holds exactly one cell per coordinate, and both
    /// dimensions fit in `i32` so that checked accessors can compare
    /// signed coordinates without conversion loss.
    pub closed spec fn wf(self) -> bool {
        &&& self.data_vec@.len() == (self.width as int) * (self.height as int)
        &&& (self.width as int) * (self.height as int) <= u32::MAX
        &&& self.width <= i32::MAX
        &&& self.height <= i32::MAX
    }

    pub closed spec fn spec_width(self) -> u32 {
        self.width
    }

    pub closed spec fn spec_height(self) -> u32 {
        self.height
    }

    pub open spec fn in_bounds(self, x: int, y: int) -> bool {
        0 <= x < self.spec_width() && 0 <= y < self.spec_height()
    }

    /// The cell at `(x, y)`.
    pub closed spec fn at(self, x: int, y: int) -> T {
        self.data_vec@[flat_index(x, y, self.width as int)]
    }

    /// Both dimensions of a well-formed grid fit in `i32`.
    pub proof fn lemma_wf_dims(self)
        requires
            self.wf(),
        ensures
            self.spec_width() <= i32::MAX,
            self.spec_height() <= i32::MAX,
    {
    }

    pub fn new(width: u32, height: u32, default: T) -> (r: Arr2d<T>)
        requires
            width <= i32::MAX,
            height <= i32::MAX,
            width * height <= u32::MAX,
        ensures
            r.wf(),
            r.spec_width() == width,
            r.spec_height() == height,
            forall|x: int, y: int| r.in_bounds(x, y) ==> r.at(x, y) == default,
    {
        let total: usize = (width as usize) * (height as usize);
        let mut data_vec: Vec<T> = Vec::new();
        let mut i: usize = 0;
        while i < total
            invariant
                i <= total,
                data_vec@.len() == i,
                forall|j: int| 0 <= j < i ==> data_vec@[j] == default,
            decreases total - i,
        {
            data_vec.push(default);
            i = i + 1;
        }
        let r = Arr2d { width, height, data_vec };
        proof {
            assert forall|x: int, y: int| r.in_bounds(x, y) implies r.at(x, y) == default by {
                lemma_flat_index_bound(x, y, width as int, height as int);
            }
        }
        r
    }

    fn valid_index(&self, x: i32, y: i32) -> (r: Option<usize>)
        requires
            self.wf(),
        ensures
            r is Some <==> self.in_bounds(x as int, y as int),
            r matches Some(i) ==> i == flat_index(x as int, y as int, self.spec_width() as int)
                && i < self.data_vec@.len(),
    {
        if 0 <= x && x < self.width as i32 && 0 <= y && y < self.height as i32 {
            Some(self.index(x as u32, y as u32))
        } else {
            None
        }
    }

    fn index(&self, x: u32, y: u32) -> (r: usize)
        requires
            self.wf(),
            self.in_bounds(x as int, y as int),
        ensures
            r == flat_index(x as int, y as int, self.spec_width() as int),
            r < self.data_vec@.len(),
    {
        proof {
            lemma_flat_index_bound(x as int, y as int, self.width as int, self.height as int);
        }
        (x as usize) + (y as usize) * (self.width as usize)
    }

    pub fn get(&self, x: i32, y: i32) -> (r: Option<&T>)
        requires
            self.wf(),
        ensures
            r is Some <==> self.in_bounds(x as int, y as int),
            r matches Some(v) ==> *v == self.at(x as int, y as int),
    {
        match self.valid_index(x, y) {
            Some(index) => Some(&self.data_vec[index]),
            None => None,
        }
    }

    pub fn get_unsafe(&self, x: u32, y: u32) -> (r: &T)
        requires
            self.wf(),
            self.in_bounds(x as int, y as int),
        ensures
            *r == self.at(x as int, y as int),
    {
        let index = self.index(x, y);
        &self.data_vec[index]
    }

    pub fn set(&mut self, x: i32, y: i32, e: T)
        requires
            old(self).wf(),
            old(self).in_bounds(x as int, y as int),
        ensures
            final(self).wf(),
            final(self).spec_width() == old(self).spec_width(),
            final(self).spec_height() == old(self).spec_height(),
            final(self).at(x as int, y as int) == e,
            forall|i: int, j: int|
                old(self).in_bounds(i, j) && (i != x || j != y)
                    ==> #[trigger] final(self).at(i, j) == old(self).at(i, j),
    {
        let index = self.index(x as u32, y as u32);
        self.data_vec.set(index, e);
        proof {
            assert forall|i: int, j: int|
                old(self).in_bounds(i, j) && (i != x || j != y)
                    implies self.at(i, j) == old(self).at(i, j) by {
                lemma_flat_index_bound(i, j, self.width as int, self.height as int);
                lemma_flat_index_injective(i, j, x as int, y as int, self.width as int,
                    self.height as int);
            }
        }
    }

    pub fn get_mut(&mut self, x: i32, y: i32) -> (r: Option<&mut T>)
        requires
            old(self).wf(),
        ensures
            r is Some <==> old(self).in_bounds(x as int, y as int),
            r matches Some(v) ==> *v == old(self).at(x as int, y as int)
                && final(self).wf()
                && final(self).spec_width() == old(self).spec_width()
                && final(self).spec_height() == old(self).spec_height()
                && final(self).at(x as int, y as int) == *final(v)
                && (forall|i: int, j: int|
                    old(self).in_bounds(i, j) && (i != x || j != y)
                        ==> #[trigger] final(self).at(i, j) == old(self).at(i, j)),
            r is None ==> *final(self) == *old(self),
    {
        match self.valid_index(x, y) {
            Some(index) => {
                proof {
                    assert forall|i: int, j: int|
                        old(self).in_bounds(i, j) && (i != x || j != y)
                            implies flat_index(i, j, old(self).spec_width() as int)
                                != flat_index(x as int, y as int,
                                    old(self).spec_width() as int)
                                && 0 <= flat_index(i, j, old(self).spec_width() as int)
                                < self.data_vec@.len() by {
                        lemma_flat_index_bound(i, j, self.width as int, self.height as int);
                        lemma_flat_index_injective(i, j, x as int, y as int,
                            self.width as int, self.height as int);
                    }
                }
                Some(&mut self.data_vec[index])
            },
            None => None,
        }
    }

    pub fn get_mut_unsafe(&mut self, x: u32, y: u32) -> (r: &mut T)
        requires
            old(self).wf(),
            old(self).in_bounds(x as int, y as int),
        ensures
            *r == old(self).at(x as int, y as int),
            final(self).wf(),
            final(self).spec_width() == old(self).spec_width(),
            final(self).spec_height() == old(self).spec_height(),
            final(self).at(x as int, y as int) == *final(r),
            forall|i: int, j: int|
                old(self).in_bounds(i, j) && (i != x || j != y)
                    ==> #[trigger] final(self).at(i, j) == old(self).at(i, j),
    {
        let index = self.index(x, y);
        proof {
            assert forall|i: int, j: int|
                old(self).in_bounds(i, j) && (i != x as int || j != y as int)
                    implies flat_index(i, j, old(self).spec_width() as int)
                        != flat_index(x as int, y as int, old(self).spec_width() as int)
                        && 0 <= flat_index(i, j, old(self).spec_width() as int)
                        < self.data_vec@.len() by {
                lemma_flat_index_bound(i, j, self.width as int, self.height as int);
                lemma_flat_index_injective(i, j, x as int, y as int, self.width as int,
                    self.height as int);
            }
        }
        &mut self.data_vec[index]
    }

    /// Applies `f` to every coordinate and stores the result in that cell.
    pub fn set_from_function<F: Fn(i32, i32) -> T>(&mut self, f: F)
        requires
            old(self).wf(),
            forall|x: i32, y: i32|
                old(self).in_bounds(x as int, y as int) ==> #[trigger] call_requires(f, (x, y)),
        ensures
            final(self).wf(),
            final(self).spec_width() == old(self).spec_width(),
            final(self).spec_height() == old(self).spec_height(),
            forall|x: i32, y: i32|
                old(self).in_bounds(x as int, y as int)
                    ==> call_ensures(f, (x, y), #[trigger] final(self).at(x as int, y as int)),
    {
        let w = self.width;
        let h = self.height;
        let mut x: i32 = 0;
        while x < w as i32
            invariant
                0 <= x <= w,
                self.wf(),
                self.spec_width() == w,
                self.spec_height() == h,
                w <= i32::MAX,
                h <= i32::MAX,
                forall|i: i32, j: i32| 0 <= i < w && 0 <= j < h ==> #[trigger] call_requires(f, (i, j)),
                forall|i: i32, j: i32|
                    0 <= i < x && 0 <= j < h
                        ==> call_ensures(f, (i, j), #[trigger] self.at(i as int, j as int)),
            decreases w - x,
        {
            let mut y: i32 = 0;
            while y < h as i32
                invariant
                    0 <= x < w,
                    0 <= y <= h,
                    self.wf(),
                    self.spec_width() == w,
                    self.spec_height() == h,
                    w <= i32::MAX,
                    h <= i32::MAX,
                    forall|i: i32, j: i32| 0 <= i < w && 0 <= j < h ==> #[trigger] call_requires(f, (i, j)),
                    forall|i: i32, j: i32|
                        0 <= i < x && 0 <= j < h
                            ==> call_ensures(f, (i, j), #[trigger] self.at(i as int, j as int)),
                    forall|j: i32|
                        0 <= j < y
                            ==> call_ensures(f, (x, j), #[trigger] self.at(x as int, j as int)),
                decreases h - y,
            {
                let e = f(x, y);
                self.set(x, y, e);
                y = y + 1;
            }
            x = x + 1;
        }
    }

    /// Applies `f` to every cell in place.
    pub fn update<F: Fn(T) -> T>(&mut self, f: F)
        requires
            old(self).wf(),
            forall|t: T| call_requires(f, (t,)),
        ensures
            final(self).wf(),
            final(self).spec_width() == old(self).spec_width(),
            final(self).spec_height() == old(self).spec_height(),
            forall|x: int, y: int|
                old(self).in_bounds(x, y)
                    ==> call_ensures(f, (old(self).at(x, y),),
                        #[trigger] final(self).at(x, y)),
    {
        let ghost orig = *self;
        let w = self.width;
        let h = self.height;
        let mut x: u32 = 0;
        while x < w
            invariant
                0 <= x <= w,
                self.wf(),
                self.spec_width() == w == orig.spec_width(),
                self.spec_height() == h == orig.spec_height(),
                w <= i32::MAX,
                h <= i32::MAX,
                forall|t: T| call_requires(f, (t,)),
                forall|i: int, j: int|
                    0 <= i < x && 0 <= j < h
                        ==> call_ensures(f, (orig.at(i, j),), #[trigger] self.at(i, j)),
                forall|i: int, j: int|
                    x <= i < w && 0 <= j < h ==> #[trigger] self.at(i, j) == orig.at(i, j),
            decreases w - x,
        {
            let mut y: u32 = 0;
            while y < h
                invariant
                    0 <= x < w,
                    0 <= y <= h,
                    self.wf(),
                    self.spec_width() == w == orig.spec_width(),
                    self.spec_height() == h == orig.spec_height(),
                    w <= i32::MAX,
                    h <= i32::MAX,
                    forall|t: T| call_requires(f, (t,)),
                    forall|i: int, j: int|
                        0 <= i < x && 0 <= j < h
                            ==> call_ensures(f, (orig.at(i, j),), #[trigger] self.at(i, j)),
                    forall|j: int|
                        0 <= j < y
                            ==> call_ensures(f, (orig.at(x as int, j),),
                                #[trigger] self.at(x as int, j)),
                    forall|i: int, j: int|
                        x < i < w && 0 <= j < h ==> #[trigger] self.at(i, j) == orig.at(i, j),
                    forall|j: int|
                        y <= j < h ==> #[trigger] self.at(x as int, j) == orig.at(x as int, j),
                decreases h - y,
            {
                let cur = *self.get_unsafe(x, y);
                let e = f(cur);
                self.set(x as i32, y as i32, e);
                y = y + 1;
            }
            x = x + 1;
        }
    }

    /// The backing store, row by row.
    pub fn data(&self) -> (r: &Vec<T>)
        requires
            self.wf(),
        ensures
            r@.len() == (self.spec_width() as int) * (self.spec_height() as int),
            forall|x: int, y: int|
                self.in_bounds(x, y)
                    ==> r@[flat_index(x, y, self.spec_width() as int)] == self.at(x, y),
    {
        &self.data_vec
    }

    pub fn width(&self) -> (r: u32)
        ensures
            r == self.spec_width(),
    {
        self.width
    }

    pub fn height(&self) -> (r: u32)
        ensures
            r == self.spec_height(),
    {
        self.height
    }
}

} // verus!
