//! Layered images: each layer is a height-by-width grid of digits; pixel 2
//! is transparent, and stacking layers makes the topmost opaque pixel
//! visible.

use vstd::prelude::*;

verus! {

/// The transparent pixel value.
pub const TRANSPARENT_PIXEL: usize = 2;

/// One image layer: a row of pixel digits for each line of the image.
#[derive(Debug, PartialEq)]
pub struct Layer {
    rows: Vec<Vec<usize>>,
}

/// Row `i` of a flat pixel listing cut into rows of width `w`.
pub open spec fn spec_row(data: Seq<usize>, w: nat, i: int) -> Seq<usize> {
    data.subrange(i * w, i * w + w)
}

/// All rows of a flat pixel listing cut into `h` rows of width `w`.
pub open spec fn spec_rows(data: Seq<usize>, h: nat, w: nat) -> Seq<Seq<usize>> {
    Seq::new(h, |i: int| spec_row(data, w, i))
}

/// A grid of `h` rows, each `w` wide.
pub open spec fn grid_ok(rows: Seq<Seq<usize>>, h: nat, w: nat) -> bool {
    rows.len() == h && forall|i: int| 0 <= i < rows.len() ==> (#[trigger] rows[i]).len() == w
}

/// How many cells of the rows from `i` on hold the digit `d`.
pub open spec fn count_in_row(r: Seq<usize>, d: usize, j: int) -> nat
    decreases r.len() - j,
    when 0 <= j <= r.len()
{
    if j >= r.len() {
        0
    } else {
        (if r[j] == d {
            1nat
        } else {
            0nat
        }) + count_in_row(r, d, j + 1)
    }
}

pub open spec fn count_in_rows(rows: Seq<Seq<usize>>, d: usize, i: int) -> nat
    decreases rows.len() - i,
    when 0 <= i <= rows.len()
{
    if i >= rows.len() {
        0
    } else {
        count_in_row(rows[i], d, 0) + count_in_rows(rows, d, i + 1)
    }
}

/// The bottom grid seen through the top one: a transparent top pixel shows
/// the bottom pixel, anything else covers it.
pub open spec fn spec_cover(bottom: Seq<Seq<usize>>, top: Seq<Seq<usize>>, h: nat, w: nat) -> Seq<
    Seq<usize>,
> {
    Seq::new(
        h,
        |i: int|
            Seq::new(
                w,
                |j: int|
                    if top[i][j] == TRANSPARENT_PIXEL {
                        bottom[i][j]
                    } else {
                        top[i][j]
                    },
            ),
    )
}

impl Layer {
    pub closed spec fn spec_rows_view(&self) -> Seq<Seq<usize>> {
        self.rows@.map_values(|r: Vec<usize>| r@)
    }

    /// Cuts a flat pixel listing into `height` rows of `width` pixels.
    pub fn new(layer_data: Vec<usize>, height: usize, width: usize) -> (r: Layer)
        requires
            width >= 1,
            layer_data@.len() == height * width,
        ensures
            r.spec_rows_view() == spec_rows(layer_data@, height as nat, width as nat),
            grid_ok(r.spec_rows_view(), height as nat, width as nat),
    {
        let total = layer_data.len();
        let mut rows: Vec<Vec<usize>> = Vec::new();
        let mut i: usize = 0;
        proof {
            assert(rows@.map_values(|r: Vec<usize>| r@) =~= spec_rows(
                layer_data@,
                height as nat,
                width as nat,
            ).take(0));
            vstd::arithmetic::mul::lemma_mul_basics(width as int);
        }
        while i < height
            invariant
                i <= height,
                width >= 1,
                total == layer_data@.len(),
                layer_data@.len() == height * width,
                rows@.map_values(|r: Vec<usize>| r@) == spec_rows(
                    layer_data@,
                    height as nat,
                    width as nat,
                ).take(i as int),
            decreases height - i,
        {
            proof {
                assert((i + 1) * width == i * width + width) by (nonlinear_arith);
                assert(i * width + width <= height * width) by (nonlinear_arith)
                    requires
                        i + 1 <= height,
                        width >= 1,
                ;
            }
            let mut row: Vec<usize> = Vec::new();
            let mut j: usize = 0;
            let base = i * width;
            proof {
                assert(i * width >= 0) by (nonlinear_arith)
                    requires
                        i >= 0,
                        width >= 0,
                ;
                assert(row@ =~= spec_row(layer_data@, width as nat, i as int).take(0));
            }
            while j < width
                invariant
                    j <= width,
                    width >= 1,
                    base == i * width,
                    base + width <= layer_data@.len(),
                    layer_data@.len() <= usize::MAX,
                    layer_data@.len() == height * width,
                    row@ == spec_row(layer_data@, width as nat, i as int).take(j as int),
                decreases width - j,
            {
                let px = layer_data[base + j];
                row.push(px);
                proof {
                    let sr = spec_row(layer_data@, width as nat, i as int);
                    assert(sr.take(j + 1) =~= sr.take(j as int) + seq![sr[j as int]]);
                    assert(sr[j as int] == layer_data@[base + j]);
                }
                j = j + 1;
            }
            proof {
                assert(row@ =~= spec_row(layer_data@, width as nat, i as int));
                assert(spec_rows(layer_data@, height as nat, width as nat).take(i as int).len()
                    == i);
                assert(rows@.map_values(|r: Vec<usize>| r@).len() == i);
                assert(rows@.len() == i);
            }
            rows.push(row);
            proof {
                let all = spec_rows(layer_data@, height as nat, width as nat);
                assert(rows@.len() == i + 1);
                let mv = rows@.map_values(|r: Vec<usize>| r@);
                assert(mv.len() == i + 1);
                assert forall|k: int| 0 <= k < i + 1 implies mv[k] == all.take(i + 1)[k] by {
                    assert(mv[k] == rows@[k]@);
                    if k < i {
                        assert(mv[k] == rows@.drop_last().map_values(|r: Vec<usize>| r@)[k]);
                    } else {
                        assert(rows@[k]@ == spec_row(layer_data@, width as nat, i as int));
                        assert(all.take(i + 1)[k] == all[k]);
                    }
                }
                assert(mv =~= all.take(i + 1));
            }
            i = i + 1;
        }
        proof {
            let all = spec_rows(layer_data@, height as nat, width as nat);
            assert(all.take(height as int) =~= all);
            assert forall|k: int| 0 <= k < height implies (#[trigger] all[k]).len()
                == width as nat by {
                assert(0 <= k * width && k * width + width <= height * width) by (nonlinear_arith)
                    requires
                        0 <= k < height,
                        width >= 1,
                ;
            }
        }
        Layer { rows }
    }

    /// A fully transparent layer of the given dimensions.
    pub fn transparent(height: usize, width: usize) -> (r: Layer)
        requires
            width >= 1,
            height * width <= usize::MAX,
        ensures
            grid_ok(r.spec_rows_view(), height as nat, width as nat),
            forall|i: int, j: int|
                0 <= i < height && 0 <= j < width ==> #[trigger] r.spec_rows_view()[i][j]
                    == TRANSPARENT_PIXEL,
    {
        proof {
            assert(height * width >= 0) by (nonlinear_arith)
                requires
                    height >= 0,
                    width >= 0,
            ;
        }
        let mut data: Vec<usize> = Vec::new();
        let n = height * width;
        let mut k: usize = 0;
        while k < n
            invariant
                k <= n,
                data@.len() == k,
                forall|t: int| 0 <= t < k ==> #[trigger] data@[t] == TRANSPARENT_PIXEL,
            decreases n - k,
        {
            data.push(TRANSPARENT_PIXEL);
            k = k + 1;
        }
        let ghost dv = data@;
        let r = Layer::new(data, height, width);
        proof {
            assert forall|i: int, j: int|
                0 <= i < height && 0 <= j < width implies #[trigger] r.spec_rows_view()[i][j]
                == TRANSPARENT_PIXEL by {
                assert(0 <= i * width && i * width + j < height * width && i * width + width
                    <= height * width) by (nonlinear_arith)
                    requires
                        0 <= i < height,
                        0 <= j < width,
                ;
                assert(r.spec_rows_view()[i][j] == dv[i * width + j]);
            }
        }
        r
    }

    /// How many pixels of the layer hold the digit.
    pub fn digit_count(&self, digit: usize) -> (r: usize)
        requires
            digit <= 9,
            count_in_rows(self.spec_rows_view(), digit, 0) <= usize::MAX,
        ensures
            r == count_in_rows(self.spec_rows_view(), digit, 0),
    {
        let ghost rv = self.spec_rows_view();
        let mut count: usize = 0;
        let mut i: usize = 0;
        while i < self.rows.len()
            invariant
                i <= rv.len(),
                rv == self.spec_rows_view(),
                count_in_rows(rv, digit, 0) == count + count_in_rows(rv, digit, i as int),
                count_in_rows(rv, digit, 0) <= usize::MAX,
            decreases rv.len() - i,
        {
            let row = &self.rows[i];
            let ghost rr = rv[i as int];
            let mut j: usize = 0;
            proof {
                lemma_count_in_rows_bound(rv, digit, i as int);
            }
            while j < row.len()
                invariant
                    j <= rr.len(),
                    rr == rv[i as int],
                    0 <= i < rv.len(),
                    rv == self.spec_rows_view(),
                    row@ == rr,
                    count_in_row(rr, digit, 0) == count_in_rows(rv, digit, i as int)
                        - count_in_rows(rv, digit, i + 1),
                    count_in_rows(rv, digit, 0) == count + count_in_row(rr, digit, j as int)
                        + count_in_rows(rv, digit, i + 1),
                    count_in_rows(rv, digit, 0) <= usize::MAX,
                decreases rr.len() - j,
            {
                if row[j] == digit {
                    proof {
                        lemma_count_in_row_bound(rr, digit, j as int);
                    }
                    count = count + 1;
                }
                j = j + 1;
            }
            i = i + 1;
        }
        count
    }

    /// This layer seen through `top`: where `top` is transparent this
    /// layer shows, everywhere else `top` does. The two layers must have
    /// the same dimensions.
    pub fn cover(&self, top: &Layer) -> (r: Layer)
        requires
            self.spec_rows_view().len() >= 1,
            self.spec_rows_view()[0].len() >= 1,
            grid_ok(
                self.spec_rows_view(),
                self.spec_rows_view().len(),
                self.spec_rows_view()[0].len(),
            ),
            grid_ok(
                top.spec_rows_view(),
                self.spec_rows_view().len(),
                self.spec_rows_view()[0].len(),
            ),
        ensures
            r.spec_rows_view() == spec_cover(
                self.spec_rows_view(),
                top.spec_rows_view(),
                self.spec_rows_view().len(),
                self.spec_rows_view()[0].len(),
            ),
            grid_ok(
                r.spec_rows_view(),
                self.spec_rows_view().len(),
                self.spec_rows_view()[0].len(),
            ),
    {
        let height = self.rows.len();
        let width = self.rows[0].len();
        proof {
            assert(self.spec_rows_view()[0].len() == self.rows@[0]@.len());
        }
        let ghost target = spec_cover(
            self.spec_rows_view(),
            top.spec_rows_view(),
            height as nat,
            width as nat,
        );
        let mut rows: Vec<Vec<usize>> = Vec::new();
        let mut i: usize = 0;
        proof {
            assert(rows@.map_values(|r: Vec<usize>| r@) =~= target.take(0));
        }
        while i < height
            invariant
                i <= height,
                width >= 1,
                target == spec_cover(
                    self.spec_rows_view(),
                    top.spec_rows_view(),
                    height as nat,
                    width as nat,
                ),
                grid_ok(self.spec_rows_view(), height as nat, width as nat),
                grid_ok(top.spec_rows_view(), height as nat, width as nat),
                rows@.map_values(|r: Vec<usize>| r@) == target.take(i as int),
            decreases height - i,
        {
            let mut row: Vec<usize> = Vec::new();
            let mut j: usize = 0;
            proof {
                assert(row@ =~= target[i as int].take(0));
            }
            while j < width
                invariant
                    j <= width,
                    0 <= i < height,
                    target == spec_cover(
                        self.spec_rows_view(),
                        top.spec_rows_view(),
                        height as nat,
                        width as nat,
                    ),
                    grid_ok(self.spec_rows_view(), height as nat, width as nat),
                    grid_ok(top.spec_rows_view(), height as nat, width as nat),
                    row@ == target[i as int].take(j as int),
                decreases width - j,
            {
                let t = top.rows[i][j];
                let px = if t == TRANSPARENT_PIXEL {
                    self.rows[i][j]
                } else {
                    t
                };
                row.push(px);
                proof {
                    assert(target[i as int].take(j + 1) =~= target[i as int].take(j as int)
                        + seq![target[i as int][j as int]]);
                }
                j = j + 1;
            }
            proof {
                assert(row@ =~= target[i as int]);
                assert(target.take(i as int).len() == i);
                assert(rows@.map_values(|r: Vec<usize>| r@).len() == i);
                assert(rows@.len() == i);
            }
            rows.push(row);
            proof {
                assert(rows@.len() == i + 1);
                let mv = rows@.map_values(|r: Vec<usize>| r@);
                assert(mv.len() == i + 1);
                assert forall|k: int| 0 <= k < i + 1 implies mv[k] == target.take(i + 1)[k] by {
                    assert(mv[k] == rows@[k]@);
                    if k < i {
                        assert(mv[k] == rows@.drop_last().map_values(|r: Vec<usize>| r@)[k]);
                    } else {
                        assert(rows@[k]@ == target[i as int]);
                        assert(target.take(i + 1)[k] == target[k]);
                    }
                }
                assert(mv =~= target.take(i + 1));
            }
            i = i + 1;
        }
        proof {
            assert(target.take(height as int) =~= target);
        }
        Layer { rows }
    }

    /// The pixel rows, for rendering.
    pub fn rows(&self) -> (r: &Vec<Vec<usize>>)
        ensures
            r@.map_values(|row: Vec<usize>| row@) == self.spec_rows_view(),
    {
        &self.rows
    }
}

/// A cell of any row counts at most once.
proof fn lemma_count_in_row_bound(r: Seq<usize>, d: usize, j: int)
    requires
        0 <= j <= r.len(),
    ensures
        count_in_row(r, d, j) <= r.len() - j,
        j < r.len() ==> count_in_row(r, d, j) == (if r[j] == d {
            1nat
        } else {
            0nat
        }) + count_in_row(r, d, j + 1),
    decreases r.len() - j,
{
    if j < r.len() {
        lemma_count_in_row_bound(r, d, j + 1);
    }
}

/// Counts over later rows never exceed the count over all rows.
proof fn lemma_count_in_rows_bound(rows: Seq<Seq<usize>>, d: usize, i: int)
    requires
        0 <= i <= rows.len(),
    ensures
        i < rows.len() ==> count_in_rows(rows, d, i) == count_in_row(rows[i], d, 0)
            + count_in_rows(rows, d, i + 1),
{
}

/// The grids of a stack of layers, bottom of the vector first.
pub open spec fn layer_views(ls: Seq<Layer>) -> Seq<Seq<Seq<usize>>> {
    ls.map_values(|l: Layer| l.spec_rows_view())
}

/// The index, at or after `i`, of the first layer with strictly fewer
/// zero pixels than layer `bi` and every layer between them.
pub open spec fn best_layer(ls: Seq<Seq<Seq<usize>>>, i: int, bi: int) -> int
    decreases ls.len() - i,
    when 0 <= i <= ls.len()
{
    if i >= ls.len() {
        bi
    } else {
        best_layer(
            ls,
            i + 1,
            if count_in_rows(ls[i], 0, 0) < count_in_rows(ls[bi], 0, 0) {
                i
            } else {
                bi
            },
        )
    }
}

/// The stack folded from the last layer upward: each earlier layer is laid
/// on top of everything after it.
pub open spec fn covered_down(ls: Seq<Seq<Seq<usize>>>, i: int, h: nat, w: nat) -> Seq<Seq<usize>>
    decreases ls.len() - i,
    when 0 <= i < ls.len()
{
    if i == ls.len() - 1 {
        ls[i]
    } else {
        spec_cover(covered_down(ls, i + 1, h, w), ls[i], h, w)
    }
}

/// Any cell counts at most once per row, so the zero count of a grid is at
/// most its area.
proof fn lemma_count_in_rows_total(rows: Seq<Seq<usize>>, d: usize, i: int, w: nat)
    requires
        0 <= i <= rows.len(),
        forall|k: int| 0 <= k < rows.len() ==> (#[trigger] rows[k]).len() == w,
    ensures
        count_in_rows(rows, d, i) <= (rows.len() - i) * w,
    decreases rows.len() - i,
{
    if i < rows.len() {
        lemma_count_in_row_bound(rows[i], d, 0);
        lemma_count_in_rows_total(rows, d, i + 1, w);
        assert((rows.len() - i) * w == (rows.len() - i - 1) * w + w) by (nonlinear_arith);
    } else {
        assert((rows.len() - i) * w == 0) by (nonlinear_arith)
            requires
                i == rows.len(),
        ;
    }
}

/// A layered image: fixed dimensions and a stack of layers, first added
/// layer in front.
#[derive(Debug)]
pub struct Image {
    height: usize,
    width: usize,
    layers: Vec<Layer>,
}

impl Image {
    pub closed spec fn spec_height(&self) -> nat {
        self.height as nat
    }

    pub closed spec fn spec_width(&self) -> nat {
        self.width as nat
    }

    pub closed spec fn spec_layers(&self) -> Seq<Seq<Seq<usize>>> {
        layer_views(self.layers@)
    }

    /// Every layer has the image's dimensions.
    pub open spec fn wf(&self) -> bool {
        &&& self.spec_width() >= 1
        &&& self.spec_height() * self.spec_width() <= usize::MAX
        &&& forall|k: int|
            0 <= k < self.spec_layers().len() ==> grid_ok(
                #[trigger] self.spec_layers()[k],
                self.spec_height(),
                self.spec_width(),
            )
    }

    /// An empty image of the given dimensions.
    pub fn new(height: usize, width: usize) -> (r: Image)
        requires
            width >= 1,
            height * width <= usize::MAX,
        ensures
            r.spec_height() == height as nat,
            r.spec_width() == width as nat,
            r.spec_layers().len() == 0,
            r.wf(),
    {
        let r = Image { height, width, layers: Vec::new() };
        proof {
            assert(r.spec_layers() =~= Seq::<Seq<Seq<usize>>>::empty());
        }
        r
    }

    /// The pixel count of one layer.
    pub fn area(&self) -> (r: usize)
        requires
            self.spec_height() * self.spec_width() <= usize::MAX,
        ensures
            r == self.spec_height() * self.spec_width(),
    {
        self.height * self.width
    }

    /// Cuts a flat pixel listing into rows and pushes it as the next
    /// layer; the listing must cover the image's area exactly.
    pub fn add_layer(&mut self, layer_data: Vec<usize>)
        requires
            old(self).wf(),
            layer_data@.len() == old(self).spec_height() * old(self).spec_width(),
        ensures
            final(self).wf(),
            final(self).spec_height() == old(self).spec_height(),
            final(self).spec_width() == old(self).spec_width(),
            final(self).spec_layers() == old(self).spec_layers().push(
                spec_rows(layer_data@, old(self).spec_height(), old(self).spec_width()),
            ),
    {
        let ghost data = layer_data@;
        let layer = Layer::new(layer_data, self.height, self.width);
        self.layers.push(layer);
        proof {
            assert(self.spec_layers() =~= old(self).spec_layers().push(
                spec_rows(data, old(self).spec_height(), old(self).spec_width()),
            ));
        }
    }

    /// The index of the first layer with the fewest zero pixels.
    pub fn layer_id_with_fewest_zeroes(&self) -> (r: usize)
        requires
            self.wf(),
            self.spec_layers().len() >= 1,
        ensures
            r == best_layer(self.spec_layers(), 1, 0),
            r < self.spec_layers().len(),
    {
        let ghost ls = self.spec_layers();
        proof {
            assert(ls[0] == self.layers@[0].spec_rows_view());
            lemma_count_in_rows_total(ls[0], 0, 0, self.spec_width());
            assert(ls[0].len() * self.spec_width() <= self.spec_height() * self.spec_width())
                by (nonlinear_arith)
                requires
                    ls[0].len() == self.spec_height(),
                    self.spec_width() >= 0,
            ;
        }
        let mut best: usize = 0;
        let mut best_count = self.layers[0].digit_count(0);
        let mut i: usize = 1;
        while i < self.layers.len()
            invariant
                1 <= i <= ls.len(),
                ls == self.spec_layers(),
                self.wf(),
                best < i,
                best_count == count_in_rows(ls[best as int], 0, 0),
                best_layer(ls, 1, 0) == best_layer(ls, i as int, best as int),
            decreases ls.len() - i,
        {
            proof {
                assert(ls[i as int] == self.layers@[i as int].spec_rows_view());
                lemma_count_in_rows_total(ls[i as int], 0, 0, self.spec_width());
                assert(ls[i as int].len() * self.spec_width() <= self.spec_height()
                    * self.spec_width()) by (nonlinear_arith)
                    requires
                        ls[i as int].len() == self.spec_height(),
                        self.spec_width() >= 0,
                ;
            }
            let c = self.layers[i].digit_count(0);
            if c < best_count {
                best = i;
                best_count = c;
            }
            i = i + 1;
        }
        best
    }

    /// The layer at the given index.
    pub fn layer_by_id(&self, id: usize) -> (r: &Layer)
        requires
            id < self.spec_layers().len(),
        ensures
            r.spec_rows_view() == self.spec_layers()[id as int],
    {
        proof {
            assert(self.spec_layers()[id as int] == self.layers@[id as int].spec_rows_view());
        }
        &self.layers[id]
    }

    /// Flattens the stack into the visible layer: the last layer is the
    /// bottom, every earlier layer is laid on top of it in turn.
    pub fn cover_all_layers(self) -> (r: Layer)
        requires
            self.wf(),
            self.spec_height() >= 1,
            self.spec_layers().len() >= 1,
        ensures
            r.spec_rows_view() == covered_down(
                self.spec_layers(),
                0,
                self.spec_height(),
                self.spec_width(),
            ),
    {
        let ghost ls = self.spec_layers();
        let ghost h = self.spec_height();
        let ghost w = self.spec_width();
        let mut stack = self.layers;
        let mut acc: Layer = match stack.pop() {
            Some(l) => l,
            None => {
                proof {
                    assert(false);
                }
                Layer { rows: Vec::new() }
            },
        };
        proof {
            assert(ls[ls.len() - 1] == stack@.push(acc).map_values(
                |l: Layer| l.spec_rows_view(),
            )[ls.len() - 1]);
            assert(acc.spec_rows_view() == covered_down(ls, stack@.len() as int, h, w));
            assert(forall|k: int|
                0 <= k < stack@.len() ==> #[trigger] stack@[k].spec_rows_view() == ls[k]);
        }
        while stack.len() > 0
            invariant
                stack@.len() < ls.len(),
                forall|k: int|
                    0 <= k < stack@.len() ==> #[trigger] stack@[k].spec_rows_view() == ls[k],
                forall|k: int| 0 <= k < ls.len() ==> grid_ok(#[trigger] ls[k], h, w),
                h >= 1,
                w >= 1,
                acc.spec_rows_view() == covered_down(ls, stack@.len() as int, h, w),
                grid_ok(acc.spec_rows_view(), h, w),
            decreases stack@.len(),
        {
            let ghost pre = stack@;
            let top = match stack.pop() {
                Some(l) => l,
                None => {
                    proof {
                        assert(false);
                    }
                    Layer { rows: Vec::new() }
                },
            };
            proof {
                assert(top.spec_rows_view() == ls[stack@.len() as int]);
                assert(acc.spec_rows_view()[0].len() == w);
            }
            acc = acc.cover(&top);
            proof {
                assert(acc.spec_rows_view() == covered_down(ls, stack@.len() as int, h, w));
            }
        }
        proof {
            assert(acc.spec_rows_view() == covered_down(ls, 0, h, w));
        }
        acc
    }
}

} // verus!
