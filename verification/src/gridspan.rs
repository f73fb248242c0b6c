use vstd::prelude::*;

verus! {

/// A set of state indices laid out as rows: `num_rows` rows of
/// `items_per_row` consecutive indices, each row `row_stride` indices after
/// the one before, the first starting at `start`.
#[derive(Copy, Clone, Debug, PartialEq, Eq, Structural)]
pub struct GridSpan {
    start: usize,
    items_per_row: usize,
    row_stride: usize,
    num_rows: usize,
}

/// What is left of `s`, which begins at the first index of a row, once
/// `rows` rows of `items` elements, `stride` apart, are taken out.
pub open spec fn erase_rows<T>(s: Seq<T>, items: int, stride: int, rows: nat) -> Seq<T>
    decreases rows,
{
    if rows == 0 {
        s
    } else if rows == 1 {
        s.skip(items)
    } else {
        s.subrange(items, stride) + erase_rows(s.skip(stride), items, stride, (rows - 1) as nat)
    }
}

/// `rows` rows of `items` elements, `stride` apart, fit in `len` elements
/// counted from the first row.
pub open spec fn rows_fit(len: int, items: int, stride: int, rows: nat) -> bool
    decreases rows,
{
    if rows == 0 {
        true
    } else if rows == 1 {
        items <= len
    } else {
        stride <= len && rows_fit(len - stride, items, stride, (rows - 1) as nat)
    }
}

/// `rows - 1` gaps of `gap` elements fit in `len` elements.
pub open spec fn gaps_fit(len: int, gap: int, rows: nat) -> bool
    decreases rows,
{
    if rows <= 1 {
        true
    } else {
        gap <= len && gaps_fit(len - gap, gap, (rows - 1) as nat)
    }
}

/// `x` is made of `k` whole rows of `stride` elements.
pub open spec fn full_rows<T>(x: Seq<T>, stride: int, k: nat) -> bool
    decreases k,
{
    if k == 0 {
        x.len() == 0
    } else {
        x.len() >= stride && full_rows(x.skip(stride), stride, (k - 1) as nat)
    }
}

/// What is left of `k` whole rows once the first `items` elements of each
/// are taken out.
pub open spec fn erase_full_rows<T>(x: Seq<T>, items: int, stride: int, k: nat) -> Seq<T>
    decreases k,
{
    if k == 0 {
        Seq::empty()
    } else {
        x.subrange(items, stride) + erase_full_rows(x.skip(stride), items, stride, (k - 1) as nat)
    }
}

proof fn lemma_erase_full_rows_push<T>(x: Seq<T>, r: Seq<T>, items: int, stride: int, k: nat)
    requires
        full_rows(x, stride, k),
        r.len() == stride,
        0 <= items <= stride,
    ensures
        full_rows(x + r, stride, k + 1),
        erase_full_rows(x + r, items, stride, k + 1) == erase_full_rows(x, items, stride, k)
            + r.subrange(items, stride),
    decreases k,
{
    if k == 0 {
        assert(x + r =~= r);
        assert(r.skip(stride) =~= Seq::<T>::empty());
        assert(full_rows(r.skip(stride), stride, 0));
        assert(full_rows(r, stride, 1));
        assert(erase_full_rows(r.skip(stride), items, stride, 0) == Seq::<T>::empty());
        assert(r.subrange(items, stride) + Seq::<T>::empty() =~= r.subrange(items, stride));
        assert(Seq::<T>::empty() + r.subrange(items, stride) =~= r.subrange(items, stride));
    } else {
        lemma_erase_full_rows_push(x.skip(stride), r, items, stride, (k - 1) as nat);
        assert((x + r).skip(stride) =~= x.skip(stride) + r);
        assert((x + r).subrange(items, stride) =~= x.subrange(items, stride));
        assert(erase_full_rows(x + r, items, stride, k + 1) =~= erase_full_rows(x, items, stride, k)
            + r.subrange(items, stride));
    }
}

proof fn lemma_erase_rows_after_full<T>(x: Seq<T>, w: Seq<T>, items: int, stride: int, k: nat, m: nat)
    requires
        full_rows(x, stride, k),
        m >= 1,
        0 <= items <= stride,
    ensures
        erase_rows(x + w, items, stride, k + m) == erase_full_rows(x, items, stride, k) + erase_rows(
            w,
            items,
            stride,
            m,
        ),
        rows_fit(w.len() as int, items, stride, m) ==> rows_fit((x + w).len() as int, items, stride, k + m),
    decreases k,
{
    if k == 0 {
        assert(x + w =~= w);
        assert(Seq::<T>::empty() + erase_rows(w, items, stride, m) =~= erase_rows(w, items, stride, m));
    } else {
        lemma_erase_rows_after_full(x.skip(stride), w, items, stride, (k - 1) as nat, m);
        assert((x + w).skip(stride) =~= x.skip(stride) + w);
        assert((x + w).subrange(items, stride) =~= x.subrange(items, stride));
        assert(((k - 1) as nat + m) as nat == (k + m - 1) as nat);
        assert(erase_rows(x + w, items, stride, k + m) =~= erase_full_rows(x, items, stride, k)
            + erase_rows(w, items, stride, m));
    }
}

proof fn lemma_erase_rows_len<T>(s: Seq<T>, items: int, stride: int, rows: nat)
    requires
        rows_fit(s.len() as int, items, stride, rows),
        0 <= items <= stride,
    ensures
        erase_rows(s, items, stride, rows).len() == s.len() - items * rows,
    decreases rows,
{
    if rows >= 2 {
        lemma_erase_rows_len(s.skip(stride), items, stride, (rows - 1) as nat);
        assert(items * rows == items * (rows - 1) + items) by (nonlinear_arith);
    } else if rows == 1 {
        assert(items * rows == items) by (nonlinear_arith)
            requires
                rows == 1,
        ;
    } else {
        assert(items * rows == 0) by (nonlinear_arith)
            requires
                rows == 0,
        ;
    }
}

/// An index of the rows lies within the elements the rows fit in.
pub proof fn lemma_row_index_fits(len: int, items: int, stride: int, rows: nat, r: int, c: int)
    requires
        rows_fit(len, items, stride, rows),
        0 <= items <= stride,
        0 <= r < rows,
        0 <= c < items,
    ensures
        0 <= r * stride + c < len,
    decreases rows,
{
    if rows >= 2 && r > 0 {
        lemma_row_index_fits(len - stride, items, stride, (rows - 1) as nat, r - 1, c);
        assert(r * stride == (r - 1) * stride + stride) by (nonlinear_arith);
    } else if r == 0 {
        assert(r * stride == 0) by (nonlinear_arith)
            requires
                r == 0,
        ;
    }
}

/// Changing an element at an index of the rows leaves what is left once the
/// rows are taken out as it was.
pub proof fn lemma_erase_rows_update<T>(s: Seq<T>, items: int, stride: int, rows: nat, r: int, c: int, v: T)
    requires
        rows_fit(s.len() as int, items, stride, rows),
        0 <= items <= stride,
        0 <= r < rows,
        0 <= c < items,
    ensures
        erase_rows(s.update(r * stride + c, v), items, stride, rows) == erase_rows(s, items, stride, rows),
    decreases rows,
{
    lemma_row_index_fits(s.len() as int, items, stride, rows, r, c);
    let i = r * stride + c;
    let t = s.update(i, v);
    if rows == 1 {
        assert(r == 0);
        assert(t.skip(items) =~= s.skip(items));
    } else if r == 0 {
        assert(r * stride == 0) by (nonlinear_arith)
            requires
                r == 0,
        ;
        assert(t.subrange(items, stride) =~= s.subrange(items, stride));
        assert(t.skip(stride) =~= s.skip(stride));
    } else {
        assert(r * stride == (r - 1) * stride + stride) by (nonlinear_arith);
        assert(t.subrange(items, stride) =~= s.subrange(items, stride));
        assert(t.skip(stride) =~= s.skip(stride).update((r - 1) * stride + c, v));
        lemma_erase_rows_update(s.skip(stride), items, stride, (rows - 1) as nat, r - 1, c, v);
    }
}

impl GridSpan {
    pub closed spec fn spec_start(self) -> int {
        self.start as int
    }

    pub closed spec fn spec_items_per_row(self) -> int {
        self.items_per_row as int
    }

    pub closed spec fn spec_row_stride(self) -> int {
        self.row_stride as int
    }

    pub closed spec fn spec_num_rows(self) -> int {
        self.num_rows as int
    }

    /// How many indices the span holds.
    pub open spec fn spec_num_items(self) -> int {
        self.spec_items_per_row() * self.spec_num_rows()
    }

    /// One past the last index any row of the span may reach.
    pub open spec fn spec_end_bound(self) -> int {
        self.spec_start() + self.spec_row_stride() * self.spec_num_rows()
    }

    /// The last index of the span.
    pub open spec fn spec_last_index(self) -> int {
        self.spec_start() + (self.spec_num_rows() - 1) * self.spec_row_stride()
            + self.spec_items_per_row() - 1
    }

    /// Rows do not overlap and every index of the span fits in a `usize`.
    pub open spec fn wf(self) -> bool {
        &&& self.spec_items_per_row() <= self.spec_row_stride()
        &&& self.spec_end_bound() <= usize::MAX
    }

    /// The span with the given layout.
    pub fn new(start: usize, items_per_row: usize, row_stride: usize, num_rows: usize) -> (s: GridSpan)
        requires
            items_per_row <= row_stride,
            start + row_stride * num_rows <= usize::MAX,
        ensures
            s.spec_start() == start,
            s.spec_items_per_row() == items_per_row,
            s.spec_row_stride() == row_stride,
            s.spec_num_rows() == num_rows,
            s.wf(),
    {
        GridSpan { start, items_per_row, row_stride, num_rows }
    }

    /// The single row of `count` indices from `start`.
    pub fn new_contiguous(start: usize, count: usize) -> (s: GridSpan)
        requires
            start + count <= usize::MAX,
        ensures
            s.spec_start() == start,
            s.spec_items_per_row() == count,
            s.spec_row_stride() == count,
            s.spec_num_rows() == 1,
            s.spec_num_items() == count,
            s.wf(),
    {
        GridSpan { start, items_per_row: count, row_stride: count, num_rows: 1 }
    }

    /// The span of no indices.
    pub fn new_empty() -> (s: GridSpan)
        ensures
            s.spec_start() == 0,
            s.spec_items_per_row() == 0,
            s.spec_row_stride() == 0,
            s.spec_num_rows() == 0,
            s.spec_num_items() == 0,
            s.wf(),
    {
        GridSpan { start: 0, items_per_row: 0, row_stride: 0, num_rows: 0 }
    }

    pub fn start_index(&self) -> (r: usize)
        ensures
            r == self.spec_start(),
    {
        self.start
    }

    pub fn items_per_row(&self) -> (r: usize)
        ensures
            r == self.spec_items_per_row(),
    {
        self.items_per_row
    }

    pub fn row_stride(&self) -> (r: usize)
        ensures
            r == self.spec_row_stride(),
    {
        self.row_stride
    }

    pub fn num_rows(&self) -> (r: usize)
        ensures
            r == self.spec_num_rows(),
    {
        self.num_rows
    }

    /// How many indices the span holds.
    pub fn num_items(&self) -> (r: usize)
        requires
            self.wf(),
        ensures
            r == self.spec_num_items(),
    {
        proof {
            let a = self.items_per_row as int;
            let b = self.row_stride as int;
            let n = self.num_rows as int;
            assert(a * n <= b * n) by (nonlinear_arith)
                requires
                    0 <= a <= b,
                    0 <= n,
            ;
        }
        self.items_per_row * self.num_rows
    }

    /// The last index of a span that is not empty.
    pub fn last_index(&self) -> (r: usize)
        requires
            self.wf(),
            self.spec_num_items() > 0,
        ensures
            r == self.spec_last_index(),
    {
        proof {
            let a = self.items_per_row as int;
            let b = self.row_stride as int;
            let n = self.num_rows as int;
            let s = self.start as int;
            assert(n >= 1 && a >= 1) by (nonlinear_arith)
                requires
                    a * n > 0,
                    0 <= a,
                    0 <= n,
            ;
            assert((n - 1) * b <= b * n - a) by (nonlinear_arith)
                requires
                    1 <= a <= b,
                    1 <= n,
            ;
        }
        self.start + (self.num_rows - 1) * self.row_stride + self.items_per_row - 1
    }

    /// The same layout moved `offset` indices further.
    pub fn offset(&self, offset: usize) -> (r: GridSpan)
        requires
            self.wf(),
            self.spec_end_bound() + offset <= usize::MAX,
        ensures
            r.spec_start() == self.spec_start() + offset,
            r.spec_items_per_row() == self.spec_items_per_row(),
            r.spec_row_stride() == self.spec_row_stride(),
            r.spec_num_rows() == self.spec_num_rows(),
            r.wf(),
    {
        proof {
            let b = self.row_stride as int;
            let n = self.num_rows as int;
            assert(0 <= b * n) by (nonlinear_arith)
                requires
                    0 <= b,
                    0 <= n,
            ;
        }
        GridSpan {
            start: self.start + offset,
            items_per_row: self.items_per_row,
            row_stride: self.row_stride,
            num_rows: self.num_rows,
        }
    }

    /// The span over `n` times as many indices: each index becomes `n`
    /// consecutive ones, as when every state holds one state per key.
    pub fn inflate(&self, n: usize) -> (r: GridSpan)
        requires
            self.wf(),
            self.spec_end_bound() * n <= usize::MAX,
            self.spec_row_stride() * n <= usize::MAX,
        ensures
            r.spec_start() == self.spec_start() * n,
            r.spec_items_per_row() == self.spec_items_per_row() * n,
            r.spec_row_stride() == self.spec_row_stride() * n,
            r.spec_num_rows() == self.spec_num_rows(),
            r.spec_num_items() == self.spec_num_items() * n,
            r.wf(),
    {
        proof {
            let a = self.items_per_row as int;
            let b = self.row_stride as int;
            let k = self.num_rows as int;
            let st = self.start as int;
            let m = n as int;
            assert(0 <= b * k) by (nonlinear_arith)
                requires
                    0 <= b,
                    0 <= k,
            ;
            assert(st * m <= (st + b * k) * m) by (nonlinear_arith)
                requires
                    0 <= st,
                    0 <= b * k,
                    0 <= m,
            ;
            assert(a * m <= b * m) by (nonlinear_arith)
                requires
                    0 <= a <= b,
                    0 <= m,
            ;
            assert(st * m + (b * m) * k == (st + b * k) * m) by (nonlinear_arith);
            assert((a * m) * k == (a * k) * m) by (nonlinear_arith);
        }
        GridSpan {
            start: self.start * n,
            items_per_row: self.items_per_row * n,
            row_stride: self.row_stride * n,
            num_rows: self.num_rows,
        }
    }

    /// The elements of `s` that stay when the span's indices are taken out.
    pub open spec fn spec_erase<T>(self, s: Seq<T>) -> Seq<T> {
        if self.spec_num_rows() == 0 {
            s
        } else {
            s.take(self.spec_start()) + erase_rows(
                s.skip(self.spec_start()),
                self.spec_items_per_row(),
                self.spec_row_stride(),
                self.spec_num_rows() as nat,
            )
        }
    }

    /// Every index of the span is below `len`.
    pub open spec fn fits_within(self, len: int) -> bool {
        self.spec_num_rows() == 0 || self.spec_start() <= len && rows_fit(
            len - self.spec_start(),
            self.spec_items_per_row(),
            self.spec_row_stride(),
            self.spec_num_rows() as nat,
        )
    }

    /// The span's indices can be made room for among `len` elements: the
    /// elements before the first row and between rows are there.
    pub open spec fn can_insert_into(self, len: int) -> bool {
        self.spec_num_rows() == 0 || self.spec_start() <= len && gaps_fit(
            len - self.spec_start(),
            self.spec_row_stride() - self.spec_items_per_row(),
            self.spec_num_rows() as nat,
        )
    }

    /// Takes the elements at the span's indices out of `data`, keeping the
    /// others in order.
    pub fn erase<T>(&self, data: Vec<T>) -> (r: Vec<T>)
        requires
            self.wf(),
            self.fits_within(data@.len() as int),
        ensures
            r@ == self.spec_erase(data@),
            r@.len() == data@.len() - self.spec_num_items(),
    {
        let ghost d = data@;
        let ghost target = self.spec_erase(d);
        let items = self.items_per_row;
        let stride = self.row_stride;
        let rows = self.num_rows;
        if rows == 0 {
            proof {
                assert(items * rows == 0) by (nonlinear_arith)
                    requires
                        rows == 0,
                ;
            }
            return data;
        }
        let mut front = data;
        let mut rest = front.split_off(self.start);
        let mut out: Vec<T> = Vec::new();
        out.append(&mut front);
        proof {
            assert(out@ == d.take(self.start as int));
            assert(rest@ == d.skip(self.start as int));
            lemma_erase_rows_len(rest@, items as int, stride as int, rows as nat);
        }
        let mut r: usize = 0;
        while r < rows
            invariant
                r <= rows,
                items <= stride,
                out@ + erase_rows(rest@, items as int, stride as int, (rows - r) as nat) == target,
                rows_fit(rest@.len() as int, items as int, stride as int, (rows - r) as nat),
            decreases rows - r,
        {
            let ghost before = rest@;
            if r + 1 == rows {
                let after = rest.split_off(items);
                rest = after;
                proof {
                    assert(rest@ == before.skip(items as int));
                    assert(erase_rows(rest@, items as int, stride as int, 0) == rest@);
                }
            } else {
                let mut gap = rest.split_off(items);
                let tail = gap.split_off(stride - items);
                out.append(&mut gap);
                rest = tail;
                proof {
                    assert(before.subrange(items as int, stride as int) =~= before.skip(items as int).take(
                        (stride - items) as int,
                    ));
                    assert(rest@ =~= before.skip(stride as int));
                }
            }
            r = r + 1;
        }
        out.append(&mut rest);
        proof {
            assert(out@ =~= target);
        }
        out
    }

    /// Makes room for the span's indices in `data`: the elements of `data`
    /// keep their order around new elements made by `fill`, which stand at
    /// the span's indices of the result.
    pub fn insert_with<T, F: Fn() -> T>(&self, data: Vec<T>, fill: F) -> (r: Vec<T>)
        requires
            self.wf(),
            self.can_insert_into(data@.len() as int),
            data@.len() + self.spec_num_items() <= usize::MAX,
            forall|u: ()| #[trigger] fill.requires(u),
        ensures
            r@.len() == data@.len() + self.spec_num_items(),
            self.spec_erase(r@) == data@,
            self.fits_within(r@.len() as int),
    {
        let ghost d = data@;
        let items = self.items_per_row;
        let stride = self.row_stride;
        let rows = self.num_rows;
        let start = self.start;
        if rows == 0 {
            proof {
                assert(items * rows == 0) by (nonlinear_arith)
                    requires
                        rows == 0,
                ;
            }
            return data;
        }
        let mut front = data;
        let mut rest = front.split_off(start);
        let mut out: Vec<T> = Vec::new();
        out.append(&mut front);
        let ghost mut built: Seq<T> = Seq::empty();
        let ghost mut consumed: int = 0;
        let mut r: usize = 0;
        while r + 1 < rows
            invariant
                1 <= rows,
                r + 1 <= rows,
                items <= stride,
                out@ == d.take(start as int) + built,
                full_rows(built, stride as int, r as nat),
                built.len() == r * stride,
                erase_full_rows(built, items as int, stride as int, r as nat) == d.subrange(
                    start as int,
                    start + consumed,
                ),
                consumed == r * (stride - items),
                rest@ == d.skip(start + consumed),
                gaps_fit(rest@.len() as int, (stride - items) as int, (rows - r) as nat),
                start + consumed <= d.len(),
                d.len() + items * rows <= usize::MAX,
                forall|u: ()| #[trigger] fill.requires(u),
            decreases rows - r,
        {
            let ghost out_before = out@;
            let ghost built_before = built;
            let mut row: Vec<T> = Vec::new();
            let mut c: usize = 0;
            while c < items
                invariant
                    c <= items,
                    row@.len() == c,
                    forall|u: ()| #[trigger] fill.requires(u),
                decreases items - c,
            {
                row.push(fill());
                c = c + 1;
            }
            let tail = rest.split_off(stride - items);
            let ghost gap = rest@;
            let ghost full_row = row@ + gap;
            out.append(&mut row);
            out.append(&mut rest);
            rest = tail;
            proof {
                assert(full_row.len() == stride);
                lemma_erase_full_rows_push(built, full_row, items as int, stride as int, r as nat);
                assert(full_row.subrange(items as int, stride as int) =~= gap);
                built = built + full_row;
                assert(out@ =~= d.take(start as int) + built);
                assert(d.subrange(start as int, start + consumed) + gap =~= d.subrange(
                    start as int,
                    start + consumed + (stride - items),
                ));
                consumed = consumed + (stride - items);
                assert((r + 1) * (stride - items) == r * (stride - items) + (stride - items))
                    by (nonlinear_arith);
                assert((r + 1) * stride == r * stride + stride) by (nonlinear_arith);
                assert(rest@ =~= d.skip(start + consumed));
            }
            r = r + 1;
        }
        let mut row: Vec<T> = Vec::new();
        let mut c: usize = 0;
        proof {
            assert(r + 1 == rows);
            assert(items * rows == r * stride + items - r * (stride - items) + r * items - r * items
                + (items * rows - items - r * items)) by (nonlinear_arith);
        }
        while c < items
            invariant
                c <= items,
                row@.len() == c,
                forall|u: ()| #[trigger] fill.requires(u),
            decreases items - c,
        {
            row.push(fill());
            c = c + 1;
        }
        let ghost w = row@ + rest@;
        let ghost rest_view = rest@;
        out.append(&mut row);
        out.append(&mut rest);
        proof {
            assert(out@ =~= d.take(start as int) + (built + w));
            assert(out@.take(start as int) =~= d.take(start as int));
            assert(out@.skip(start as int) =~= built + w);
            lemma_erase_rows_after_full(built, w, items as int, stride as int, r as nat, 1);
            assert(w.skip(items as int) =~= rest_view);
            assert(erase_rows(w, items as int, stride as int, 1) == rest_view);
            assert(d.subrange(start as int, start + consumed) + rest_view =~= d.skip(start as int));
            assert(d.take(start as int) + d.skip(start as int) =~= d);
            assert(rows_fit(w.len() as int, items as int, stride as int, 1));
            assert(r * items + items == items * rows) by (nonlinear_arith)
                requires
                    r + 1 == rows,
            ;
        }
        out
    }

}

} // verus!
