use vstd::prelude::*;

use crate::raster::{is_sentinel, Image, ImageV, Pixel, CHAR_HEIGHT, CHAR_WIDTH};

verus! {

/// The pixel column at `x`, rows `y0` to `y0 + h` (top to bottom).
pub open spec fn col_seq(v: ImageV, x: int, y0: int, h: int) -> Seq<Pixel> {
    Seq::new(h as nat, |j: int| v.pix(x, y0 + j))
}

/// A column made entirely of sentinel pixels marks the end of a glyph's
/// content.
pub open spec fn blank_col(s: Seq<Pixel>) -> bool {
    forall|j: int| 0 <= j < s.len() ==> is_sentinel(s[j])
}

/// The columns of the cell at grid position (`lid`, `cid`), each top to
/// bottom, left to right.
pub open spec fn cell_cols(v: ImageV, lid: int, cid: int) -> Seq<Seq<Pixel>> {
    Seq::new(
        CHAR_WIDTH as nat,
        |i: int| col_seq(v, cid * CHAR_WIDTH + i, lid * CHAR_HEIGHT, CHAR_HEIGHT as int),
    )
}

/// The columns from position `k` on, kept up to (and excluding) the first
/// all-sentinel column.
pub open spec fn trim_cols_from(cols: Seq<Seq<Pixel>>, k: int) -> Seq<Seq<Pixel>>
    decreases cols.len() - k,
{
    if k < 0 || k >= cols.len() || blank_col(cols[k]) {
        Seq::empty()
    } else {
        seq![cols[k]] + trim_cols_from(cols, k + 1)
    }
}

/// Trimming a sequence of columns: everything from the first all-sentinel
/// column on is dropped.
pub open spec fn trim_cols(cols: Seq<Seq<Pixel>>) -> Seq<Seq<Pixel>> {
    trim_cols_from(cols, 0)
}

/// The retained columns from position `k` on, concatenated into one
/// column-major pixel sequence.
pub open spec fn trim_cat_from(cols: Seq<Seq<Pixel>>, k: int) -> Seq<Pixel>
    decreases cols.len() - k,
{
    if k < 0 || k >= cols.len() || blank_col(cols[k]) {
        Seq::empty()
    } else {
        cols[k] + trim_cat_from(cols, k + 1)
    }
}

/// The trimmed content of the cell at (`lid`, `cid`): its columns up to the
/// first all-sentinel column, concatenated in column-major order.
pub open spec fn trimmed_cell(v: ImageV, lid: int, cid: int) -> Seq<Pixel> {
    trim_cat_from(cell_cols(v, lid, cid), 0)
}

/// Concatenation of the columns at positions `j..k`.
pub open spec fn cat_cols(cols: Seq<Seq<Pixel>>, j: int, k: int) -> Seq<Pixel>
    decreases k - j,
{
    if j >= k {
        Seq::empty()
    } else {
        cols[j] + cat_cols(cols, j + 1, k)
    }
}

proof fn lemma_cat_cols_snoc(cols: Seq<Seq<Pixel>>, j: int, k: int)
    requires
        j <= k,
    ensures
        cat_cols(cols, j, k + 1) == cat_cols(cols, j, k) + cols[k],
    decreases k - j,
{
    if j >= k {
        assert(cat_cols(cols, k + 1, k + 1) == Seq::<Pixel>::empty());
        assert(cat_cols(cols, j, k + 1) == cols[j] + cat_cols(cols, j + 1, k + 1));
        assert(cat_cols(cols, j, k) + cols[k] =~= cols[k]);
        assert(cat_cols(cols, j, k + 1) =~= cols[k]);
    } else {
        lemma_cat_cols_snoc(cols, j + 1, k);
        assert(cols[j] + (cat_cols(cols, j + 1, k) + cols[k]) =~= (cols[j] + cat_cols(
            cols,
            j + 1,
            k,
        )) + cols[k]);
    }
}

/// Where the first `k` columns are kept and column `k` (if any) is blank,
/// the trimmed concatenation is exactly the first `k` columns.
proof fn lemma_trim_cat_stop(cols: Seq<Seq<Pixel>>, j: int, k: int)
    requires
        0 <= j <= k <= cols.len(),
        forall|i: int| j <= i < k ==> !blank_col(cols[i]),
        k == cols.len() || blank_col(cols[k]),
    ensures
        trim_cat_from(cols, j) == cat_cols(cols, j, k),
    decreases k - j,
{
    if j >= k {
    } else {
        lemma_trim_cat_stop(cols, j + 1, k);
    }
}

proof fn lemma_trim_cols_elts(cols: Seq<Seq<Pixel>>, k: int)
    requires
        0 <= k <= cols.len(),
    ensures
        trim_cols_from(cols, k).len() <= cols.len() - k,
        forall|i: int|
            0 <= i < trim_cols_from(cols, k).len() ==> trim_cols_from(cols, k)[i] == cols[k + i]
                && !blank_col(#[trigger] trim_cols_from(cols, k)[i]),
    decreases cols.len() - k,
{
    if k >= cols.len() || blank_col(cols[k]) {
    } else {
        lemma_trim_cols_elts(cols, k + 1);
    }
}

proof fn lemma_trim_cols_nonblank(t: Seq<Seq<Pixel>>, k: int)
    requires
        0 <= k <= t.len(),
        forall|i: int| 0 <= i < t.len() ==> !blank_col(#[trigger] t[i]),
    ensures
        trim_cols_from(t, k) == t.subrange(k, t.len() as int),
    decreases t.len() - k,
{
    if k >= t.len() {
        assert(trim_cols_from(t, k) =~= t.subrange(k, t.len() as int));
    } else {
        lemma_trim_cols_nonblank(t, k + 1);
        assert(seq![t[k]] + t.subrange(k + 1, t.len() as int) =~= t.subrange(k, t.len() as int));
    }
}

proof fn lemma_trim_cat_len(cols: Seq<Seq<Pixel>>, k: int, h: int)
    requires
        0 <= k <= cols.len(),
        0 <= h,
        forall|i: int| 0 <= i < cols.len() ==> (#[trigger] cols[i]).len() == h,
    ensures
        trim_cat_from(cols, k).len() <= (cols.len() - k) * h,
    decreases cols.len() - k,
{
    if k >= cols.len() || blank_col(cols[k]) {
        assert(0 <= (cols.len() - k) * h) by (nonlinear_arith)
            requires
                k <= cols.len(),
                0 <= h,
        ;
    } else {
        lemma_trim_cat_len(cols, k + 1, h);
        assert(h + (cols.len() - k - 1) * h == (cols.len() - k) * h) by (nonlinear_arith);
    }
}

/// A trimmed cell never holds more pixels than a full cell.
pub proof fn lemma_trimmed_cell_len(v: ImageV, lid: int, cid: int)
    ensures
        trimmed_cell(v, lid, cid).len() <= CHAR_WIDTH * CHAR_HEIGHT,
{
    lemma_trim_cat_len(cell_cols(v, lid, cid), 0, CHAR_HEIGHT as int);
}

proof fn lemma_trim_cat_is_flatten(cols: Seq<Seq<Pixel>>, k: int)
    ensures
        trim_cat_from(cols, k) == trim_cols_from(cols, k).flatten(),
    decreases cols.len() - k,
{
    if k < 0 || k >= cols.len() || blank_col(cols[k]) {
        assert(Seq::<Seq<Pixel>>::empty().flatten() =~= Seq::<Pixel>::empty());
    } else {
        lemma_trim_cat_is_flatten(cols, k + 1);
        let t = seq![cols[k]] + trim_cols_from(cols, k + 1);
        assert(t.first() == cols[k]);
        assert(t.drop_first() =~= trim_cols_from(cols, k + 1));
        assert(t.flatten() == t.first() + t.drop_first().flatten());
    }
}

/// A cell's trimmed pixel sequence is exactly its trimmed columns,
/// concatenated in column-major order.
pub proof fn lemma_trimmed_cell_is_flatten(v: ImageV, lid: int, cid: int)
    ensures
        trimmed_cell(v, lid, cid) == trim_cols(cell_cols(v, lid, cid)).flatten(),
{
    lemma_trim_cat_is_flatten(cell_cols(v, lid, cid), 0);
}

/// Trimming is idempotent: a trimmed column sequence has no all-sentinel
/// column left, so trimming it again returns it unchanged.
pub proof fn lemma_trim_idempotent(cols: Seq<Seq<Pixel>>)
    ensures
        trim_cols(trim_cols(cols)) == trim_cols(cols),
{
    let t = trim_cols(cols);
    lemma_trim_cols_elts(cols, 0);
    lemma_trim_cols_nonblank(t, 0);
    assert(t.subrange(0, t.len() as int) =~= t);
}

impl Image {
    /// The trimmed pixel content of the cell at line `lid`, column `cid`:
    /// cell columns are scanned left to right and collected top to bottom,
    /// stopping at the first column made entirely of sentinel pixels.
    pub fn extract_cell(&self, lid: usize, cid: usize) -> (r: Vec<Pixel>)
        requires
            self.wf(),
            (lid + 1) * CHAR_HEIGHT <= self.height,
            (cid + 1) * CHAR_WIDTH <= self.width,
        ensures
            r@ == trimmed_cell(self@, lid as int, cid as int),
    {
        let ghost cols = cell_cols(self@, lid as int, cid as int);
        let mut out: Vec<Pixel> = Vec::new();
        let mut x: usize = 0;
        loop
            invariant_except_break
                self.wf(),
                (lid + 1) * CHAR_HEIGHT <= self.height,
                (cid + 1) * CHAR_WIDTH <= self.width,
                cols == cell_cols(self@, lid as int, cid as int),
                x <= CHAR_WIDTH,
                forall|j: int| 0 <= j < x ==> !blank_col(#[trigger] cols[j]),
                out@ == cat_cols(cols, 0, x as int),
            ensures
                out@ == trim_cat_from(cols, 0),
            decreases CHAR_WIDTH - x,
        {
            if x == CHAR_WIDTH {
                proof {
                    lemma_trim_cat_stop(cols, 0, CHAR_WIDTH as int);
                }
                break ;
            }
            let mut colv: Vec<Pixel> = Vec::new();
            let mut all_sentinel = true;
            let mut y: usize = 0;
            let ghost cx = (cid * CHAR_WIDTH + x) as int;
            let ghost cy = (lid * CHAR_HEIGHT) as int;
            while y < CHAR_HEIGHT
                invariant
                    self.wf(),
                    (lid + 1) * CHAR_HEIGHT <= self.height,
                    (cid + 1) * CHAR_WIDTH <= self.width,
                    x < CHAR_WIDTH,
                    cx == cid * CHAR_WIDTH + x,
                    cy == lid * CHAR_HEIGHT,
                    y <= CHAR_HEIGHT,
                    colv@.len() == y,
                    forall|j: int| 0 <= j < y ==> colv@[j] == self@.pix(cx, cy + j),
                    all_sentinel ==> (forall|j: int| 0 <= j < y ==> is_sentinel(colv@[j])),
                    !all_sentinel ==> (exists|j: int| 0 <= j < y && !is_sentinel(colv@[j])),
                decreases CHAR_HEIGHT - y,
            {
                let p = self.get(cid * CHAR_WIDTH + x, lid * CHAR_HEIGHT + y);
                let sent = p.r == 0 && p.g == 0 && p.b == 0 && p.a == 255;
                if !sent {
                    all_sentinel = false;
                }
                let ghost prev = colv@;
                colv.push(p);
                proof {
                    assert(colv@[y as int] == p);
                    assert(forall|j: int| 0 <= j < y ==> colv@[j] == prev[j]);
                    if !sent {
                        assert(!is_sentinel(colv@[y as int]));
                    } else if !all_sentinel {
                        let j0 = choose|j: int| 0 <= j < y && !is_sentinel(prev[j]);
                        assert(!is_sentinel(colv@[j0]));
                    }
                }
                y = y + 1;
            }
            proof {
                assert(colv@ =~= cols[x as int]);
            }
            if all_sentinel {
                proof {
                    lemma_trim_cat_stop(cols, 0, x as int);
                }
                break ;
            }
            let mut tail = colv;
            out.append(&mut tail);
            proof {
                lemma_cat_cols_snoc(cols, 0, x as int);
            }
            x = x + 1;
        }
        out
    }
}

} // verus!
