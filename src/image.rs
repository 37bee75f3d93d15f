use vstd::prelude::*;

verus! {

/// The image bytes of pixel rows given bottom row first: the rows from the
/// last to the first, each row's bytes kept in order.
pub open spec fn rows_top_down(rows: Seq<Vec<u8>>) -> Seq<u8>
    decreases rows.len(),
{
    if rows.len() == 0 {
        Seq::empty()
    } else {
        rows.last()@ + rows_top_down(rows.drop_last())
    }
}

/// With every row `row_len` bytes long, the joined buffer holds all rows, and
/// byte `t` of row `j` (counted from the bottom) stands at
/// `(rows.len() - 1 - j) * row_len + t`: row-major, top row first.
pub proof fn lemma_rows_top_down_index(rows: Seq<Vec<u8>>, row_len: int, j: int, t: int)
    requires
        forall|k: int| 0 <= k < rows.len() ==> (#[trigger] rows[k])@.len() == row_len,
        0 <= j < rows.len(),
        0 <= t < row_len,
    ensures
        rows_top_down(rows).len() == rows.len() * row_len,
        rows_top_down(rows)[(rows.len() - 1 - j) * row_len + t] == rows[j]@[t],
    decreases rows.len(),
{
    let h = rows.len() as int;
    let rest = rows.drop_last();
    let top = rows[h - 1]@;
    assert(rows_top_down(rows) == top + rows_top_down(rest));
    if h == 1 {
        assert(rows_top_down(rest) =~= Seq::<u8>::empty());
        assert(rows_top_down(rows) =~= top);
    } else {
        lemma_rows_top_down_index(rest, row_len, 0, 0);
        assert(rows.len() * row_len == row_len + (h - 1) * row_len) by (nonlinear_arith)
            requires
                h == rows.len(),
        ;
        if j == h - 1 {
            assert((h - 1 - j) * row_len + t == t);
        } else {
            lemma_rows_top_down_index(rest, row_len, j, t);
            let p = (h - 2 - j) * row_len + t;
            assert((h - 1 - j) * row_len + t == row_len + p) by (nonlinear_arith)
                requires
                    p == (h - 2 - j) * row_len + t,
            ;
            assert(p < (h - 1) * row_len) by (nonlinear_arith)
                requires
                    p == (h - 2 - j) * row_len + t,
                    0 <= j <= h - 2,
                    0 <= t < row_len,
            ;
            assert(rest[j] == rows[j]);
            assert((top + rows_top_down(rest))[row_len + p] == rows_top_down(rest)[p]);
        }
    }
}

/// Joins rendered pixel rows, `rows[j]` holding row `j` counted from the
/// bottom of the image, into one row-major buffer whose top row comes first,
/// as image encoders expect.
pub fn assemble_rows(rows: Vec<Vec<u8>>) -> (r: Vec<u8>)
    ensures
        r@ == rows_top_down(rows@),
{
    let ghost all = rows@;
    let mut rows = rows;
    let mut out: Vec<u8> = Vec::new();
    while rows.len() > 0
        invariant
            out@ + rows_top_down(rows@) == rows_top_down(all),
        decreases rows.len(),
    {
        let ghost before = rows@;
        let ghost done = out@;
        let mut row = rows.pop().unwrap();
        assert(before.drop_last() == rows@);
        out.append(&mut row);
        assert(done + rows_top_down(before) == out@ + rows_top_down(rows@)) by {
            assert(rows_top_down(before) == before.last()@ + rows_top_down(rows@));
            assert((done + before.last()@) + rows_top_down(rows@) =~= done + (before.last()@ + rows_top_down(rows@)));
        }
    }
    assert(rows_top_down(rows@) =~= Seq::<u8>::empty());
    assert(out@ + Seq::<u8>::empty() =~= out@);
    out
}

} // verus!
