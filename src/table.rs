use vstd::prelude::*;

verus! {

/// `n` spaces.
pub open spec fn spaces(n: nat) -> Seq<char> {
    Seq::new(n, |i: int| ' ')
}

/// The width of column `c`: the length of its longest cell, over the rows
/// that reach that column.
pub open spec fn col_width(rows: Seq<Seq<Seq<char>>>, c: int) -> nat
    decreases rows.len(),
{
    if rows.len() == 0 {
        0
    } else {
        let w = col_width(rows.drop_last(), c);
        let row = rows.last();
        if 0 <= c < row.len() && row[c].len() > w {
            row[c].len()
        } else {
            w
        }
    }
}

/// Cell `c` of `row` as it is printed: padded to `width` and followed by a
/// separating space, unless it is the row's last cell, which stands bare.
pub open spec fn cell_text(row: Seq<Seq<char>>, c: int, width: nat) -> Seq<char> {
    if c + 1 < row.len() {
        row[c] + spaces((width - row[c].len()) as nat) + seq![' ']
    } else {
        row[c]
    }
}

/// The first `n` cells of `row`, printed with the column widths of `rows`.
pub open spec fn row_text(rows: Seq<Seq<Seq<char>>>, row: Seq<Seq<char>>, n: int) -> Seq<char>
    decreases n,
{
    if n <= 0 {
        Seq::empty()
    } else {
        row_text(rows, row, n - 1) + cell_text(row, n - 1, col_width(rows, n - 1))
    }
}

/// The first `n` rows of `rows` as lines of text, each ended by a newline.
pub open spec fn lines_text(rows: Seq<Seq<Seq<char>>>, n: int) -> Seq<char>
    decreases n,
{
    if n <= 0 {
        Seq::empty()
    } else {
        lines_text(rows, n - 1) + row_text(rows, rows[n - 1], rows[n - 1].len() as int) + seq!['\n']
    }
}

/// The table `rows` as text with aligned columns.
pub open spec fn table_text(rows: Seq<Seq<Seq<char>>>) -> Seq<char> {
    lines_text(rows, rows.len() as int)
}

proof fn lemma_col_width_bound(rows: Seq<Seq<Seq<char>>>, i: int, c: int)
    requires
        0 <= i < rows.len(),
        0 <= c < rows[i].len(),
    ensures
        rows[i][c].len() <= col_width(rows, c),
    decreases rows.len(),
{
    if i < rows.len() - 1 {
        lemma_col_width_bound(rows.drop_last(), i, c);
    }
}

fn column_width(rows: &Vec<Vec<String>>, c: usize) -> (r: usize)
    ensures
        r == col_width(rows.deep_view(), c as int),
{
    let ghost t = rows.deep_view();
    let mut w: usize = 0;
    let mut i: usize = 0;
    while i < rows.len()
        invariant
            t == rows.deep_view(),
            i <= rows@.len(),
            w == col_width(t.take(i as int), c as int),
        decreases rows@.len() - i,
    {
        proof {
            assert(t.take(i + 1).drop_last() =~= t.take(i as int));
        }
        let row = &rows[i];
        if c < row.len() {
            let len = row[c].as_str().unicode_len();
            if len > w {
                w = len;
            }
        }
        i = i + 1;
    }
    proof {
        assert(t.take(i as int) =~= t);
    }
    w
}

/// Appends `n` spaces to `out`.
fn push_spaces(out: &mut String, n: usize)
    ensures
        final(out)@ == old(out)@ + spaces(n as nat),
{
    let ghost base = out@;
    let mut k: usize = 0;
    while k < n
        invariant
            k <= n,
            out@ == base + spaces(k as nat),
        decreases n - k,
    {
        out.append(" ");
        proof {
            reveal_strlit(" ");
            assert(" "@ =~= seq![' ']);
            assert(spaces((k + 1) as nat) =~= spaces(k as nat) + seq![' ']);
            assert(base + spaces(k as nat) + seq![' '] =~= base + spaces((k + 1) as nat));
        }
        k = k + 1;
    }
    proof {
        assert(spaces(0) =~= Seq::<char>::empty());
    }
}

/// Renders `rows` as lines of aligned columns: each cell but a row's last is
/// padded with spaces to its column's width and followed by one space.
pub fn format_table(rows: &Vec<Vec<String>>) -> (r: String)
    ensures
        r@ == table_text(rows.deep_view()),
{
    let ghost t = rows.deep_view();
    let mut ncols: usize = 0;
    let mut i: usize = 0;
    while i < rows.len()
        invariant
            i <= rows@.len(),
            forall|j: int| 0 <= j < i ==> #[trigger] rows@[j]@.len() <= ncols,
        decreases rows@.len() - i,
    {
        if rows[i].len() > ncols {
            ncols = rows[i].len();
        }
        i = i + 1;
    }
    let mut widths: Vec<usize> = Vec::new();
    let mut c: usize = 0;
    while c < ncols
        invariant
            c <= ncols,
            widths@.len() == c,
            forall|j: int| 0 <= j < c ==> #[trigger] widths@[j] == col_width(t, j),
            t == rows.deep_view(),
        decreases ncols - c,
    {
        widths.push(column_width(rows, c));
        c = c + 1;
    }
    let mut out = String::new();
    i = 0;
    while i < rows.len()
        invariant
            i <= rows@.len(),
            t == rows.deep_view(),
            widths@.len() == ncols,
            forall|j: int| 0 <= j < ncols ==> #[trigger] widths@[j] == col_width(t, j),
            forall|j: int| 0 <= j < rows@.len() ==> #[trigger] rows@[j]@.len() <= ncols,
            out@ == lines_text(t, i as int),
        decreases rows@.len() - i,
    {
        let row = &rows[i];
        let ghost tr = t[i as int];
        assert(tr == row.deep_view());
        let mut j: usize = 0;
        while j < row.len()
            invariant
                j <= row@.len(),
                row@.len() <= ncols,
                tr == row.deep_view(),
                tr == t[i as int],
                0 <= i < t.len(),
                widths@.len() == ncols,
                forall|k: int| 0 <= k < ncols ==> #[trigger] widths@[k] == col_width(t, k),
                out@ == lines_text(t, i as int) + row_text(t, tr, j as int),
            decreases row@.len() - j,
        {
            let ghost before = out@;
            let cell = row[j].as_str();
            out.append(cell);
            if j + 1 < row.len() {
                let len = cell.unicode_len();
                proof {
                    lemma_col_width_bound(t, i as int, j as int);
                }
                push_spaces(&mut out, widths[j] - len);
                out.append(" ");
            }
            proof {
                reveal_strlit(" ");
                assert(" "@ =~= seq![' ']);
                assert(cell@ == tr[j as int]);
                assert(out@ =~= before + cell_text(tr, j as int, col_width(t, j as int)));
            }
            j = j + 1;
        }
        out.append("\n");
        proof {
            reveal_strlit("\n");
            assert("\n"@ =~= seq!['\n']);
            assert(out@ =~= lines_text(t, i + 1));
        }
        i = i + 1;
    }
    out
}

} // verus!
