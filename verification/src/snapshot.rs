//! The rendering of a configuration as text: one character for each site,
//! row by row, the rows separated by line feeds.

use vstd::prelude::*;

verus! {

/// The character that stands for a spin: `-` for down, `+` for up.
pub open spec fn glyph(spin: u8) -> char {
    if spin == 0 {
        '-'
    } else {
        '+'
    }
}

/// The characters of row number `row` of a lattice of side `n`.
pub open spec fn row_text(cells: Seq<u8>, n: int, row: int) -> Seq<char> {
    Seq::new(n as nat, |col: int| glyph(cells[row * n + col]))
}

/// The text of the first `rows` rows, with a line feed between two rows.
pub open spec fn rows_text(cells: Seq<u8>, n: int, rows: int) -> Seq<char>
    decreases rows,
{
    if rows <= 0 {
        Seq::empty()
    } else if rows == 1 {
        row_text(cells, n, 0)
    } else {
        rows_text(cells, n, rows - 1) + seq!['\n'] + row_text(cells, n, rows - 1)
    }
}

/// The text of a configuration on the lattice of side `n`.
pub open spec fn snapshot_of(cells: Seq<u8>, n: int) -> Seq<char> {
    rows_text(cells, n, n)
}

/// Renders a configuration on the lattice of side `n`.
pub fn spin_snapshot(cells: &Vec<u8>, n: usize) -> (text: Vec<char>)
    requires
        cells@.len() == n * n,
    ensures
        text@ == snapshot_of(cells@, n as int),
{
    let sites: usize = cells.len();
    let mut text: Vec<char> = Vec::new();
    let mut row: usize = 0;
    while row < n
        invariant
            cells@.len() == n * n,
            sites == n * n,
            row <= n,
            text@ == rows_text(cells@, n as int, row as int),
        decreases n - row,
    {
        if row > 0 {
            text.push('\n');
        }
        let ghost before = text@;
        let mut col: usize = 0;
        while col < n
            invariant
                cells@.len() == n * n,
                sites == n * n,
                row < n,
                col <= n,
                text@ == before + row_text(cells@, n as int, row as int).take(col as int),
            decreases n - col,
        {
            proof {
                assert(row * n + n <= n * n) by (nonlinear_arith)
                    requires
                        row < n,
                ;
            }
            let spin: u8 = cells[row * n + col];
            text.push(if spin == 0 {
                '-'
            } else {
                '+'
            });
            col += 1;
        }
        proof {
            assert(row_text(cells@, n as int, row as int).take(n as int) =~= row_text(
                cells@,
                n as int,
                row as int,
            ));
        }
        row += 1;
    }
    text
}

} // verus!
