//! Text layout for the terminal: message indentation and table rows.
use vstd::prelude::*;
use crate::text::{chars_of, string_from, concat};

verus! {

/// `n` copies of `c`.
pub open spec fn repeated(c: char, n: nat) -> Seq<char> {
    Seq::new(n, |_i: int| c)
}

/// `n` copies of `c`.
fn repeat_char(c: char, n: usize) -> (r: Vec<char>)
    ensures
        r@ == repeated(c, n as nat),
{
    let mut r: Vec<char> = Vec::new();
    let mut i: usize = 0;
    while i < n
        invariant
            i <= n,
            r@ == repeated(c, i as nat),
        decreases n - i,
    {
        r.push(c);
        i += 1;
        assert(r@ =~= repeated(c, i as nat));
    }
    r
}

/// Indentation state of nested messages.
#[derive(Debug)]
pub struct Ui {
    level: u32,
}

impl View for Ui {
    type V = nat;

    closed spec fn view(&self) -> nat {
        self.level as nat
    }
}

impl Default for Ui {
    fn default() -> (r: Ui)
        ensures
            r@ == 0,
    {
        Ui { level: 0 }
    }
}

impl Ui {
    /// One level deeper.
    pub fn nest(&self) -> (r: Ui)
        requires
            self@ < u32::MAX,
        ensures
            r@ == self@ + 1,
    {
        Ui { level: self.level + 1 }
    }

    /// Two spaces per level.
    pub fn get_indent(&self) -> (r: String)
        ensures
            r@ == repeated(' ', 2 * self@),
    {
        let one = repeat_char(' ', self.level as usize);
        let two = concat(&one, &one);
        assert(two@ =~= repeated(' ', 2 * self@));
        string_from(&two)
    }
}

/// `cell` padded with spaces to `width` characters; a longer cell is kept whole.
pub open spec fn padded(cell: Seq<char>, width: nat) -> Seq<char> {
    if cell.len() >= width { cell } else { cell + repeated(' ', (width - cell.len()) as nat) }
}

/// The first `n` cells, padded to their column widths and separated by `│`.
pub open spec fn row_text(widths: Seq<usize>, cells: Seq<Seq<char>>, n: int) -> Seq<char>
    decreases n,
{
    if n <= 0 {
        Seq::empty()
    } else if n == 1 {
        padded(cells[0], widths[0] as nat)
    } else {
        row_text(widths, cells, n - 1) + seq!['│'] + padded(cells[n - 1], widths[n - 1] as nat)
    }
}

/// One `─` run per column, separated by `┼`.
pub open spec fn separator_text(widths: Seq<usize>, n: int) -> Seq<char>
    decreases n,
{
    if n <= 0 {
        Seq::empty()
    } else if n == 1 {
        repeated('─', widths[0] as nat)
    } else {
        separator_text(widths, n - 1) + seq!['┼'] + repeated('─', widths[n - 1] as nat)
    }
}

/// A table with fixed column widths.
#[derive(Debug)]
pub struct Table {
    columns: Vec<usize>,
}

impl View for Table {
    type V = Seq<usize>;

    closed spec fn view(&self) -> Seq<usize> {
        self.columns@
    }
}

impl Table {
    pub fn new(columns: &Vec<usize>) -> (r: Table)
        ensures
            r@ == columns@,
    {
        Table { columns: columns.clone() }
    }

    /// The text of a row: as many cells as there are both cells and columns.
    pub fn format_row(&self, cells: &Vec<String>) -> (r: String)
        ensures
            r@ == row_text(self@, cells@.map_values(|c: String| c@),
                if cells@.len() < self@.len() { cells@.len() as int } else { self@.len() as int }),
    {
        let n = if cells.len() < self.columns.len() { cells.len() } else { self.columns.len() };
        let ghost cv = cells@.map_values(|c: String| c@);
        let mut out: Vec<char> = Vec::new();
        let mut i: usize = 0;
        while i < n
            invariant
                i <= n,
                n <= cells@.len(),
                n <= self.columns@.len(),
                cv == cells@.map_values(|c: String| c@),
                out@ == row_text(self.columns@, cv, i as int),
            decreases n - i,
        {
            let cell = chars_of(cells[i].as_str());
            let w = self.columns[i];
            let p = if cell.len() >= w { cell } else { concat(&cell, &repeat_char(' ', w - cell.len())) };
            assert(p@ == padded(cv[i as int], w as nat));
            if i > 0 {
                let bar: Vec<char> = vec!['│'];
                out = concat(&concat(&out, &bar), &p);
            } else {
                out = p;
            }
            i += 1;
        }
        string_from(&out)
    }

    /// The separator line under a header.
    pub fn separator(&self) -> (r: String)
        ensures
            r@ == separator_text(self@, self@.len() as int),
    {
        let mut out: Vec<char> = Vec::new();
        let mut i: usize = 0;
        while i < self.columns.len()
            invariant
                i <= self.columns@.len(),
                out@ == separator_text(self.columns@, i as int),
            decreases self.columns@.len() - i,
        {
            let run = repeat_char('─', self.columns[i]);
            if i > 0 {
                let cross: Vec<char> = vec!['┼'];
                out = concat(&concat(&out, &cross), &run);
            } else {
                out = run;
            }
            i += 1;
        }
        string_from(&out)
    }
}

} // verus!
