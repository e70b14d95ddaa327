//! Clean scrollback: with it on, only ordinary transcript cells are shown.

use vstd::prelude::*;

verus! {

/// A cell is shown unless clean scrollback is on and the cell is not ordinary.
pub open spec fn shown(clean: bool, normal: bool) -> bool {
    !clean || normal
}

pub fn cell_visible_in_current_scrollback(clean: bool, normal: bool) -> (res: bool)
    ensures
        res == shown(clean, normal),
{
    !clean || normal
}

/// How many of the first `n` cells are shown.
pub open spec fn shown_count(cells: Seq<bool>, clean: bool, n: int) -> nat
    decreases n,
{
    if n <= 0 {
        0
    } else {
        shown_count(cells, clean, n - 1) + if shown(clean, cells[n - 1]) {
            1nat
        } else {
            0nat
        }
    }
}

/// The positions of the cells shown, in order.
pub open spec fn shown_positions(cells: Seq<bool>, clean: bool, n: int) -> Seq<usize>
    decreases n,
{
    if n <= 0 {
        Seq::empty()
    } else {
        let rest = shown_positions(cells, clean, n - 1);
        if shown(clean, cells[n - 1]) {
            rest.push((n - 1) as usize)
        } else {
            rest
        }
    }
}

/// The transcript cells shown in scrollback, by position; `cells` says of
/// each cell whether it is ordinary.
pub fn transcript_cells_for_current_scrollback(cells: &Vec<bool>, clean: bool) -> (res: Vec<usize>)
    ensures
        res@ == shown_positions(cells@, clean, cells@.len() as int),
{
    let mut out: Vec<usize> = Vec::new();
    let n = cells.len();
    let mut i: usize = 0;
    while i < n
        invariant
            n == cells@.len(),
            i <= n,
            out@ == shown_positions(cells@, clean, i as int),
        decreases n - i,
    {
        if !clean || cells[i] {
            out.push(i);
        }
        i += 1;
    }
    out
}

/// Where transcript cell `index` sits in scrollback: none when there is no
/// such cell or it is hidden; else the number of shown cells before it.
pub open spec fn spec_scrollback_index(cells: Seq<bool>, clean: bool, index: int) -> Option<nat> {
    if index < 0 || index >= cells.len() || !shown(clean, cells[index]) {
        None
    } else {
        Some((shown_count(cells, clean, index + 1) - 1) as nat)
    }
}

pub fn scrollback_index_for_transcript_cell_index(cells: &Vec<bool>, clean: bool, index: usize) -> (res:
    Option<usize>)
    ensures
        match res {
            Some(i) => spec_scrollback_index(cells@, clean, index as int) == Some(i as nat),
            None => spec_scrollback_index(cells@, clean, index as int) is None,
        },
{
    if index >= cells.len() || !(!clean || cells[index]) {
        return None;
    }
    let n = cells.len();
    let mut count: usize = 0;
    let mut i: usize = 0;
    while i < n && i <= index
        invariant
            n == cells@.len(),
            index < n,
            i <= index + 1,
            count == shown_count(cells@, clean, i as int),
            count <= i,
        decreases index + 1 - i,
    {
        if !clean || cells[i] {
            count += 1;
        }
        i += 1;
    }
    Some(count - 1)
}

proof fn lemma_shown_positions_len(cells: Seq<bool>, clean: bool, n: int)
    requires
        0 <= n,
    ensures
        shown_positions(cells, clean, n).len() == shown_count(cells, clean, n),
    decreases n,
{
    if n > 0 {
        lemma_shown_positions_len(cells, clean, n - 1);
    }
}

proof fn lemma_shown_positions_prefix(cells: Seq<bool>, clean: bool, n: int, m: int)
    requires
        0 <= n <= m,
    ensures
        shown_positions(cells, clean, n).len() <= shown_positions(cells, clean, m).len(),
        forall|k: int| 0 <= k < shown_positions(cells, clean, n).len()
            ==> #[trigger] shown_positions(cells, clean, m)[k] == shown_positions(cells, clean, n)[k],
    decreases m - n,
{
    if n < m {
        lemma_shown_positions_prefix(cells, clean, n, m - 1);
    }
}

/// The scrollback index of a shown transcript cell is where that very cell
/// stands among the cells shown in scrollback.
pub proof fn lemma_scrollback_index_finds_cell(cells: Seq<bool>, clean: bool, index: int)
    requires
        0 <= index < cells.len() <= usize::MAX,
        shown(clean, cells[index]),
    ensures
        spec_scrollback_index(cells, clean, index) is Some,
        spec_scrollback_index(cells, clean, index)->Some_0 < shown_positions(cells, clean, cells.len() as int).len(),
        shown_positions(cells, clean, cells.len() as int)[spec_scrollback_index(cells, clean, index)->Some_0 as int]
            == index,
{
    lemma_shown_positions_len(cells, clean, index + 1);
    lemma_shown_positions_prefix(cells, clean, index + 1, cells.len() as int);
    let sp = shown_positions(cells, clean, index + 1);
    assert(sp == shown_positions(cells, clean, index).push(index as usize));
    assert(sp[sp.len() - 1] == index);
}

/// With clean scrollback off every cell is shown, and its scrollback index is
/// its transcript index.
pub proof fn lemma_scrollback_index_without_clean(cells: Seq<bool>, index: int)
    requires
        0 <= index < cells.len(),
    ensures
        spec_scrollback_index(cells, false, index) == Some(index as nat),
{
    lemma_shown_count_all(cells, index + 1);
}

proof fn lemma_shown_count_all(cells: Seq<bool>, n: int)
    requires
        0 <= n,
    ensures
        shown_count(cells, false, n) == n,
    decreases n,
{
    if n > 0 {
        lemma_shown_count_all(cells, n - 1);
    }
}

} // verus!
