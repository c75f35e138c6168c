use vstd::prelude::*;

use crate::field::Field;
use crate::geometry::{box_collision, boxes_overlap, Segment, CELL_HEIGHT, CELL_WIDTH};

verus! {

/// Number of whole cells across the field.
pub open spec fn columns(f: Field) -> int {
    (f.width as int) / (CELL_WIDTH as int)
}

/// Number of whole cells down the field.
pub open spec fn rows(f: Field) -> int {
    (f.height as int) / (CELL_HEIGHT as int)
}

/// The `k`-th cell of the field, column by column.
pub open spec fn cell_at(f: Field, k: int) -> Segment {
    Segment {
        x: ((k / rows(f)) * CELL_WIDTH) as i64,
        y: ((k % rows(f)) * CELL_HEIGHT) as i64,
    }
}

/// A cell is occupied where its box overlaps a segment's.
pub open spec fn occupied(snake: Seq<Segment>, c: Segment) -> bool {
    exists|i: int| 0 <= i < snake.len() && #[trigger] boxes_overlap(snake[i], c)
}

/// The unoccupied cells among the first `k`, in order.
pub open spec fn free_cells_upto(snake: Seq<Segment>, f: Field, k: nat) -> Seq<Segment>
    decreases k,
{
    if k == 0 {
        seq![]
    } else {
        let before = free_cells_upto(snake, f, (k - 1) as nat);
        let c = cell_at(f, k - 1);
        if occupied(snake, c) {
            before
        } else {
            before.push(c)
        }
    }
}

/// The unoccupied cells of the field, column by column.
pub open spec fn free_cells(snake: Seq<Segment>, f: Field) -> Seq<Segment> {
    free_cells_upto(snake, f, (columns(f) * rows(f)) as nat)
}

/// The cell picked by `seed` among `free`; none where `free` is empty.
pub open spec fn spawn_choice(free: Seq<Segment>, seed: nat) -> Option<Segment> {
    if free.len() == 0 {
        None
    } else {
        Some(free[(seed % free.len()) as int])
    }
}

/// Whether some segment of `snake` overlaps the cell at `c`.
fn cell_occupied(snake: &Vec<Segment>, c: Segment) -> (r: bool)
    requires
        c.in_limits(),
        forall|i: int| 0 <= i < snake@.len() ==> (#[trigger] snake@[i]).in_limits(),
    ensures
        r == occupied(snake@, c),
{
    let mut i: usize = 0;
    while i < snake.len()
        invariant
            i <= snake@.len(),
            c.in_limits(),
            forall|j: int| 0 <= j < snake@.len() ==> (#[trigger] snake@[j]).in_limits(),
            forall|j: int| 0 <= j < i ==> !boxes_overlap(#[trigger] snake@[j], c),
        decreases snake@.len() - i,
    {
        if box_collision(snake[i], c) {
            return true;
        }
        i = i + 1;
    }
    false
}

proof fn lemma_cell_position(f: Field, col: int, row: int)
    requires
        f.fits(),
        0 <= col,
        0 <= row < rows(f),
    ensures
        cell_at(f, col * rows(f) + row) == (Segment {
            x: (col * CELL_WIDTH) as i64,
            y: (row * CELL_HEIGHT) as i64,
        }),
{
    vstd::arithmetic::div_mod::lemma_fundamental_div_mod_converse(
        col * rows(f) + row,
        rows(f),
        col,
        row,
    );
}

/// The cells not occupied by `snake`, column by column.
fn unoccupied_cells(snake: &Vec<Segment>, field: &Field) -> (r: Vec<Segment>)
    requires
        field.fits(),
        forall|i: int| 0 <= i < snake@.len() ==> (#[trigger] snake@[i]).in_limits(),
    ensures
        r@ == free_cells(snake@, *field),
{
    let cols = field.width / CELL_WIDTH;
    let rws = field.height / CELL_HEIGHT;
    assert(rws as int == rows(*field));
    assert(cols as int == columns(*field));
    let mut unoccupied: Vec<Segment> = Vec::new();
    let mut col: i64 = 0;
    while col < cols
        invariant
            field.fits(),
            cols == columns(*field),
            rws == rows(*field),
            1 <= rws <= 12_500,
            1 <= cols <= 12_500,
            0 <= col <= cols,
            forall|i: int| 0 <= i < snake@.len() ==> (#[trigger] snake@[i]).in_limits(),
            unoccupied@ == free_cells_upto(snake@, *field, (col * rws) as nat),
        decreases cols - col,
    {
        let mut row: i64 = 0;
        assert(0 <= col * rws <= 12_500 * 12_500) by (nonlinear_arith)
            requires
                0 <= col <= 12_500,
                1 <= rws <= 12_500,
        ;
        while row < rws
            invariant
                field.fits(),
                cols == columns(*field),
                rws == rows(*field),
                1 <= rws <= 12_500,
                1 <= cols <= 12_500,
                0 <= col < cols,
                0 <= row <= rws,
                0 <= col * rws,
                forall|i: int| 0 <= i < snake@.len() ==> (#[trigger] snake@[i]).in_limits(),
                unoccupied@ == free_cells_upto(snake@, *field, (col * rws + row) as nat),
            decreases rws - row,
        {
            let c = Segment { x: col * CELL_WIDTH, y: row * CELL_HEIGHT };
            proof {
                lemma_cell_position(*field, col as int, row as int);
            }
            if !cell_occupied(snake, c) {
                unoccupied.push(c);
            }
            row = row + 1;
        }
        assert(col * rws + rws == (col + 1) * rws) by (nonlinear_arith);
        col = col + 1;
    }
    unoccupied
}

/// Picks an unoccupied cell by `seed`; none where every cell is occupied.
pub fn spawn_apple(snake: &Vec<Segment>, field: &Field, seed: u64) -> (r: Option<Segment>)
    requires
        field.fits(),
        forall|i: int| 0 <= i < snake@.len() ==> (#[trigger] snake@[i]).in_limits(),
    ensures
        r == spawn_choice(free_cells(snake@, *field), seed as nat),
{
    let unoccupied = unoccupied_cells(snake, field);
    let n = unoccupied.len();
    if n == 0 {
        return None;
    }
    let position = (seed % (n as u64)) as usize;
    Some(unoccupied[position])
}

/// Every free cell lies on the field, whole, and overlaps no segment.
pub proof fn lemma_free_cells_on_field(snake: Seq<Segment>, f: Field, k: nat)
    requires
        f.fits(),
        k <= columns(f) * rows(f),
    ensures
        forall|j: int|
            0 <= j < free_cells_upto(snake, f, k).len() ==> {
                let c = #[trigger] free_cells_upto(snake, f, k)[j];
                &&& !occupied(snake, c)
                &&& 0 <= c.x && c.x + CELL_WIDTH <= f.width
                &&& 0 <= c.y && c.y + CELL_HEIGHT <= f.height
            },
    decreases k,
{
    if k > 0 {
        lemma_free_cells_on_field(snake, f, (k - 1) as nat);
        let c = cell_at(f, k - 1);
        let r = rows(f);
        let q = (k - 1) / r;
        vstd::arithmetic::div_mod::lemma_fundamental_div_mod(k - 1, r);
        vstd::arithmetic::div_mod::lemma_mod_bound(k - 1, r);
        vstd::arithmetic::div_mod::lemma_div_pos_is_pos(k - 1, r);
        assert(q < columns(f)) by (nonlinear_arith)
            requires
                k - 1 == r * q + (k - 1) % r,
                0 <= (k - 1) % r,
                k <= columns(f) * r,
                r > 0,
        ;
        assert(columns(f) * CELL_WIDTH <= f.width) by {
            vstd::arithmetic::div_mod::lemma_fundamental_div_mod(f.width as int, CELL_WIDTH as int);
        }
        assert(r * CELL_HEIGHT <= f.height) by {
            vstd::arithmetic::div_mod::lemma_fundamental_div_mod(f.height as int, CELL_HEIGHT as int);
        }
        assert(0 <= q * CELL_WIDTH && q * CELL_WIDTH + CELL_WIDTH <= f.width);
        assert(0 <= ((k - 1) % r) * CELL_HEIGHT && ((k - 1) % r) * CELL_HEIGHT + CELL_HEIGHT
            <= f.height);
        assert(c.x == q * CELL_WIDTH);
        assert(c.y == ((k - 1) % r) * CELL_HEIGHT);
        let before = free_cells_upto(snake, f, (k - 1) as nat);
        let now = free_cells_upto(snake, f, k);
        assert forall|j: int| 0 <= j < now.len() implies {
            let d = #[trigger] now[j];
            &&& !occupied(snake, d)
            &&& 0 <= d.x && d.x + CELL_WIDTH <= f.width
            &&& 0 <= d.y && d.y + CELL_HEIGHT <= f.height
        } by {
            if j < before.len() {
                assert(now[j] == before[j]);
            }
        }
    }
}

/// On a field with a single free cell, every seed picks that cell.
pub proof fn lemma_single_free_cell(snake: Seq<Segment>, f: Field, seed: nat)
    requires
        free_cells(snake, f).len() == 1,
    ensures
        spawn_choice(free_cells(snake, f), seed) == Some(free_cells(snake, f)[0]),
{
}

} // verus!
