//! Conway's Game of Life on a fixed-size toroidal grid.
//!
//! The engine owns two same-shaped grid buffers. One buffer is "current"
//! (the externally visible generation) and the other is "scratch". A step
//! writes the next generation into the scratch buffer and then swaps the
//! two buffers' roles, so grid contents are never copied and the caller
//! never observes a partially updated generation.

use vstd::arithmetic::div_mod::lemma_fundamental_div_mod;
use vstd::arithmetic::div_mod::lemma_fundamental_div_mod_converse;
use vstd::arithmetic::div_mod::lemma_mod_bound;
use vstd::arithmetic::div_mod::lemma_mod_sub_multiples_vanish;
use vstd::arithmetic::div_mod::lemma_small_mod;
use vstd::pervasive::VecAdditionalExecFns;
use vstd::prelude::*;

verus! {

/// Side length of the square grid.
pub const SIZE: usize = 10;

/// Number of cells in one grid buffer, stored in row-major order.
pub const AREA: usize = SIZE * SIZE;

/// The state of a single cell automaton: Dead or Alive, nothing more.
#[derive(Debug, PartialEq, Eq, Structural, Clone, Copy)]
pub enum GolCell {
    Dead,
    Alive,
}

/// The row or column index one step before `i`, wrapping toroidally.
pub open spec fn wrap_dec(i: int) -> int {
    if i == 0 {
        (SIZE as int) - 1
    } else {
        i - 1
    }
}

/// The row or column index one step after `i`, wrapping toroidally.
pub open spec fn wrap_inc(i: int) -> int {
    if i == (SIZE as int) - 1 {
        0
    } else {
        i + 1
    }
}

/// A well-formed generation: one cell for every coordinate of the grid.
pub open spec fn wf_grid(g: Seq<GolCell>) -> bool {
    g.len() == AREA
}

/// The cell of generation `g` at row `r`, column `c` (row-major order).
pub open spec fn cell_at(g: Seq<GolCell>, r: int, c: int) -> GolCell {
    g[r * (SIZE as int) + c]
}

/// Every cell of `g` is Dead.
pub open spec fn all_dead(g: Seq<GolCell>) -> bool {
    forall|i: int| 0 <= i < g.len() ==> g[i] is Dead
}

pub open spec fn one_if_alive(cell: GolCell) -> int {
    if cell is Alive {
        1
    } else {
        0
    }
}

/// The number of Alive cells among the 8 toroidal neighbours of (r, c):
/// every combination of r-1, r, r+1 with c-1, c, c+1 modulo the side
/// length, except (r, c) itself.
pub open spec fn spec_neighbor_count(g: Seq<GolCell>, r: int, c: int) -> int {
    one_if_alive(cell_at(g, wrap_dec(r), wrap_dec(c))) + one_if_alive(
        cell_at(g, wrap_dec(r), c),
    ) + one_if_alive(cell_at(g, wrap_dec(r), wrap_inc(c))) + one_if_alive(
        cell_at(g, r, wrap_dec(c)),
    ) + one_if_alive(cell_at(g, r, wrap_inc(c))) + one_if_alive(
        cell_at(g, wrap_inc(r), wrap_dec(c)),
    ) + one_if_alive(cell_at(g, wrap_inc(r), c)) + one_if_alive(
        cell_at(g, wrap_inc(r), wrap_inc(c)),
    )
}

/// The B3/S23 rule for one cell: a Dead cell is born on exactly 3 Alive
/// neighbours; an Alive cell survives on 2 or 3 and otherwise dies.
pub open spec fn next_cell(cur: GolCell, alive_neighbours: int) -> GolCell {
    match cur {
        GolCell::Dead => if alive_neighbours == 3 {
            GolCell::Alive
        } else {
            GolCell::Dead
        },
        GolCell::Alive => if 2 <= alive_neighbours <= 3 {
            GolCell::Alive
        } else {
            GolCell::Dead
        },
    }
}

/// One synchronous step of the whole grid: every cell of the next
/// generation is the rule applied to the current generation alone.
pub open spec fn next_grid(g: Seq<GolCell>) -> Seq<GolCell> {
    Seq::new(
        AREA as nat,
        |i: int|
            next_cell(g[i], spec_neighbor_count(g, i / (SIZE as int), i % (SIZE as int))),
    )
}

/// Row-major indexing: the flat index of (r, c) lies in range and decodes
/// back to exactly (r, c).
pub proof fn lemma_flat_index(r: int, c: int)
    requires
        0 <= r < SIZE,
        0 <= c < SIZE,
    ensures
        0 <= r * (SIZE as int) + c < AREA,
        (r * (SIZE as int) + c) / (SIZE as int) == r,
        (r * (SIZE as int) + c) % (SIZE as int) == c,
{
    lemma_fundamental_div_mod_converse(r * (SIZE as int) + c, SIZE as int, r, c);
}

/// Decoding a flat index: its row and column lie in range and recompose
/// to the index itself.
pub proof fn lemma_flat_split(i: int)
    requires
        0 <= i < AREA,
    ensures
        0 <= i / (SIZE as int) < SIZE,
        0 <= i % (SIZE as int) < SIZE,
        i == (i / (SIZE as int)) * (SIZE as int) + i % (SIZE as int),
{
    lemma_fundamental_div_mod(i, SIZE as int);
    lemma_mod_bound(i, SIZE as int);
}

/// Pointwise reading of a step: the next generation at (r, c) is the rule
/// applied to the current cell and its toroidal neighbour count.
pub proof fn lemma_next_grid_cell(g: Seq<GolCell>, r: int, c: int)
    requires
        0 <= r < SIZE,
        0 <= c < SIZE,
    ensures
        cell_at(next_grid(g), r, c) == next_cell(cell_at(g, r, c), spec_neighbor_count(g, r, c)),
{
    lemma_flat_index(r, c);
}

/// Toroidal wrapping is exactly index arithmetic modulo the side length:
/// stepping backwards from 0 reaches the far edge and stepping forwards
/// from the far edge reaches 0, so every corner and edge wraps.
pub proof fn lemma_wrap_is_mod(i: int)
    requires
        0 <= i < SIZE,
    ensures
        wrap_dec(i) == (i + SIZE - 1) % (SIZE as int),
        wrap_inc(i) == (i + 1) % (SIZE as int),
{
    if i == 0 {
        lemma_small_mod((SIZE - 1) as nat, SIZE as nat);
    } else {
        lemma_mod_sub_multiples_vanish(i + (SIZE as int) - 1, SIZE as int);
        lemma_small_mod((i - 1) as nat, SIZE as nat);
    }
    if i == (SIZE as int) - 1 {
        lemma_mod_sub_multiples_vanish(SIZE as int, SIZE as int);
        lemma_small_mod(0nat, SIZE as nat);
    } else {
        lemma_small_mod((i + 1) as nat, SIZE as nat);
    }
}

/// No spontaneous life: one step of an all-Dead grid yields an all-Dead
/// grid.
pub proof fn lemma_no_spontaneous_life(g: Seq<GolCell>)
    requires
        wf_grid(g),
        all_dead(g),
    ensures
        all_dead(next_grid(g)),
{
    assert forall|i: int| 0 <= i < next_grid(g).len() implies next_grid(g)[i] is Dead by {
        lemma_flat_split(i);
        let r = i / (SIZE as int);
        let c = i % (SIZE as int);
        lemma_flat_index(wrap_dec(r), wrap_dec(c));
        lemma_flat_index(wrap_dec(r), c);
        lemma_flat_index(wrap_dec(r), wrap_inc(c));
        lemma_flat_index(r, wrap_dec(c));
        lemma_flat_index(r, wrap_inc(c));
        lemma_flat_index(wrap_inc(r), wrap_dec(c));
        lemma_flat_index(wrap_inc(r), c);
        lemma_flat_index(wrap_inc(r), wrap_inc(c));
        assert(spec_neighbor_count(g, r, c) == 0);
    }
}

/// Birth rule: after one step, a cell that was Dead is Alive exactly when
/// it had three Alive toroidal neighbours; with any other count it stays
/// Dead.
pub proof fn lemma_birth_rule(g: Seq<GolCell>, r: int, c: int)
    requires
        0 <= r < SIZE,
        0 <= c < SIZE,
        cell_at(g, r, c) is Dead,
    ensures
        cell_at(next_grid(g), r, c) is Alive <==> spec_neighbor_count(g, r, c) == 3,
        spec_neighbor_count(g, r, c) != 3 ==> cell_at(next_grid(g), r, c) is Dead,
{
    lemma_next_grid_cell(g, r, c);
}

/// Survival rule: after one step, a cell that was Alive stays Alive
/// exactly when it had two or three Alive toroidal neighbours; with fewer
/// than two or more than three it is Dead.
pub proof fn lemma_survival_rule(g: Seq<GolCell>, r: int, c: int)
    requires
        0 <= r < SIZE,
        0 <= c < SIZE,
        cell_at(g, r, c) is Alive,
    ensures
        cell_at(next_grid(g), r, c) is Alive <==> 2 <= spec_neighbor_count(g, r, c) <= 3,
        spec_neighbor_count(g, r, c) < 2 || spec_neighbor_count(g, r, c) > 3
            ==> cell_at(next_grid(g), r, c) is Dead,
{
    lemma_next_grid_cell(g, r, c);
}

/// The Game of Life engine: two exclusively owned grid buffers whose
/// roles swap on every step.
pub struct GameBoard {
    current_state: Vec<GolCell>,
    temp_state: Vec<GolCell>,
}

impl GameBoard {
    /// The externally visible generation.
    pub closed spec fn grid(&self) -> Seq<GolCell> {
        self.current_state@
    }

    /// The scratch buffer: fully overwritten by the next step, never read
    /// by the caller.
    pub closed spec fn scratch(&self) -> Seq<GolCell> {
        self.temp_state@
    }

    /// Both buffers hold one cell per coordinate of the square grid.
    pub open spec fn wf(&self) -> bool {
        wf_grid(self.grid()) && wf_grid(self.scratch())
    }

    /// One all-Dead buffer.
    fn dead_buffer() -> (buffer: Vec<GolCell>)
        ensures
            buffer@.len() == AREA,
            all_dead(buffer@),
    {
        let mut buffer: Vec<GolCell> = Vec::new();
        let mut i: usize = 0;
        while i < AREA
            invariant
                i <= AREA,
                buffer@.len() == i,
                all_dead(buffer@),
            decreases AREA - i,
        {
            buffer.push(GolCell::Dead);
            i = i + 1;
        }
        buffer
    }

    /// A fresh engine: both buffers allocated once, every cell Dead.
    /// Construction takes no parameters and cannot fail.
    pub fn new() -> (board: GameBoard)
        ensures
            board.wf(),
            all_dead(board.grid()),
            all_dead(board.scratch()),
    {
        GameBoard { current_state: Self::dead_buffer(), temp_state: Self::dead_buffer() }
    }

    /// Read the cell at row `y`, column `x` of the current generation.
    pub fn get_cell(&self, y: usize, x: usize) -> (cell: GolCell)
        requires
            self.wf(),
            y < SIZE,
            x < SIZE,
        ensures
            cell == cell_at(self.grid(), y as int, x as int),
    {
        self.current_state[y * SIZE + x]
    }

    /// Write `cell` at row `y`, column `x` of the current generation,
    /// leaving every other cell and the scratch buffer untouched.
    pub fn set_cell(&mut self, y: usize, x: usize, cell: GolCell)
        requires
            old(self).wf(),
            y < SIZE,
            x < SIZE,
        ensures
            final(self).wf(),
            final(self).grid() == old(self).grid().update(
                (y as int) * (SIZE as int) + (x as int),
                cell,
            ),
            final(self).scratch() == old(self).scratch(),
    {
        self.current_state.set(y * SIZE + x, cell);
    }

    /// Count the Alive cells among the 8 toroidal neighbours of (y, x) in
    /// the current generation. Pure: nothing is mutated, and the count
    /// wraps modulo the side length at every edge and corner.
    #[verifier::rlimit(50)]
    pub fn count_alive_neighbours(&self, y: usize, x: usize) -> (count: usize)
        requires
            self.wf(),
            y < SIZE,
            x < SIZE,
        ensures
            count == spec_neighbor_count(self.grid(), y as int, x as int),
    {
        let y_above = if y == 0 {
            SIZE - 1
        } else {
            y - 1
        };
        let y_below = if y == SIZE - 1 {
            0
        } else {
            y + 1
        };
        let x_above = if x == 0 {
            SIZE - 1
        } else {
            x - 1
        };
        let x_below = if x == SIZE - 1 {
            0
        } else {
            x + 1
        };

        let ghost g = self.grid();
        let ghost r = y as int;
        let ghost c = x as int;
        proof {
            assert(y_above as int == wrap_dec(r));
            assert(y_below as int == wrap_inc(r));
            assert(x_above as int == wrap_dec(c));
            assert(x_below as int == wrap_inc(c));
        }
        let mut count: usize = 0;
        if self.current_state[y_above * SIZE + x_above] == GolCell::Alive {
            count += 1;
        }
        assert(count == one_if_alive(cell_at(g, wrap_dec(r), wrap_dec(c))));
        if self.current_state[y_above * SIZE + x] == GolCell::Alive {
            count += 1;
        }
        assert(count == one_if_alive(cell_at(g, wrap_dec(r), wrap_dec(c))) + one_if_alive(
            cell_at(g, wrap_dec(r), c),
        ));
        if self.current_state[y_above * SIZE + x_below] == GolCell::Alive {
            count += 1;
        }
        assert(count == one_if_alive(cell_at(g, wrap_dec(r), wrap_dec(c))) + one_if_alive(
            cell_at(g, wrap_dec(r), c),
        ) + one_if_alive(cell_at(g, wrap_dec(r), wrap_inc(c))));
        if self.current_state[y * SIZE + x_above] == GolCell::Alive {
            count += 1;
        }
        assert(count == one_if_alive(cell_at(g, wrap_dec(r), wrap_dec(c))) + one_if_alive(
            cell_at(g, wrap_dec(r), c),
        ) + one_if_alive(cell_at(g, wrap_dec(r), wrap_inc(c))) + one_if_alive(
            cell_at(g, r, wrap_dec(c)),
        ));
        if self.current_state[y * SIZE + x_below] == GolCell::Alive {
            count += 1;
        }
        assert(count == one_if_alive(cell_at(g, wrap_dec(r), wrap_dec(c))) + one_if_alive(
            cell_at(g, wrap_dec(r), c),
        ) + one_if_alive(cell_at(g, wrap_dec(r), wrap_inc(c))) + one_if_alive(
            cell_at(g, r, wrap_dec(c)),
        ) + one_if_alive(cell_at(g, r, wrap_inc(c))));
        if self.current_state[y_below * SIZE + x_above] == GolCell::Alive {
            count += 1;
        }
        assert(count == one_if_alive(cell_at(g, wrap_dec(r), wrap_dec(c))) + one_if_alive(
            cell_at(g, wrap_dec(r), c),
        ) + one_if_alive(cell_at(g, wrap_dec(r), wrap_inc(c))) + one_if_alive(
            cell_at(g, r, wrap_dec(c)),
        ) + one_if_alive(cell_at(g, r, wrap_inc(c))) + one_if_alive(
            cell_at(g, wrap_inc(r), wrap_dec(c)),
        ));
        if self.current_state[y_below * SIZE + x] == GolCell::Alive {
            count += 1;
        }
        assert(count == one_if_alive(cell_at(g, wrap_dec(r), wrap_dec(c))) + one_if_alive(
            cell_at(g, wrap_dec(r), c),
        ) + one_if_alive(cell_at(g, wrap_dec(r), wrap_inc(c))) + one_if_alive(
            cell_at(g, r, wrap_dec(c)),
        ) + one_if_alive(cell_at(g, r, wrap_inc(c))) + one_if_alive(
            cell_at(g, wrap_inc(r), wrap_dec(c)),
        ) + one_if_alive(cell_at(g, wrap_inc(r), c)));
        if self.current_state[y_below * SIZE + x_below] == GolCell::Alive {
            count += 1;
        }
        count
    }

    /// Advance the simulation by one generation, atomically: the next
    /// generation is computed from the current one into the scratch
    /// buffer, then the two buffers swap roles. The previous generation
    /// is left intact in the scratch buffer, so later writes to the
    /// current buffer can never disturb it.
    pub fn go_to_next_state(&mut self)
        requires
            old(self).wf(),
        ensures
            final(self).wf(),
            final(self).grid() == next_grid(old(self).grid()),
            final(self).scratch() == old(self).grid(),
    {
        let ghost g0 = self.current_state@;
        for y in 0..SIZE
            invariant
                self.wf(),
                self.current_state@ == g0,
                forall|i: int|
                    0 <= i < (y as int) * (SIZE as int) ==> self.temp_state@[i] == next_grid(g0)[i],
        {
            for x in 0..SIZE
                invariant
                    y < SIZE,
                    self.wf(),
                    self.current_state@ == g0,
                    forall|i: int|
                        0 <= i < (y as int) * (SIZE as int) + (x as int) ==> self.temp_state@[i]
                            == next_grid(g0)[i],
            {
                let alive_neighbours = self.count_alive_neighbours(y, x);
                let idx = y * SIZE + x;
                let cell = match self.current_state[idx] {
                    GolCell::Dead => {
                        if alive_neighbours == 3 {
                            GolCell::Alive
                        } else {
                            GolCell::Dead
                        }
                    },
                    GolCell::Alive => {
                        if alive_neighbours < 2 || alive_neighbours > 3 {
                            GolCell::Dead
                        } else {
                            GolCell::Alive
                        }
                    },
                };
                proof {
                    lemma_flat_index(y as int, x as int);
                    assert(cell == next_grid(g0)[idx as int]);
                }
                self.temp_state.set(idx, cell);
            }
        }
        proof {
            assert(self.temp_state@ =~= next_grid(g0));
        }
        core::mem::swap(&mut self.current_state, &mut self.temp_state);
    }
}

} // verus!
