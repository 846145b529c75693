use vstd::prelude::*;

verus! {

/// Side length of the square game board.
pub const BOARD_SIZE: usize = 24;

/// Wraps an index that stepped one past either edge of the board
/// around to the opposite edge.
pub open spec fn wrap(n: int) -> int {
    if n < 0 {
        BOARD_SIZE - 1
    } else if n >= BOARD_SIZE {
        0
    } else {
        n
    }
}

/// A well-formed board: BOARD_SIZE rows of BOARD_SIZE cells, each 0 or 1.
pub open spec fn board_ok(b: Seq<Vec<i32>>) -> bool {
    &&& b.len() == BOARD_SIZE
    &&& forall|i: int| 0 <= i < b.len() ==> (#[trigger] b[i])@.len() == BOARD_SIZE
    &&& forall|i: int, j: int|
        0 <= i < b.len() && 0 <= j < b[i]@.len() ==> 0 <= #[trigger] b[i]@[j] <= 1
}

/// The cell at (i, j), where an index one step outside the board wraps around.
pub open spec fn cell(b: Seq<Vec<i32>>, i: int, j: int) -> int {
    b[wrap(i)]@[wrap(j)] as int
}

/// The sum of the eight neighbors of (i, j), with wrap-around at the edges.
pub open spec fn neighbor_count(b: Seq<Vec<i32>>, i: int, j: int) -> int {
    cell(b, i - 1, j - 1) + cell(b, i - 1, j) + cell(b, i - 1, j + 1) + cell(b, i, j - 1) + cell(
        b,
        i,
        j + 1,
    ) + cell(b, i + 1, j - 1) + cell(b, i + 1, j) + cell(b, i + 1, j + 1)
}

/// Whether a cell lives in the next generation: a cell with three live
/// neighbors lives, and a live cell with two live neighbors stays alive.
pub open spec fn liveness(current_state: int, live_neighbors: int) -> int {
    if live_neighbors == 3 || (live_neighbors == 2 && current_state == 1) {
        1
    } else {
        0
    }
}

fn dec_wrap(i: usize) -> (r: usize)
    requires
        i < BOARD_SIZE,
    ensures
        r == wrap(i - 1),
{
    if i == 0 {
        BOARD_SIZE - 1
    } else {
        i - 1
    }
}

fn inc_wrap(i: usize) -> (r: usize)
    requires
        i < BOARD_SIZE,
    ensures
        r == wrap(i + 1),
{
    if i + 1 >= BOARD_SIZE {
        0
    } else {
        i + 1
    }
}

/// Counts the live cells among the eight neighbors of (i, j).
pub fn count_neighbors(board: &Vec<Vec<i32>>, i: usize, j: usize) -> (count: i32)
    requires
        board_ok(board@),
        i < BOARD_SIZE,
        j < BOARD_SIZE,
    ensures
        count == neighbor_count(board@, i as int, j as int),
        0 <= count <= 8,
{
    let im = dec_wrap(i);
    let ip = inc_wrap(i);
    let jm = dec_wrap(j);
    let jp = inc_wrap(j);
    let mut count: i32 = 0;
    count = count + board[im][jm];
    count = count + board[im][j];
    count = count + board[im][jp];
    count = count + board[i][jm];
    count = count + board[i][jp];
    count = count + board[ip][jm];
    count = count + board[ip][j];
    count = count + board[ip][jp];
    count
}

/// Decides one cell of the next generation from its current state and
/// its number of live neighbors.
pub fn calculate_liveness(current_state: i32, live_neighbors: i32) -> (r: i32)
    ensures
        r == liveness(current_state as int, live_neighbors as int),
{
    if live_neighbors == 3 || (live_neighbors == 2 && current_state == 1) {
        1
    } else {
        0
    }
}

/// Computes the next generation of the whole board.
pub fn next_generation(current: &Vec<Vec<i32>>) -> (next: Vec<Vec<i32>>)
    requires
        board_ok(current@),
    ensures
        board_ok(next@),
        forall|x: int, y: int|
            0 <= x < BOARD_SIZE && 0 <= y < BOARD_SIZE ==> #[trigger] next@[x]@[y]
                == liveness(
                current@[x]@[y] as int,
                neighbor_count(current@, x, y),
            ),
{
    let mut next: Vec<Vec<i32>> = Vec::new();
    let mut x: usize = 0;
    while x < BOARD_SIZE
        invariant
            board_ok(current@),
            x <= BOARD_SIZE,
            next@.len() == x,
            forall|i: int| 0 <= i < x ==> (#[trigger] next@[i])@.len() == BOARD_SIZE,
            forall|i: int, j: int|
                0 <= i < x && 0 <= j < BOARD_SIZE ==> #[trigger] next@[i]@[j]
                    == liveness(
                    current@[i]@[j] as int,
                    neighbor_count(current@, i, j),
                ),
        decreases BOARD_SIZE - x,
    {
        let mut row: Vec<i32> = Vec::new();
        let mut y: usize = 0;
        while y < BOARD_SIZE
            invariant
                board_ok(current@),
                x < BOARD_SIZE,
                y <= BOARD_SIZE,
                row@.len() == y,
                forall|j: int|
                    0 <= j < y ==> #[trigger] row@[j] == liveness(
                        current@[x as int]@[j] as int,
                        neighbor_count(current@, x as int, j),
                    ),
            decreases BOARD_SIZE - y,
        {
            let live_neighbors = count_neighbors(current, x, y);
            let v = calculate_liveness(current[x][y], live_neighbors);
            row.push(v);
            y = y + 1;
        }
        next.push(row);
        x = x + 1;
    }
    proof {
        assert forall|i: int, j: int|
            0 <= i < next@.len() && 0 <= j < next@[i]@.len() implies 0
            <= #[trigger] next@[i]@[j] <= 1 by {
            assert(next@[i]@[j] == liveness(
                current@[i]@[j] as int,
                neighbor_count(current@, i, j),
            ));
        }
    }
    next
}

} // verus!
